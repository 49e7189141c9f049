//! Logic of the EZ isolate bridge with a shared memory data plane.
//!
//! The bridge answers `EzIsolateBridge` calls, but routes `EzPayloadData` datagrams
//! through /dev/shm ring buffers instead of serializing them into protobuf messages.
//!
//! Architecture:
//! ```text
//!   Enforcer                              Isolate
//!     │                                     │
//!     │── write datagrams to /dev/shm ────▶│  (data plane: bulk bytes)
//!     │                                     │
//!     │══ gRPC InvokeIsolate ═════════════▶│  (control plane: metadata +
//!     │   ControlPlaneMetadata              │   scope + shm_handles only,
//!     │   + EzPayloadIsolateScope           │   datagrams field is EMPTY)
//!     │   + shared_memory_handles           │
//!     │                                     │── read datagrams from /dev/shm
//!     │                                     │── process
//!     │                                     │── write response datagrams to /dev/shm
//!     │◀═ gRPC InvokeIsolateResponse ══════│  (control plane)
//!     │                                     │
//!     │◀── read response from /dev/shm ────│  (data plane)
//! ```
//!
//! The `ControlPlaneMetadata.shared_memory_handles` field carries the shm channel name
//! so the receiver knows where to read from. The number of datagrams travels in the
//! metadata header `x-shm-datagram-count`.

use crate::channel;
use crate::channel::{ChannelConfig, ShmChannel};
use crate::names::NameMap;
use crate::protocol;
use crate::protocol::{flags, Frame, FrameView};
use crate::ring;
use crate::ring::RingBuf;
use crate::service;
use crate::status::{Status, StatusCode, StatusView};
use crate::text;
use crate::wire;
use vstd::prelude::*;
use vstd::string::*;

verus! {

// ─── Control messages ────────────────────────────────────────────────────────

/// Metadata of a call.
pub struct ControlPlaneMetadata {
    pub ipc_message_id: u64,
    pub requester_spiffe: String,
    pub destination_service_name: String,
    pub destination_method_name: String,
    pub shared_memory_handles: Vec<String>,
    pub metadata_headers: NameMap<String>,
}

/// Scope of one datagram.
pub struct IsolateDataScope {
    pub scope_type: i32,
}

/// Scopes of the datagrams of a call.
pub struct EzPayloadIsolateScope {
    pub datagram_iscopes: Vec<IsolateDataScope>,
}

/// Datagrams that travel in the control message itself.
pub struct EzPayloadData {
    pub datagrams: Vec<Vec<u8>>,
}

pub struct InvokeIsolateRequest {
    pub control_plane_metadata: Option<ControlPlaneMetadata>,
    pub isolate_input_iscope: Option<EzPayloadIsolateScope>,
    pub isolate_input: Option<EzPayloadData>,
}

pub struct IsolateStatus {
    pub code: i32,
    pub message: String,
}

pub struct InvokeIsolateResponse {
    pub control_plane_metadata: Option<ControlPlaneMetadata>,
    pub isolate_output_iscope: Option<EzPayloadIsolateScope>,
    pub isolate_output: Option<EzPayloadData>,
    pub status: Option<IsolateStatus>,
}

/// The texts of a map's strings.
pub open spec fn header_texts(headers: Map<Seq<char>, String>) -> Map<Seq<char>, Seq<char>> {
    headers.map_values(|v: String| v@)
}

/// What metadata consists of.
#[verifier::ext_equal]
pub struct MetadataView {
    pub ipc_message_id: u64,
    pub requester_spiffe: Seq<char>,
    pub destination_service_name: Seq<char>,
    pub destination_method_name: Seq<char>,
    pub shared_memory_handles: Seq<Seq<char>>,
    pub metadata_headers: Map<Seq<char>, Seq<char>>,
}

impl View for ControlPlaneMetadata {
    type V = MetadataView;

    open spec fn view(&self) -> MetadataView {
        MetadataView {
            ipc_message_id: self.ipc_message_id,
            requester_spiffe: self.requester_spiffe@,
            destination_service_name: self.destination_service_name@,
            destination_method_name: self.destination_method_name@,
            shared_memory_handles: text::texts(self.shared_memory_handles@),
            metadata_headers: header_texts(self.metadata_headers@),
        }
    }
}

impl ControlPlaneMetadata {
    /// Metadata with nothing in it.
    pub fn empty() -> (metadata: ControlPlaneMetadata)
        ensures
            metadata@ == empty_metadata(),
    {
        let metadata = ControlPlaneMetadata {
            ipc_message_id: 0,
            requester_spiffe: String::new(),
            destination_service_name: String::new(),
            destination_method_name: String::new(),
            shared_memory_handles: Vec::new(),
            metadata_headers: NameMap::new(),
        };
        assert(metadata@.shared_memory_handles =~= Seq::empty());
        assert(metadata@.metadata_headers =~= Map::empty());
        metadata
    }
}

/// Metadata with nothing in it.
pub open spec fn empty_metadata() -> MetadataView {
    MetadataView {
        ipc_message_id: 0,
        requester_spiffe: Seq::empty(),
        destination_service_name: Seq::empty(),
        destination_method_name: Seq::empty(),
        shared_memory_handles: Seq::empty(),
        metadata_headers: Map::empty(),
    }
}

/// The byte strings of a list of datagrams.
pub open spec fn datagrams_view(datagrams: Seq<Vec<u8>>) -> Seq<Seq<u8>> {
    Seq::new(datagrams.len(), |i: int| datagrams[i]@)
}

// ─── Datagrams as frames ─────────────────────────────────────────────────────

/// The frame for datagram number `i` of `n`: the stream id is the number, and the last one
/// ends the stream.
pub open spec fn datagram_frame(datagram: Seq<u8>, i: nat, n: nat) -> FrameView {
    FrameView {
        version: protocol::FRAME_VERSION,
        flags: if i + 1 == n {
            flags::END_STREAM
        } else {
            0
        },
        stream_id: wire::low32(i),
        headers: Seq::empty(),
        payload: datagram,
    }
}

/// The frames for a list of datagrams.
pub open spec fn datagram_frames(datagrams: Seq<Seq<u8>>) -> Seq<FrameView> {
    Seq::new(datagrams.len(), |i: int| datagram_frame(datagrams[i], i as nat, datagrams.len()))
}

/// What a list of frames consists of.
pub open spec fn frames_view(frames: Seq<Frame>) -> Seq<FrameView> {
    Seq::new(frames.len(), |i: int| frames[i]@)
}

/// The payloads of a list of frames.
pub open spec fn payloads(frames: Seq<FrameView>) -> Seq<Seq<u8>> {
    Seq::new(frames.len(), |i: int| frames[i].payload)
}

/// The frames that carry datagrams, one each.
pub fn write_datagrams(datagrams: &Vec<Vec<u8>>) -> (frames: Vec<Frame>)
    ensures
        frames_view(frames@) == datagram_frames(datagrams_view(datagrams@)),
{
    let mut frames: Vec<Frame> = Vec::new();
    let ghost all = datagram_frames(datagrams_view(datagrams@));
    let n: usize = datagrams.len();
    let mut i: usize = 0;
    assert(frames_view(frames@) =~= all.take(0));
    while i < n
        invariant
            i <= n == datagrams@.len(),
            all == datagram_frames(datagrams_view(datagrams@)),
            frames_view(frames@) == all.take(i as int),
        decreases n - i,
    {
        let mut frame = Frame::new(wire::truncate_u32(i)).payload(
            vstd::slice::slice_to_vec(datagrams[i].as_slice()),
        );
        if i == n - 1 {
            frame = frame.flags(flags::END_STREAM);
        }
        assert(frame@ == all[i as int]);
        let ghost before = frames_view(frames@);
        frames.push(frame);
        i += 1;
        assert(frames_view(frames@) =~= before.push(frame@));
        assert(frames_view(frames@) =~= all.take(i as int));
    }
    assert(all.take(n as int) =~= all);
    frames
}

/// Datagrams come back as they were written, in order: the payloads of the frames are the
/// datagrams, the last frame and no other ends the stream, and every frame survives the
/// wire while its datagram is shorter than 2^32 bytes.
pub proof fn law_datagrams_round_trip(datagrams: Seq<Seq<u8>>)
    ensures
        payloads(datagram_frames(datagrams)) == datagrams,
        forall|i: int|
            0 <= i < datagrams.len() ==> ((#[trigger] datagram_frames(datagrams)[i]).flags % 2 == 1
                <==> i == datagrams.len() - 1),
        forall|i: int|
            0 <= i < datagrams.len() && datagrams[i].len() < 0x1_0000_0000 ==> (
            #[trigger] datagram_frames(datagrams)[i]).transmissible(),
{
    assert(payloads(datagram_frames(datagrams)) =~= datagrams);
    assert forall|i: int| 0 <= i < datagrams.len() && datagrams[i].len() < 0x1_0000_0000 implies (
    #[trigger] datagram_frames(datagrams)[i]).transmissible() by {
        let f = datagram_frames(datagrams)[i];
        assert(f.headers.len() == 0);
        assert(protocol::encode_headers(f.headers).len() == 0);
    }
}

// ─── The datagram count header ───────────────────────────────────────────────

/// The number of datagrams that metadata headers announce, if they do.
pub open spec fn announced_count(headers: Map<Seq<char>, Seq<char>>) -> Option<usize> {
    if headers.contains_key("x-shm-datagram-count"@) {
        text::usize_of(headers["x-shm-datagram-count"@])
    } else {
        None
    }
}

/// The number of datagrams that metadata headers announce, if they do.
pub fn read_count(headers: &NameMap<String>) -> (count: Option<usize>)
    ensures
        count == announced_count(header_texts(headers@)),
{
    match headers.get("x-shm-datagram-count") {
        Some(t) => text::parse_usize(t.as_str()),
        None => None,
    }
}

/// Puts the number of datagrams into metadata headers.
fn announce_count(headers: &mut NameMap<String>, count: usize)
    ensures
        header_texts(final(headers)@) == header_texts(old(headers)@).insert(
            "x-shm-datagram-count"@,
            text::decimal(count as nat),
        ),
{
    let t = text::decimal_text(count as u64);
    headers.insert("x-shm-datagram-count".to_owned(), t);
    assert(header_texts(headers@) =~= header_texts(old(headers)@).insert(
        "x-shm-datagram-count"@,
        text::decimal(count as nat),
    ));
}

/// A count that was put into headers is read back from them.
pub proof fn law_count_round_trip(headers: Map<Seq<char>, Seq<char>>, count: usize)
    ensures
        announced_count(
            headers.insert("x-shm-datagram-count"@, text::decimal(count as nat)),
        ) == Some(count),
{
    text::law_decimal_round_trip(count as nat);
}

// ─── Messages by what they consist of ────────────────────────────────────────

/// The scope types of a list of scopes.
pub open spec fn scopes_view(scopes: Seq<IsolateDataScope>) -> Seq<i32> {
    Seq::new(scopes.len(), |i: int| scopes[i].scope_type)
}

#[verifier::ext_equal]
pub struct RequestView {
    pub metadata: Option<MetadataView>,
    pub iscope: Option<Seq<i32>>,
    pub input: Option<Seq<Seq<u8>>>,
}

#[verifier::ext_equal]
pub struct ResponseView {
    pub metadata: Option<MetadataView>,
    pub iscope: Option<Seq<i32>>,
    pub output: Option<Seq<Seq<u8>>>,
    pub status: Option<(i32, Seq<char>)>,
}

impl View for InvokeIsolateRequest {
    type V = RequestView;

    open spec fn view(&self) -> RequestView {
        RequestView {
            metadata: match self.control_plane_metadata {
                Some(m) => Some(m@),
                None => None,
            },
            iscope: match self.isolate_input_iscope {
                Some(s) => Some(scopes_view(s.datagram_iscopes@)),
                None => None,
            },
            input: match self.isolate_input {
                Some(d) => Some(datagrams_view(d.datagrams@)),
                None => None,
            },
        }
    }
}

impl View for InvokeIsolateResponse {
    type V = ResponseView;

    open spec fn view(&self) -> ResponseView {
        ResponseView {
            metadata: match self.control_plane_metadata {
                Some(m) => Some(m@),
                None => None,
            },
            iscope: match self.isolate_output_iscope {
                Some(s) => Some(scopes_view(s.datagram_iscopes@)),
                None => None,
            },
            output: match self.isolate_output {
                Some(d) => Some(datagrams_view(d.datagrams@)),
                None => None,
            },
            status: match self.status {
                Some(st) => Some((st.code, st.message@)),
                None => None,
            },
        }
    }
}

/// The answer to a call: the id of the call, the channel, and how many datagrams were
/// written to it; no datagrams in the answer itself.
pub open spec fn response_to(ipc_message_id: u64, channel_name: Seq<char>, count: nat) -> ResponseView {
    ResponseView {
        metadata: Some(
            MetadataView {
                ipc_message_id,
                shared_memory_handles: seq![channel_name],
                metadata_headers: Map::empty().insert(
                    "x-shm-datagram-count"@,
                    text::decimal(count),
                ),
                ..empty_metadata()
            },
        ),
        iscope: Some(Seq::empty()),
        output: Some(Seq::empty()),
        status: Some((0i32, "ok"@)),
    }
}

/// The answer to a call after `count` datagrams were written to the channel.
fn build_response(ipc_message_id: u64, channel_name: String, count: usize) -> (response:
    InvokeIsolateResponse)
    ensures
        response@ == response_to(ipc_message_id, channel_name@, count as nat),
{
    let mut metadata = ControlPlaneMetadata::empty();
    metadata.ipc_message_id = ipc_message_id;
    proof {
        text::lemma_texts_push(metadata.shared_memory_handles@, channel_name);
    }
    metadata.shared_memory_handles.push(channel_name);
    announce_count(&mut metadata.metadata_headers, count);
    let response = InvokeIsolateResponse {
        control_plane_metadata: Some(metadata),
        isolate_output_iscope: Some(EzPayloadIsolateScope { datagram_iscopes: Vec::new() }),
        isolate_output: Some(EzPayloadData { datagrams: Vec::new() }),
        status: Some(IsolateStatus { code: 0, message: "ok".to_owned() }),
    };
    proof {
        let want = response_to(ipc_message_id, channel_name@, count as nat);
        assert(response@.metadata.unwrap().shared_memory_handles =~= seq![channel_name@]);
        assert(response@.metadata.unwrap() =~= want.metadata.unwrap());
        assert(response@.iscope.unwrap() =~= Seq::empty());
        assert(response@.output.unwrap() =~= Seq::empty());
    }
    response
}

// ─── Channels ────────────────────────────────────────────────────────────────

/// The bridge's open channels, and what it makes new ones with. `C` is whatever stands for
/// an open channel.
pub struct EzIsolateBridgeShm<C> {
    channels: NameMap<C>,
    shm_dir: String,
    ring_size: usize,
}

impl<C> EzIsolateBridgeShm<C> {
    /// The open channels by name.
    pub closed spec fn open_channels(&self) -> Map<Seq<char>, C> {
        self.channels@
    }

    /// What a channel with the given name is made with.
    pub closed spec fn plan_for(&self, name: Seq<char>) -> service::ChannelPlan {
        service::ChannelPlan { shm_dir: self.shm_dir@, name, ring_size: self.ring_size }
    }

    /// A bridge without channels.
    pub fn new(shm_dir: String, ring_size: usize) -> (bridge: Self)
        ensures
            bridge.open_channels() == Map::<Seq<char>, C>::empty(),
            forall|name: Seq<char>| #[trigger]
                bridge.plan_for(name) == (service::ChannelPlan {
                    shm_dir: shm_dir@,
                    name,
                    ring_size,
                }),
    {
        EzIsolateBridgeShm { channels: NameMap::new(), shm_dir, ring_size }
    }

    /// The open channel with the given name.
    pub fn channel(&self, name: &str) -> (found: Option<&C>)
        ensures
            found == if self.open_channels().contains_key(name@) {
                Some(&self.open_channels()[name@])
            } else {
                None
            },
    {
        self.channels.get(name)
    }

    /// Whether this is what to make the channel with the given name with: something exactly
    /// if it is not open.
    pub open spec fn asks_for(&self, config: Option<ChannelConfig>, name: Seq<char>) -> bool {
        match config {
            Some(c) => {
                &&& !self.open_channels().contains_key(name)
                &&& service::plan_of(c) == self.plan_for(name)
            },
            None => self.open_channels().contains_key(name),
        }
    }

    /// What to make the channel with the given name with, unless it is open.
    pub fn get_or_create_channel(&self, name: &str) -> (config: Option<ChannelConfig>)
        ensures
            self.asks_for(config, name@),
            config is None <==> self.open_channels().contains_key(name@),
            config matches Some(c) ==> c.name@ == name@ && c.shm_dir@ == self.plan_for(
                name@,
            ).shm_dir && c.ring_size == self.plan_for(name@).ring_size,
    {
        if self.channels.contains_key(name) {
            None
        } else {
            Some(
                ChannelConfig {
                    shm_dir: self.shm_dir.clone(),
                    name: name.to_owned(),
                    ring_size: self.ring_size,
                },
            )
        }
    }

    /// Starts a single call. Returns the call and, unless its channel is open, what to make
    /// the channel with; a request that has no metadata or names no channel is refused.
    pub fn invoke_isolate(&self, req: InvokeIsolateRequest) -> (started: Result<
        (InvokeCall, Option<ChannelConfig>),
        Status,
    >)
        ensures
            match (started, call_of(req@, true)) {
                (Ok((call, config)), Ok(view)) => call@ == view && self.asks_for(
                    config,
                    view.channel_name,
                ),
                (Err(status), Err(view)) => status@ == view,
                _ => false,
            },
            started matches Ok((call, config)) ==> {
                &&& req@.metadata == Some(call@.metadata)
                &&& call@.iscope == match req@.iscope {
                    Some(scopes) => scopes,
                    None => Seq::empty(),
                }
                &&& call@.inline == match req@.input {
                    Some(datagrams) => datagrams,
                    None => Seq::empty(),
                }
                &&& call@.channel_name == call@.metadata.shared_memory_handles[0]
                &&& call@.reports
                &&& config is None <==> self.open_channels().contains_key(call@.channel_name)
            },
            started is Ok <==> req@.metadata is Some
                && req@.metadata.unwrap().shared_memory_handles.len() > 0,
    {
        match begin_call(req, true) {
            Ok(call) => {
                let config = self.get_or_create_channel(call.channel_name());
                Ok((call, config))
            },
            Err(status) => Err(status),
        }
    }

    /// Starts a call of a stream. Returns the call and, unless its channel is open, what to
    /// make the channel with; a request that has no metadata or names no channel is passed
    /// over.
    pub fn stream_invoke_isolate(&self, req: InvokeIsolateRequest) -> (started: Option<
        (InvokeCall, Option<ChannelConfig>),
    >)
        ensures
            match (started, call_of(req@, false)) {
                (Some((call, config)), Ok(view)) => call@ == view && self.asks_for(
                    config,
                    view.channel_name,
                ),
                (None, Err(_)) => true,
                _ => false,
            },
            started matches Some((call, config)) ==> {
                &&& req@.metadata == Some(call@.metadata)
                &&& call@.iscope == match req@.iscope {
                    Some(scopes) => scopes,
                    None => Seq::empty(),
                }
                &&& call@.inline == match req@.input {
                    Some(datagrams) => datagrams,
                    None => Seq::empty(),
                }
                &&& call@.channel_name == call@.metadata.shared_memory_handles[0]
                &&& !call@.reports
                &&& config is None <==> self.open_channels().contains_key(call@.channel_name)
            },
            started is Some <==> req@.metadata is Some
                && req@.metadata.unwrap().shared_memory_handles.len() > 0,
    {
        match begin_call(req, false) {
            Ok(call) => {
                let config = self.get_or_create_channel(call.channel_name());
                Some((call, config))
            },
            Err(_) => None,
        }
    }

    /// Takes a channel that was made under the given name.
    pub fn add_channel(&mut self, name: String, channel: C)
        ensures
            final(self).open_channels() == old(self).open_channels().insert(name@, channel),
            forall|n: Seq<char>| #[trigger] final(self).plan_for(n) == old(self).plan_for(n),
    {
        self.channels.insert(name, channel);
    }

    /// Pass through: state management is orthogonal to the data plane. The state that the
    /// isolate is in is the one that it was to move to.
    pub fn update_isolate_state(&self, move_to_state: i32) -> (current_state: i32)
        ensures
            current_state == move_to_state,
    {
        move_to_state
    }
}

// ─── One call ────────────────────────────────────────────────────────────────

/// How far a call is.
pub enum CallStage {
    /// Waiting for the channel to be open.
    Opening,
    /// Waiting for the next datagram, with these read.
    Reading(Vec<Vec<u8>>),
    /// Waiting for the handler.
    Handling,
    /// Waiting for a frame to be sent, with these to follow, of this many in all.
    Writing { rest: Vec<Frame>, count: usize },
    /// Nothing is left to do.
    Done,
}

/// What happened to a call.
pub enum CallEvent {
    /// The channel is open.
    ChannelReady,
    /// The channel could not be made, for this reason.
    ChannelFailed(String),
    /// A frame was received from the channel.
    Received(Frame),
    /// No frame could be received, for this reason.
    RecvFailed(String),
    /// The handler answered with these datagrams.
    Handled(Vec<Vec<u8>>),
    /// The frame was sent.
    Sent,
    /// The frame could not be sent, for this reason.
    SendFailed(String),
}

/// What a call asks for next.
pub enum CallStep {
    /// Receive a frame.
    Receive,
    /// Run the handler on these datagrams.
    Handle(Vec<Vec<u8>>),
    /// Send this frame.
    Send(Frame),
    /// Answer the call.
    Respond(InvokeIsolateResponse),
    /// Fail the call with this status.
    Fail(Status),
    /// Give no answer.
    Skip,
    /// Nothing: the event does not belong to the stage of the call.
    Ignore,
}

#[verifier::ext_equal]
pub enum CallStageView {
    Opening,
    Reading(Seq<Seq<u8>>),
    Handling,
    Writing { rest: Seq<FrameView>, count: nat },
    Done,
}

#[verifier::ext_equal]
pub enum CallEventView {
    ChannelReady,
    ChannelFailed(Seq<char>),
    Received(FrameView),
    RecvFailed(Seq<char>),
    Handled(Seq<Seq<u8>>),
    Sent,
    SendFailed(Seq<char>),
}

#[verifier::ext_equal]
pub enum CallStepView {
    Receive,
    Handle(Seq<Seq<u8>>),
    Send(FrameView),
    Respond(ResponseView),
    Fail(StatusView),
    Skip,
    Ignore,
}

impl View for CallStage {
    type V = CallStageView;

    open spec fn view(&self) -> CallStageView {
        match self {
            CallStage::Opening => CallStageView::Opening,
            CallStage::Reading(got) => CallStageView::Reading(datagrams_view(got@)),
            CallStage::Handling => CallStageView::Handling,
            CallStage::Writing { rest, count } => CallStageView::Writing {
                rest: frames_view(rest@),
                count: *count as nat,
            },
            CallStage::Done => CallStageView::Done,
        }
    }
}

impl View for CallEvent {
    type V = CallEventView;

    open spec fn view(&self) -> CallEventView {
        match self {
            CallEvent::ChannelReady => CallEventView::ChannelReady,
            CallEvent::ChannelFailed(e) => CallEventView::ChannelFailed(e@),
            CallEvent::Received(frame) => CallEventView::Received(frame@),
            CallEvent::RecvFailed(e) => CallEventView::RecvFailed(e@),
            CallEvent::Handled(datagrams) => CallEventView::Handled(datagrams_view(datagrams@)),
            CallEvent::Sent => CallEventView::Sent,
            CallEvent::SendFailed(e) => CallEventView::SendFailed(e@),
        }
    }
}

impl View for CallStep {
    type V = CallStepView;

    open spec fn view(&self) -> CallStepView {
        match self {
            CallStep::Receive => CallStepView::Receive,
            CallStep::Handle(datagrams) => CallStepView::Handle(datagrams_view(datagrams@)),
            CallStep::Send(frame) => CallStepView::Send(frame@),
            CallStep::Respond(response) => CallStepView::Respond(response@),
            CallStep::Fail(status) => CallStepView::Fail(status@),
            CallStep::Skip => CallStepView::Skip,
            CallStep::Ignore => CallStepView::Ignore,
        }
    }
}

/// A call of an isolate: open the channel, read the datagrams, run the handler, write its
/// datagrams, answer.
pub struct InvokeCall {
    metadata: ControlPlaneMetadata,
    iscope: EzPayloadIsolateScope,
    channel_name: String,
    inline: Vec<Vec<u8>>,
    wanted: usize,
    reports: bool,
    stage: CallStage,
}

/// What a call consists of.
#[verifier::ext_equal]
pub struct CallView {
    /// Metadata of the request.
    pub metadata: MetadataView,
    /// Scopes of the request.
    pub iscope: Seq<i32>,
    /// The channel that the datagrams travel through.
    pub channel_name: Seq<char>,
    /// Datagrams that came with the request itself.
    pub inline: Seq<Seq<u8>>,
    /// How many datagrams are to be read from the channel.
    pub wanted: usize,
    /// Whether failures are reported to the caller.
    pub reports: bool,
    pub stage: CallStageView,
}

impl View for InvokeCall {
    type V = CallView;

    closed spec fn view(&self) -> CallView {
        CallView {
            metadata: self.metadata@,
            iscope: scopes_view(self.iscope.datagram_iscopes@),
            channel_name: self.channel_name@,
            inline: datagrams_view(self.inline@),
            wanted: self.wanted,
            reports: self.reports,
            stage: self.stage@,
        }
    }
}

/// What a failure of a call comes to: the status, or silence where failures are not reported.
pub open spec fn failure(reports: bool, code: StatusCode, message: Seq<char>) -> CallStepView {
    if reports {
        CallStepView::Fail(StatusView { code, message })
    } else {
        CallStepView::Skip
    }
}

/// The call after an event, and what is asked for next.
pub open spec fn call_step(call: CallView, event: CallEventView) -> (CallView, CallStepView) {
    let done = CallView { stage: CallStageView::Done, ..call };
    match (call.stage, event) {
        (CallStageView::Opening, CallEventView::ChannelReady) => if call.wanted > 0 {
            (
                CallView { stage: CallStageView::Reading(Seq::empty()), ..call },
                CallStepView::Receive,
            )
        } else {
            (
                CallView { stage: CallStageView::Handling, inline: Seq::empty(), ..call },
                CallStepView::Handle(call.inline),
            )
        },
        (CallStageView::Opening, CallEventView::ChannelFailed(e)) => (
            done,
            failure(
                call.reports,
                StatusCode::Internal,
                "failed to create shm channel: "@ + e,
            ),
        ),
        (CallStageView::Reading(got), CallEventView::Received(frame)) => {
            let more = got.push(frame.payload);
            if more.len() < call.wanted {
                (CallView { stage: CallStageView::Reading(more), ..call }, CallStepView::Receive)
            } else {
                (CallView { stage: CallStageView::Handling, ..call }, CallStepView::Handle(more))
            }
        },
        (CallStageView::Reading(_), CallEventView::RecvFailed(e)) => (
            done,
            failure(
                call.reports,
                StatusCode::DeadlineExceeded,
                "failed to read datagram from shm: "@ + e,
            ),
        ),
        (CallStageView::Handling, CallEventView::Handled(datagrams)) => {
            let frames = datagram_frames(datagrams);
            if datagrams.len() == 0 {
                (
                    done,
                    CallStepView::Respond(
                        response_to(call.metadata.ipc_message_id, call.channel_name, 0),
                    ),
                )
            } else {
                (
                    CallView {
                        stage: CallStageView::Writing {
                            rest: frames.drop_first(),
                            count: datagrams.len(),
                        },
                        ..call
                    },
                    CallStepView::Send(frames[0]),
                )
            }
        },
        (CallStageView::Writing { rest, count }, CallEventView::Sent) => if rest.len() == 0 {
            (
                done,
                CallStepView::Respond(
                    response_to(call.metadata.ipc_message_id, call.channel_name, count),
                ),
            )
        } else {
            (
                CallView {
                    stage: CallStageView::Writing { rest: rest.drop_first(), count },
                    ..call
                },
                CallStepView::Send(rest[0]),
            )
        },
        (CallStageView::Writing { .. }, CallEventView::SendFailed(e)) => (
            done,
            failure(
                call.reports,
                StatusCode::Internal,
                "failed to write datagram to shm: "@ + e,
            ),
        ),
        _ => (call, CallStepView::Ignore),
    }
}

/// How many datagrams a call reads from the channel: as many as the headers announce. Where
/// they announce none it reads none, and the datagrams that came with the request are used.
pub open spec fn wanted_count(metadata: MetadataView) -> usize {
    match announced_count(metadata.metadata_headers) {
        Some(n) => n,
        None => 0,
    }
}

/// The call that a request starts, or the status for a request that has no metadata or
/// names no channel.
pub open spec fn call_of(req: RequestView, single: bool) -> Result<CallView, StatusView> {
    match req.metadata {
        None => Err(
            StatusView {
                code: StatusCode::InvalidArgument,
                message: "missing control_plane_metadata"@,
            },
        ),
        Some(metadata) => if metadata.shared_memory_handles.len() == 0 {
            Err(
                StatusView {
                    code: StatusCode::InvalidArgument,
                    message:
                        "missing shared_memory_handles — caller must write datagrams to shm and set the channel name in shared_memory_handles[0]"@,
                },
            )
        } else {
            Ok(
                CallView {
                    metadata,
                    iscope: match req.iscope {
                        Some(scopes) => scopes,
                        None => Seq::empty(),
                    },
                    channel_name: metadata.shared_memory_handles[0],
                    inline: match req.input {
                        Some(datagrams) => datagrams,
                        None => Seq::empty(),
                    },
                    wanted: wanted_count(metadata),
                    reports: single,
                    stage: CallStageView::Opening,
                },
            )
        },
    }
}

/// Starts the call that a request asks for: a single call, whose failures are reported, or
/// one of a stream, where a call that fails is passed over.
fn begin_call(req: InvokeIsolateRequest, single: bool) -> (call: Result<InvokeCall, Status>)
    ensures
        match (call, call_of(req@, single)) {
            (Ok(c), Ok(view)) => c@ == view,
            (Err(status), Err(view)) => status@ == view,
            _ => false,
        },
        call matches Ok(c) ==> req@.metadata == Some(c@.metadata) && c@.reports == single,
{
    let metadata = match req.control_plane_metadata {
        Some(m) => m,
        None => {
            return Err(
                Status::new(StatusCode::InvalidArgument, "missing control_plane_metadata"),
            );
        },
    };
    let iscope = match req.isolate_input_iscope {
        Some(s) => s,
        None => EzPayloadIsolateScope { datagram_iscopes: Vec::new() },
    };
    if metadata.shared_memory_handles.len() == 0 {
        return Err(
            Status::new(
                StatusCode::InvalidArgument,
                "missing shared_memory_handles — caller must write datagrams to shm and set the channel name in shared_memory_handles[0]",
            ),
        );
    }
    let channel_name = metadata.shared_memory_handles[0].clone();
    let inline: Vec<Vec<u8>> = match req.isolate_input {
        Some(d) => d.datagrams,
        None => Vec::new(),
    };
    let wanted: usize = match read_count(&metadata.metadata_headers) {
        Some(n) => n,
        None => 0,
    };
    let call = InvokeCall {
        metadata,
        iscope,
        channel_name,
        inline,
        wanted,
        reports: single,
        stage: CallStage::Opening,
    };
    proof {
        let want = call_of(req@, single);
        assert(want is Ok);
        assert(call@.iscope =~= want->Ok_0.iscope);
        assert(call@.inline =~= want->Ok_0.inline);
    }
    Ok(call)
}

impl InvokeCall {
    /// Metadata of the request, for the handler.
    pub fn metadata(&self) -> (metadata: &ControlPlaneMetadata)
        ensures
            metadata@ == self@.metadata,
    {
        &self.metadata
    }

    /// Scopes of the request, for the handler.
    pub fn iscope(&self) -> (iscope: &EzPayloadIsolateScope)
        ensures
            scopes_view(iscope.datagram_iscopes@) == self@.iscope,
    {
        &self.iscope
    }

    /// The channel that the datagrams travel through.
    pub fn channel_name(&self) -> (name: &str)
        ensures
            name@ == self@.channel_name,
    {
        self.channel_name.as_str()
    }

    /// What a failure comes to.
    fn fail(&self, code: StatusCode, what: &str, reason: &str) -> (step: CallStep)
        ensures
            step@ == failure(self@.reports, code, what@ + reason@),
    {
        if self.reports {
            CallStep::Fail(Status::because(code, what, reason))
        } else {
            CallStep::Skip
        }
    }

    /// The call after an event, and what to do next.
    pub fn step(self, event: CallEvent) -> (next: (InvokeCall, CallStep))
        ensures
            (next.0@, next.1@) == call_step(self@, event@),
            next.0@.metadata == self@.metadata,
            next.0@.iscope == self@.iscope,
            next.0@.channel_name == self@.channel_name,
            next.0@.wanted == self@.wanted,
            next.0@.reports == self@.reports,
    {
        let InvokeCall { metadata, iscope, channel_name, inline, wanted, reports, stage } = self;
        let done = InvokeCall {
            metadata,
            iscope,
            channel_name,
            inline,
            wanted,
            reports,
            stage: CallStage::Done,
        };
        match (stage, event) {
            (CallStage::Opening, CallEvent::ChannelReady) => {
                let mut call = done;
                if call.wanted > 0 {
                    call.stage = CallStage::Reading(Vec::new());
                    assert(call@.stage =~= CallStageView::Reading(Seq::empty()));
                    (call, CallStep::Receive)
                } else {
                    let mut datagrams: Vec<Vec<u8>> = Vec::new();
                    std::mem::swap(&mut datagrams, &mut call.inline);
                    call.stage = CallStage::Handling;
                    assert(call@.inline =~= Seq::empty());
                    (call, CallStep::Handle(datagrams))
                }
            },
            (CallStage::Opening, CallEvent::ChannelFailed(e)) => {
                let step = done.fail(
                    StatusCode::Internal,
                    "failed to create shm channel: ",
                    e.as_str(),
                );
                (done, step)
            },
            (CallStage::Reading(mut got), CallEvent::Received(frame)) => {
                let ghost read = datagrams_view(got@);
                let mut call = done;
                got.push(frame.payload);
                assert(datagrams_view(got@) =~= read.push(frame@.payload));
                if got.len() < call.wanted {
                    call.stage = CallStage::Reading(got);
                    (call, CallStep::Receive)
                } else {
                    call.stage = CallStage::Handling;
                    (call, CallStep::Handle(got))
                }
            },
            (CallStage::Reading(_), CallEvent::RecvFailed(e)) => {
                let step = done.fail(
                    StatusCode::DeadlineExceeded,
                    "failed to read datagram from shm: ",
                    e.as_str(),
                );
                (done, step)
            },
            (CallStage::Handling, CallEvent::Handled(datagrams)) => {
                let count: usize = datagrams.len();
                if count == 0 {
                    let response = build_response(
                        done.metadata.ipc_message_id,
                        done.channel_name.clone(),
                        0,
                    );
                    return (done, CallStep::Respond(response));
                }
                let mut frames = write_datagrams(&datagrams);
                let ghost all = frames_view(frames@);
                let frame = frames.remove(0);
                let mut call = done;
                assert(frames_view(frames@) =~= all.drop_first());
                call.stage = CallStage::Writing { rest: frames, count };
                (call, CallStep::Send(frame))
            },
            (CallStage::Writing { mut rest, count }, CallEvent::Sent) => {
                if rest.len() == 0 {
                    let response = build_response(
                        done.metadata.ipc_message_id,
                        done.channel_name.clone(),
                        count,
                    );
                    return (done, CallStep::Respond(response));
                }
                let ghost all = frames_view(rest@);
                let frame = rest.remove(0);
                let mut call = done;
                assert(frames_view(rest@) =~= all.drop_first());
                call.stage = CallStage::Writing { rest, count };
                (call, CallStep::Send(frame))
            },
            (CallStage::Writing { rest: _, count: _ }, CallEvent::SendFailed(e)) => {
                let step = done.fail(
                    StatusCode::Internal,
                    "failed to write datagram to shm: ",
                    e.as_str(),
                );
                (done, step)
            },
            (stage, _) => {
                let mut call = done;
                call.stage = stage;
                (call, CallStep::Ignore)
            },
        }
    }
}

/// The call after frames were received one after the other, and what is asked for then.
pub open spec fn after_frames(call: CallView, frames: Seq<FrameView>) -> (CallView, CallStepView)
    decreases frames.len(),
{
    if frames.len() == 0 {
        (call, CallStepView::Receive)
    } else {
        call_step(
            after_frames(call, frames.drop_last()).0,
            CallEventView::Received(frames.last()),
        )
    }
}

/// While a call reads, frames add their payloads in order.
proof fn lemma_reading(call: CallView, frames: Seq<FrameView>)
    requires
        call.stage == CallStageView::Reading(Seq::empty()),
        frames.len() < call.wanted,
    ensures
        after_frames(call, frames) == (
            CallView { stage: CallStageView::Reading(payloads(frames)), ..call },
            CallStepView::Receive,
        ),
    decreases frames.len(),
{
    if frames.len() == 0 {
        assert(payloads(frames) =~= Seq::empty());
        assert(CallView { stage: CallStageView::Reading(payloads(frames)), ..call } == call);
    } else {
        lemma_reading(call, frames.drop_last());
        assert(payloads(frames.drop_last()).push(frames.last().payload) =~= payloads(frames));
    }
}

/// The handler gets the payloads of the frames, in the order in which they were received,
/// as soon as as many were received as the call wants, and not before.
pub proof fn law_call_reads(call: CallView, frames: Seq<FrameView>)
    requires
        call.stage == CallStageView::Opening,
        0 < frames.len() <= call.wanted,
    ensures
        after_frames(call_step(call, CallEventView::ChannelReady).0, frames).1 == if frames.len()
            == call.wanted {
            CallStepView::Handle(payloads(frames))
        } else {
            CallStepView::Receive
        },
{
    let reading = call_step(call, CallEventView::ChannelReady).0;
    if frames.len() < call.wanted {
        lemma_reading(reading, frames);
    } else {
        lemma_reading(reading, frames.drop_last());
        assert(payloads(frames.drop_last()).push(frames.last().payload) =~= payloads(frames));
    }
}

/// Datagrams that came with the request itself are used directly: without an announced count,
/// or with a count of none, the handler gets them as soon as the channel is open.
pub proof fn law_inline_datagrams_are_handled(req: RequestView, single: bool)
    requires
        req.metadata is Some,
        req.metadata.unwrap().shared_memory_handles.len() > 0,
        announced_count(req.metadata.unwrap().metadata_headers) is None || announced_count(
            req.metadata.unwrap().metadata_headers,
        ) == Some(0usize),
    ensures
        call_of(req, single) matches Ok(call) && call_step(call, CallEventView::ChannelReady).1
            == CallStepView::Handle(
            match req.input {
                Some(datagrams) => datagrams,
                None => Seq::empty(),
            },
        ),
{
}

/// The call after `n` more frames were sent, and what is asked for then.
pub open spec fn after_sends(call: CallView, n: nat) -> (CallView, CallStepView)
    decreases n,
{
    if n == 0 {
        (call, CallStepView::Ignore)
    } else {
        call_step(after_sends(call, (n - 1) as nat).0, CallEventView::Sent)
    }
}

/// While a call writes, the remaining frames leave from the front.
proof fn lemma_writing(call: CallView, rest: Seq<FrameView>, count: nat, n: nat)
    requires
        call.stage == (CallStageView::Writing { rest, count }),
        n <= rest.len(),
    ensures
        after_sends(call, n).0 == (CallView {
            stage: CallStageView::Writing { rest: rest.skip(n as int), count },
            ..call
        }),
        n > 0 ==> after_sends(call, n).1 == CallStepView::Send(rest[n - 1]),
    decreases n,
{
    if n == 0 {
        assert(rest.skip(0) =~= rest);
    } else {
        lemma_writing(call, rest, count, (n - 1) as nat);
        assert(rest.skip(n - 1).drop_first() =~= rest.skip(n as int));
    }
}

/// What the handler answers goes out as frames, one for each datagram and in order, and once
/// the last one was sent the call is answered with their number.
pub proof fn law_call_writes(call: CallView, datagrams: Seq<Seq<u8>>, n: nat)
    requires
        call.stage == CallStageView::Handling,
        n <= datagrams.len(),
    ensures
        ({
            let (handled, first) = call_step(call, CallEventView::Handled(datagrams));
            let step = if n == 0 {
                first
            } else {
                after_sends(handled, n).1
            };
            step == if n < datagrams.len() {
                CallStepView::Send(datagram_frame(datagrams[n as int], n, datagrams.len()))
            } else {
                CallStepView::Respond(
                    response_to(
                        call.metadata.ipc_message_id,
                        call.channel_name,
                        datagrams.len(),
                    ),
                )
            }
        }),
{
    let (handled, _) = call_step(call, CallEventView::Handled(datagrams));
    let frames = datagram_frames(datagrams);
    if n > 0 {
        let rest = frames.drop_first();
        if n < datagrams.len() {
            lemma_writing(handled, rest, datagrams.len(), n);
            assert(rest[n - 1] == frames[n as int]);
        } else {
            lemma_writing(handled, rest, datagrams.len(), (n - 1) as nat);
            assert(rest.skip(n - 1).len() == 0);
        }
    }
}

/// A call that is over stays so, whatever happens: it is answered, failed or passed over at
/// most once.
pub proof fn law_call_ends(call: CallView, event: CallEventView)
    ensures
        call.stage is Done ==> call_step(call, event) == (call, CallStepView::Ignore),
        call_step(call, event).1 is Respond || call_step(call, event).1 is Fail || call_step(
            call,
            event,
        ).1 is Skip ==> call_step(call, event).0.stage is Done,
{
}

/// A call of a stream never fails with a status, and a single call is never passed over.
pub proof fn law_call_reports(call: CallView, event: CallEventView)
    ensures
        call_step(call, event).0.reports == call.reports,
        call.reports ==> !(call_step(call, event).1 is Skip),
        !call.reports ==> !(call_step(call, event).1 is Fail),
{
}

// ─── The calling side ────────────────────────────────────────────────────────

/// A request whose datagrams travel through a channel.
pub open spec fn slim_request(
    metadata: MetadataView,
    iscope: Seq<i32>,
    channel_name: Seq<char>,
    count: nat,
) -> RequestView {
    RequestView {
        metadata: Some(
            MetadataView {
                shared_memory_handles: seq![channel_name],
                metadata_headers: metadata.metadata_headers.insert(
                    "x-shm-datagram-count"@,
                    text::decimal(count),
                ),
                ..metadata
            },
        ),
        iscope: Some(iscope),
        input: Some(Seq::empty()),
    }
}

/// How many datagrams a response announces.
pub open spec fn response_count(response: ResponseView) -> usize {
    match response.metadata {
        Some(metadata) => match announced_count(metadata.metadata_headers) {
            Some(n) => n,
            None => 0,
        },
        None => 0,
    }
}

/// Collects the datagrams of a response.
pub struct DatagramReader {
    wanted: usize,
    datagrams: Vec<Vec<u8>>,
}

impl DatagramReader {
    /// How many datagrams there are to be.
    pub closed spec fn total(&self) -> usize {
        self.wanted
    }

    /// The datagrams that were read.
    pub closed spec fn read(&self) -> Seq<Seq<u8>> {
        datagrams_view(self.datagrams@)
    }

    pub open spec fn wf(&self) -> bool {
        self.read().len() <= self.total()
    }

    /// Whether all datagrams were read.
    pub fn is_complete(&self) -> (complete: bool)
        requires
            self.wf(),
        ensures
            complete == (self.read().len() == self.total()),
    {
        self.datagrams.len() == self.wanted
    }

    /// Takes the next frame.
    pub fn take_frame(&mut self, frame: Frame)
        requires
            old(self).wf(),
            old(self).read().len() < old(self).total(),
        ensures
            final(self).wf(),
            final(self).total() == old(self).total(),
            final(self).read() == old(self).read().push(frame@.payload),
    {
        self.datagrams.push(frame.payload);
        assert(self.read() =~= old(self).read().push(frame@.payload));
    }

    /// The datagrams that were read.
    pub fn into_datagrams(self) -> (datagrams: Vec<Vec<u8>>)
        ensures
            datagrams_view(datagrams@) == self.read(),
    {
        self.datagrams
    }
}

/// Client-side helper: turns datagrams into frames and builds a slim
/// `InvokeIsolateRequest` with only metadata (no inline datagrams).
pub struct EzShmClient {
    channel: ShmChannel,
    channel_name: String,
}

impl EzShmClient {
    /// The channel that the datagrams travel through.
    pub closed spec fn over(&self) -> ShmChannel {
        self.channel
    }

    pub closed spec fn wf(&self) -> bool {
        &&& self.channel.wf()
        &&& self.channel.spec_config().name@ == self.channel_name@
    }

    /// Opens an existing shm channel (created by the server side) over the regions of its
    /// two files.
    pub fn open(
        shm_dir: String,
        channel_name: &str,
        ring_size: usize,
        tx_region: &[u8],
        rx_region: &[u8],
    ) -> (client: EzShmClient)
        requires
            tx_region@.len() >= ring::HEADER_SIZE + 2,
            rx_region@.len() >= ring::HEADER_SIZE + 2,
        ensures
            client.wf(),
            client.over().wf(),
            !client.over().server_side(),
            service::plan_of(client.over().spec_config()) == (service::ChannelPlan {
                shm_dir: shm_dir@,
                name: channel_name@,
                ring_size,
            }),
            client.over().tx().cap() == ring::floor_pow2(
                (tx_region@.len() - ring::HEADER_SIZE) as nat,
            ),
            client.over().rx().cap() == ring::floor_pow2(
                (rx_region@.len() - ring::HEADER_SIZE) as nat,
            ),
    {
        let config = ChannelConfig { shm_dir, name: channel_name.to_owned(), ring_size };
        let channel = ShmChannel::open(config, tx_region, rx_region);
        EzShmClient { channel, channel_name: channel_name.to_owned() }
    }

    /// The channel that the datagrams travel through.
    pub fn channel(&self) -> (channel: &ShmChannel)
        ensures
            *channel == self.over(),
    {
        &self.channel
    }

    /// The frames to write to shm, and the request with only control-plane data.
    pub fn prepare_invoke(
        &self,
        metadata: ControlPlaneMetadata,
        iscope: EzPayloadIsolateScope,
        datagrams: Vec<Vec<u8>>,
    ) -> (prepared: (Vec<Frame>, InvokeIsolateRequest))
        requires
            self.wf(),
        ensures
            frames_view(prepared.0@) == datagram_frames(datagrams_view(datagrams@)),
            prepared.1@ == slim_request(
                metadata@,
                scopes_view(iscope.datagram_iscopes@),
                self.over().spec_config().name@,
                datagrams@.len(),
            ),
    {
        let count: usize = datagrams.len();
        let frames = write_datagrams(&datagrams);
        let ghost given = metadata@;
        let ghost scopes = scopes_view(iscope.datagram_iscopes@);
        let mut md = metadata;
        let mut handles: Vec<String> = Vec::new();
        proof {
            text::lemma_texts_push(handles@, self.channel_name);
        }
        handles.push(self.channel_name.clone());
        md.shared_memory_handles = handles;
        announce_count(&mut md.metadata_headers, count);
        let request = InvokeIsolateRequest {
            control_plane_metadata: Some(md),
            isolate_input_iscope: Some(iscope),
            isolate_input: Some(EzPayloadData { datagrams: Vec::new() }),
        };
        proof {
            let want = slim_request(given, scopes, self.channel_name@, count as nat);
            assert(request@.metadata.unwrap().shared_memory_handles =~= seq![self.channel_name@]);
            assert(request@.metadata.unwrap() =~= want.metadata.unwrap());
            assert(request@.input.unwrap() =~= Seq::empty());
        }
        (frames, request)
    }

    /// A reader for the response datagrams in shm, after getting the gRPC response.
    pub fn read_response(&self, response: &InvokeIsolateResponse) -> (reader: DatagramReader)
        ensures
            reader.wf(),
            reader.total() == response_count(response@),
            reader.read() == Seq::<Seq<u8>>::empty(),
    {
        let wanted: usize = match &response.control_plane_metadata {
            Some(metadata) => match read_count(&metadata.metadata_headers) {
                Some(n) => n,
                None => 0,
            },
            None => 0,
        };
        let reader = DatagramReader { wanted, datagrams: Vec::new() };
        assert(reader.read() =~= Seq::empty());
        reader
    }
}

/// What a caller sends is what the handler gets: a slim request starts a call on the caller's
/// channel, and once the frames for the datagrams were received, the handler is run on the
/// datagrams, unchanged and in order.
pub proof fn law_invoke_delivers(
    metadata: MetadataView,
    iscope: Seq<i32>,
    channel_name: Seq<char>,
    datagrams: Seq<Seq<u8>>,
    single: bool,
)
    requires
        datagrams.len() <= usize::MAX,
    ensures
        call_of(slim_request(metadata, iscope, channel_name, datagrams.len()), single) is Ok,
        ({
            let call = call_of(
                slim_request(metadata, iscope, channel_name, datagrams.len()),
                single,
            )->Ok_0;
            let (ready, first) = call_step(call, CallEventView::ChannelReady);
            &&& call.channel_name == channel_name
            &&& call.iscope == iscope
            &&& call.metadata.ipc_message_id == metadata.ipc_message_id
            &&& if datagrams.len() == 0 {
                first == CallStepView::Handle(datagrams)
            } else {
                &&& first == CallStepView::Receive
                &&& after_frames(ready, datagram_frames(datagrams)).1 == CallStepView::Handle(
                    datagrams,
                )
            }
        }),
{
    let count = datagrams.len() as usize;
    law_count_round_trip(metadata.metadata_headers, count);
    let request = slim_request(metadata, iscope, channel_name, datagrams.len());
    assert(call_of(request, single) is Ok);
    let call = call_of(request, single)->Ok_0;
    assert(call.wanted == count);
    if datagrams.len() == 0 {
        assert(datagrams =~= Seq::empty());
    } else {
        law_call_reads(call, datagram_frames(datagrams));
        law_datagrams_round_trip(datagrams);
    }
}

/// What the handler answers is what the caller reads: the response announces as many
/// datagrams as were written, under the caller's message id and channel, and the payloads of
/// the written frames are those datagrams.
pub proof fn law_response_delivers(
    ipc_message_id: u64,
    channel_name: Seq<char>,
    datagrams: Seq<Seq<u8>>,
)
    requires
        datagrams.len() <= usize::MAX,
    ensures
        ({
            let response = response_to(ipc_message_id, channel_name, datagrams.len());
            &&& response_count(response) == datagrams.len()
            &&& payloads(datagram_frames(datagrams)) == datagrams
            &&& response.metadata matches Some(m) && m.ipc_message_id == ipc_message_id
                && m.shared_memory_handles == seq![channel_name]
        }),
{
    law_count_round_trip(Map::empty(), datagrams.len() as usize);
    law_datagrams_round_trip(datagrams);
}

/// Datagrams cross a channel unchanged and in order: the messages of their frames, sent one
/// after the other over an empty ring and then taken from it, decode to frames whose payloads
/// are the datagrams. A frame takes fourteen bytes more than its datagram, and this speaks of
/// frames that take less than 2^32 bytes.
pub proof fn law_datagrams_cross_channel(
    ring: RingBuf,
    sending: Seq<Seq<u8>>,
    receiving: Seq<Seq<u8>>,
    datagrams: Seq<Seq<u8>>,
    found: Seq<Seq<u8>>,
)
    requires
        ring::pushed_one_by_one(
            ring,
            sending,
            channel::frame_messages(datagram_frames(datagrams)),
        ),
        ring::popped_one_by_one(ring, receiving, found),
        ring.holds(sending[0], Seq::empty()),
        receiving[0] == sending.last(),
        found.len() == datagrams.len(),
        forall|i: int|
            0 <= i < datagrams.len() ==> 14 + (#[trigger] datagrams[i]).len() < 0x1_0000_0000,
    ensures
        forall|i: int|
            0 <= i < datagrams.len() ==> {
                &&& protocol::decoded_frame(#[trigger] found[i]) matches Ok(frame)
                &&& frame.payload == datagrams[i]
            },
        ring.holds(receiving.last(), Seq::empty()),
{
    let frames = datagram_frames(datagrams);
    law_datagrams_round_trip(datagrams);
    assert forall|i: int| 0 <= i < frames.len() implies (#[trigger] frames[i]).transmissible()
        && frames[i].encoded().len() < 0x1_0000_0000 by {
        assert(14 + datagrams[i].len() < 0x1_0000_0000);
        protocol::law_frame_overhead(frames[i]);
        assert(protocol::headers_size(frames[i].headers) == 0);
    }
    channel::law_frames_are_delivered(ring, sending, receiving, frames, found);
    assert forall|i: int| 0 <= i < datagrams.len() implies ({
        &&& protocol::decoded_frame(#[trigger] found[i]) matches Ok(frame)
        &&& frame.payload == datagrams[i]
    }) by {
        assert(protocol::decoded_frame(found[i]) == Ok::<FrameView, protocol::ProtocolError>(
            frames[i],
        ));
    }
}

// ─── What a call carries, and what it does ───────────────────────────────────

/// A request starts a call exactly if it has metadata that names a channel; a request that does
/// not is refused with the reason. The call carries the request's metadata in every field, its
/// scopes and its datagrams, uses the first channel that is named, and wants as many datagrams as
/// the headers announce.
pub proof fn law_request_starts_call(req: RequestView, single: bool)
    ensures
        call_of(req, single) is Ok <==> req.metadata is Some
            && req.metadata.unwrap().shared_memory_handles.len() > 0,
        req.metadata is None ==> call_of(req, single) == Err::<CallView, StatusView>(
            StatusView {
                code: StatusCode::InvalidArgument,
                message: "missing control_plane_metadata"@,
            },
        ),
        req.metadata matches Some(m) ==> m.shared_memory_handles.len() == 0 ==> call_of(
            req,
            single,
        ) == Err::<CallView, StatusView>(
            StatusView {
                code: StatusCode::InvalidArgument,
                message:
                    "missing shared_memory_handles — caller must write datagrams to shm and set the channel name in shared_memory_handles[0]"@,
            },
        ),
        (req.metadata, call_of(req, single)) matches (Some(m), Ok(call)) ==> {
            &&& call.metadata.ipc_message_id == m.ipc_message_id
            &&& call.metadata.requester_spiffe == m.requester_spiffe
            &&& call.metadata.destination_service_name == m.destination_service_name
            &&& call.metadata.destination_method_name == m.destination_method_name
            &&& call.metadata.shared_memory_handles == m.shared_memory_handles
            &&& call.metadata.metadata_headers == m.metadata_headers
            &&& call.channel_name == m.shared_memory_handles[0]
            &&& req.iscope is Some ==> req.iscope == Some(call.iscope)
            &&& req.iscope is None ==> call.iscope.len() == 0
            &&& req.input is Some ==> req.input == Some(call.inline)
            &&& req.input is None ==> call.inline.len() == 0
            &&& call.reports == single
            &&& call.stage is Opening
            &&& !m.metadata_headers.contains_key("x-shm-datagram-count"@) ==> call.wanted == 0
            &&& m.metadata_headers.contains_key("x-shm-datagram-count"@) ==> match text::usize_of(
                m.metadata_headers["x-shm-datagram-count"@],
            ) {
                Some(n) => call.wanted == n,
                None => call.wanted == 0,
            }
        },
{
}

/// The call after events, one after the other.
pub open spec fn after_events(call: CallView, events: Seq<CallEventView>) -> CallView
    decreases events.len(),
{
    if events.len() == 0 {
        call
    } else {
        call_step(after_events(call, events.drop_last()), events.last()).0
    }
}

/// What the handler is given beside the datagrams is what the request says, whatever happened to
/// the call: the metadata in every field and the scopes. The channel, the number of datagrams and
/// whether failures are reported stay the same too.
pub proof fn law_call_carries_request(req: RequestView, single: bool, events: Seq<CallEventView>)
    requires
        call_of(req, single) is Ok,
    ensures
        ({
            let call = after_events(call_of(req, single)->Ok_0, events);
            let m = req.metadata.unwrap();
            &&& call.metadata.ipc_message_id == m.ipc_message_id
            &&& call.metadata.requester_spiffe == m.requester_spiffe
            &&& call.metadata.destination_service_name == m.destination_service_name
            &&& call.metadata.destination_method_name == m.destination_method_name
            &&& call.metadata.shared_memory_handles == m.shared_memory_handles
            &&& call.metadata.metadata_headers == m.metadata_headers
            &&& call.metadata == m
            &&& call.channel_name == m.shared_memory_handles[0]
            &&& req.iscope is Some ==> req.iscope == Some(call.iscope)
            &&& req.iscope is None ==> call.iscope.len() == 0
            &&& call.wanted == call_of(req, single)->Ok_0.wanted
            &&& call.reports == single
        }),
    decreases events.len(),
{
    if events.len() > 0 {
        law_call_carries_request(req, single, events.drop_last());
        law_call_is_kept(
            after_events(call_of(req, single)->Ok_0, events.drop_last()),
            events.last(),
        );
    }
}

/// A step moves a call to another stage and leaves the rest of it as it is; only the datagrams
/// that came with the request leave the call, when the handler gets them.
pub proof fn law_call_is_kept(call: CallView, event: CallEventView)
    ensures
        call_step(call, event).0.metadata == call.metadata,
        call_step(call, event).0.iscope == call.iscope,
        call_step(call, event).0.channel_name == call.channel_name,
        call_step(call, event).0.wanted == call.wanted,
        call_step(call, event).0.reports == call.reports,
        !(call.stage is Opening && event is ChannelReady && call.wanted == 0) ==> call_step(
            call,
            event,
        ).0.inline == call.inline,
{
}

/// What an event comes to at each stage of a call, where nothing fails.
pub proof fn law_call_steps(
    call: CallView,
    frame: FrameView,
    datagrams: Seq<Seq<u8>>,
    got: Seq<Seq<u8>>,
    rest: Seq<FrameView>,
    count: nat,
)
    ensures
        call.stage is Opening && call.wanted > 0 ==> {
            let (next, step) = call_step(call, CallEventView::ChannelReady);
            next.stage == CallStageView::Reading(Seq::empty()) && step is Receive
        },
        call.stage is Opening && call.wanted == 0 ==> {
            let (next, step) = call_step(call, CallEventView::ChannelReady);
            next.stage is Handling && step == CallStepView::Handle(call.inline)
        },
        call.stage == CallStageView::Reading(got) && got.len() + 1 < call.wanted ==> {
            let (next, step) = call_step(call, CallEventView::Received(frame));
            next.stage == CallStageView::Reading(got.push(frame.payload)) && step is Receive
        },
        call.stage == CallStageView::Reading(got) && got.len() + 1 >= call.wanted ==> {
            let (next, step) = call_step(call, CallEventView::Received(frame));
            next.stage is Handling && step == CallStepView::Handle(got.push(frame.payload))
        },
        call.stage is Handling && datagrams.len() == 0 ==> {
            let (next, step) = call_step(call, CallEventView::Handled(datagrams));
            next.stage is Done && step == CallStepView::Respond(
                response_to(call.metadata.ipc_message_id, call.channel_name, 0),
            )
        },
        call.stage is Handling && datagrams.len() > 0 ==> {
            let (next, step) = call_step(call, CallEventView::Handled(datagrams));
            next.stage == (CallStageView::Writing {
                rest: datagram_frames(datagrams).skip(1),
                count: datagrams.len(),
            }) && step == CallStepView::Send(datagram_frames(datagrams)[0])
        },
        call.stage == (CallStageView::Writing { rest, count }) && rest.len() == 0 ==> {
            let (next, step) = call_step(call, CallEventView::Sent);
            next.stage is Done && step == CallStepView::Respond(
                response_to(call.metadata.ipc_message_id, call.channel_name, count),
            )
        },
        call.stage == (CallStageView::Writing { rest, count }) && rest.len() > 0 ==> {
            let (next, step) = call_step(call, CallEventView::Sent);
            next.stage == (CallStageView::Writing { rest: rest.skip(1), count }) && step
                == CallStepView::Send(rest[0])
        },
{
    assert(datagram_frames(datagrams).drop_first() =~= datagram_frames(datagrams).skip(1));
    assert(rest.drop_first() =~= rest.skip(1));
}

/// A failure ends a call: a single call with a status that says what failed and why, a call of a
/// stream in silence. An event that does not belong to the stage of a call leaves it as it is.
pub proof fn law_call_failures(call: CallView, event: CallEventView, e: Seq<char>)
    ensures
        call.stage is Opening ==> {
            let (next, step) = call_step(call, CallEventView::ChannelFailed(e));
            &&& next.stage is Done
            &&& call.reports ==> step == CallStepView::Fail(
                StatusView {
                    code: StatusCode::Internal,
                    message: "failed to create shm channel: "@ + e,
                },
            )
            &&& !call.reports ==> step is Skip
        },
        call.stage is Reading ==> {
            let (next, step) = call_step(call, CallEventView::RecvFailed(e));
            &&& next.stage is Done
            &&& call.reports ==> step == CallStepView::Fail(
                StatusView {
                    code: StatusCode::DeadlineExceeded,
                    message: "failed to read datagram from shm: "@ + e,
                },
            )
            &&& !call.reports ==> step is Skip
        },
        call.stage is Writing ==> {
            let (next, step) = call_step(call, CallEventView::SendFailed(e));
            &&& next.stage is Done
            &&& call.reports ==> step == CallStepView::Fail(
                StatusView {
                    code: StatusCode::Internal,
                    message: "failed to write datagram to shm: "@ + e,
                },
            )
            &&& !call.reports ==> step is Skip
        },
        call_step(call, event).1 is Ignore <==> match call.stage {
            CallStageView::Opening => !(event is ChannelReady) && !(event is ChannelFailed),
            CallStageView::Reading(_) => !(event is Received) && !(event is RecvFailed),
            CallStageView::Handling => !(event is Handled),
            CallStageView::Writing { .. } => !(event is Sent) && !(event is SendFailed),
            CallStageView::Done => true,
        },
        call_step(call, event).1 is Ignore ==> call_step(call, event).0 == call,
{
}

/// A datagram travels as the payload of a frame of version 1 without headers, whose stream id is
/// the number of the datagram, and whose flags are 1 for the last datagram and 0 for the others.
pub proof fn law_datagram_frame(datagrams: Seq<Seq<u8>>, i: int)
    requires
        0 <= i < datagrams.len(),
    ensures
        datagram_frames(datagrams).len() == datagrams.len(),
        ({
            let frame = datagram_frames(datagrams)[i];
            &&& frame == datagram_frame(datagrams[i], i as nat, datagrams.len())
            &&& frame.version == 1
            &&& frame.flags == if i == datagrams.len() - 1 {
                1
            } else {
                0int
            }
            &&& i < 0x1_0000_0000 ==> frame.stream_id == i
            &&& frame.stream_id == i % 0x1_0000_0000
            &&& frame.headers.len() == 0
            &&& frame.payload == datagrams[i]
        }),
{
}

/// The answer to a call, written out: the id of the call, the channel as the only handle, the
/// number of datagrams as the only header, no scopes and no datagrams, and the status `ok`.
pub proof fn law_response_written_out(ipc_message_id: u64, channel_name: Seq<char>, count: nat)
    ensures
        response_to(ipc_message_id, channel_name, count) == (ResponseView {
            metadata: Some(
                MetadataView {
                    ipc_message_id,
                    requester_spiffe: Seq::empty(),
                    destination_service_name: Seq::empty(),
                    destination_method_name: Seq::empty(),
                    shared_memory_handles: seq![channel_name],
                    metadata_headers: map!["x-shm-datagram-count"@ => text::decimal(count)],
                },
            ),
            iscope: Some(Seq::empty()),
            output: Some(Seq::empty()),
            status: Some((0i32, "ok"@)),
        }),
{
    assert(response_to(ipc_message_id, channel_name, count).metadata.unwrap().metadata_headers
        =~= map!["x-shm-datagram-count"@ => text::decimal(count)]);
}

/// The request that a caller sends, written out: the caller's metadata with the channel as the
/// only handle and the number of datagrams among the headers, the caller's scopes, and no
/// datagrams.
pub proof fn law_request_written_out(
    metadata: MetadataView,
    iscope: Seq<i32>,
    channel_name: Seq<char>,
    count: nat,
    header: Seq<char>,
)
    ensures
        ({
            let req = slim_request(metadata, iscope, channel_name, count);
            &&& req.iscope == Some(iscope)
            &&& req.input == Some(Seq::<Seq<u8>>::empty())
            &&& req.metadata matches Some(m)
            &&& m.ipc_message_id == metadata.ipc_message_id
            &&& m.requester_spiffe == metadata.requester_spiffe
            &&& m.destination_service_name == metadata.destination_service_name
            &&& m.destination_method_name == metadata.destination_method_name
            &&& m.shared_memory_handles == seq![channel_name]
            &&& m.metadata_headers.contains_key("x-shm-datagram-count"@)
            &&& m.metadata_headers["x-shm-datagram-count"@] == text::decimal(count)
            &&& header != "x-shm-datagram-count"@ ==> {
                &&& m.metadata_headers.contains_key(header) <==>
                    metadata.metadata_headers.contains_key(header)
                &&& m.metadata_headers.contains_key(header) ==> m.metadata_headers[header]
                    == metadata.metadata_headers[header]
            }
        }),
{
}

/// A response announces the number that is the text under `x-shm-datagram-count`, and none where
/// it has no metadata, no such header, or no number there.
pub proof fn law_response_count(response: ResponseView)
    ensures
        response.metadata is None ==> response_count(response) == 0,
        response.metadata matches Some(m) ==> {
            &&& !m.metadata_headers.contains_key("x-shm-datagram-count"@) ==> response_count(
                response,
            ) == 0
            &&& m.metadata_headers.contains_key("x-shm-datagram-count"@) ==> match text::usize_of(
                m.metadata_headers["x-shm-datagram-count"@],
            ) {
                Some(n) => response_count(response) == n,
                None => response_count(response) == 0,
            }
        },
{
}

/// A channel is made exactly if it is not open, under the name that was asked for and with the
/// bridge's directory and ring size.
pub proof fn law_bridge_channel<C>(
    bridge: EzIsolateBridgeShm<C>,
    config: Option<ChannelConfig>,
    name: Seq<char>,
    other: Seq<char>,
)
    requires
        bridge.asks_for(config, name),
    ensures
        config is None <==> bridge.open_channels().contains_key(name),
        config matches Some(c) ==> {
            &&& c.name@ == name
            &&& c.shm_dir@ == bridge.plan_for(other).shm_dir
            &&& c.ring_size == bridge.plan_for(other).ring_size
        },
{
}

/// What metadata, requests and responses consist of are their fields.
pub proof fn law_message_fields(
    metadata: ControlPlaneMetadata,
    req: InvokeIsolateRequest,
    response: InvokeIsolateResponse,
    name: Seq<char>,
    i: int,
)
    ensures
        metadata@.ipc_message_id == metadata.ipc_message_id,
        metadata@.requester_spiffe == metadata.requester_spiffe@,
        metadata@.destination_service_name == metadata.destination_service_name@,
        metadata@.destination_method_name == metadata.destination_method_name@,
        metadata@.shared_memory_handles.len() == metadata.shared_memory_handles@.len(),
        0 <= i < metadata.shared_memory_handles@.len() ==> metadata@.shared_memory_handles[i]
            == metadata.shared_memory_handles@[i]@,
        metadata@.metadata_headers.contains_key(name) <==> metadata.metadata_headers@.contains_key(
            name,
        ),
        metadata@.metadata_headers.contains_key(name) ==> metadata@.metadata_headers[name]
            == metadata.metadata_headers@[name]@,
        req@.metadata == match req.control_plane_metadata {
            Some(m) => Some(m@),
            None => None,
        },
        req@.iscope == match req.isolate_input_iscope {
            Some(s) => Some(scopes_view(s.datagram_iscopes@)),
            None => None,
        },
        req@.input == match req.isolate_input {
            Some(d) => Some(datagrams_view(d.datagrams@)),
            None => None,
        },
        response@.metadata == match response.control_plane_metadata {
            Some(m) => Some(m@),
            None => None,
        },
        response@.iscope == match response.isolate_output_iscope {
            Some(s) => Some(scopes_view(s.datagram_iscopes@)),
            None => None,
        },
        response@.output == match response.isolate_output {
            Some(d) => Some(datagrams_view(d.datagrams@)),
            None => None,
        },
        response@.status == match response.status {
            Some(st) => Some((st.code, st.message@)),
            None => None,
        },
{
}

/// Lists are viewed item by item, in order.
pub proof fn law_lists(
    datagrams: Seq<Vec<u8>>,
    scopes: Seq<IsolateDataScope>,
    frames: Seq<Frame>,
    views: Seq<FrameView>,
    i: int,
)
    ensures
        datagrams_view(datagrams).len() == datagrams.len(),
        0 <= i < datagrams.len() ==> datagrams_view(datagrams)[i] == datagrams[i]@,
        scopes_view(scopes).len() == scopes.len(),
        0 <= i < scopes.len() ==> scopes_view(scopes)[i] == scopes[i].scope_type,
        frames_view(frames).len() == frames.len(),
        0 <= i < frames.len() ==> frames_view(frames)[i] == frames[i]@,
        payloads(views).len() == views.len(),
        0 <= i < views.len() ==> payloads(views)[i] == views[i].payload,
{
}

/// What the stages, events and steps of a call consist of are their fields.
pub proof fn law_call_fields(
    datagrams: Vec<Vec<u8>>,
    rest: Vec<Frame>,
    count: usize,
    frame: Frame,
    response: InvokeIsolateResponse,
    status: Status,
    t: String,
)
    ensures
        CallStage::Opening@ is Opening,
        CallStage::Reading(datagrams)@ == CallStageView::Reading(datagrams_view(datagrams@)),
        CallStage::Handling@ is Handling,
        (CallStage::Writing { rest, count })@ == (CallStageView::Writing {
            rest: frames_view(rest@),
            count: count as nat,
        }),
        CallStage::Done@ is Done,
        CallEvent::ChannelReady@ is ChannelReady,
        CallEvent::ChannelFailed(t)@ == CallEventView::ChannelFailed(t@),
        CallEvent::Received(frame)@ == CallEventView::Received(frame@),
        CallEvent::RecvFailed(t)@ == CallEventView::RecvFailed(t@),
        CallEvent::Handled(datagrams)@ == CallEventView::Handled(datagrams_view(datagrams@)),
        CallEvent::Sent@ is Sent,
        CallEvent::SendFailed(t)@ == CallEventView::SendFailed(t@),
        CallStep::Receive@ is Receive,
        CallStep::Handle(datagrams)@ == CallStepView::Handle(datagrams_view(datagrams@)),
        CallStep::Send(frame)@ == CallStepView::Send(frame@),
        CallStep::Respond(response)@ == CallStepView::Respond(response@),
        CallStep::Fail(status)@ == CallStepView::Fail(status@),
        CallStep::Skip@ is Skip,
        CallStep::Ignore@ is Ignore,
{
}

/// Metadata with nothing in it has an id of 0, empty texts, no handles and no headers.
pub proof fn law_empty_metadata()
    ensures
        empty_metadata() == (MetadataView {
            ipc_message_id: 0,
            requester_spiffe: Seq::empty(),
            destination_service_name: Seq::empty(),
            destination_method_name: Seq::empty(),
            shared_memory_handles: Seq::empty(),
            metadata_headers: Map::empty(),
        }),
{
}

// ─── What the operations do ──────────────────────────────────────────────────

/// The handler of a single call gets the metadata of the request in every field, and its scopes;
/// the call uses the first channel that is named, which is to be made exactly if it is not open.
pub proof fn law_invoke_isolate<C>(
    bridge: EzIsolateBridgeShm<C>,
    req: InvokeIsolateRequest,
    call: InvokeCall,
    config: Option<ChannelConfig>,
    given: ControlPlaneMetadata,
    metadata: &ControlPlaneMetadata,
    channel_name: &str,
    header: Seq<char>,
    i: int,
)
    requires
        call_ensures(
            EzIsolateBridgeShm::<C>::invoke_isolate,
            (&bridge, req),
            Ok::<(InvokeCall, Option<ChannelConfig>), Status>((call, config)),
        ),
        call_ensures(InvokeCall::metadata, (&call,), metadata),
        call_ensures(InvokeCall::channel_name, (&call,), channel_name),
        req.control_plane_metadata == Some(given),
    ensures
        metadata.ipc_message_id == given.ipc_message_id,
        metadata.requester_spiffe@ == given.requester_spiffe@,
        metadata.destination_service_name@ == given.destination_service_name@,
        metadata.destination_method_name@ == given.destination_method_name@,
        metadata.shared_memory_handles@.len() == given.shared_memory_handles@.len(),
        0 <= i < given.shared_memory_handles@.len() ==> metadata.shared_memory_handles@[i]@
            == given.shared_memory_handles@[i]@,
        metadata.metadata_headers@.contains_key(header)
            <==> given.metadata_headers@.contains_key(header),
        given.metadata_headers@.contains_key(header) ==> metadata.metadata_headers@[header]@
            == given.metadata_headers@[header]@,
        given.shared_memory_handles@.len() > 0,
        channel_name@ == given.shared_memory_handles@[0]@,
        config is None <==> bridge.open_channels().contains_key(channel_name@),
        config matches Some(c) ==> c.name@ == channel_name@,
        call@.reports,
        call@.stage is Opening,
{
    assert(req@.metadata == Some(given@));
    lemma_same_metadata(*metadata, given, header, i);
    lemma_same_metadata(*metadata, given, header, 0);
}

/// The handler of a call of a stream gets the metadata of the request in every field too.
pub proof fn law_stream_invoke_isolate<C>(
    bridge: EzIsolateBridgeShm<C>,
    req: InvokeIsolateRequest,
    call: InvokeCall,
    config: Option<ChannelConfig>,
    given: ControlPlaneMetadata,
    metadata: &ControlPlaneMetadata,
    channel_name: &str,
    header: Seq<char>,
    i: int,
)
    requires
        call_ensures(
            EzIsolateBridgeShm::<C>::stream_invoke_isolate,
            (&bridge, req),
            Some((call, config)),
        ),
        call_ensures(InvokeCall::metadata, (&call,), metadata),
        call_ensures(InvokeCall::channel_name, (&call,), channel_name),
        req.control_plane_metadata == Some(given),
    ensures
        metadata.ipc_message_id == given.ipc_message_id,
        metadata.requester_spiffe@ == given.requester_spiffe@,
        metadata.destination_service_name@ == given.destination_service_name@,
        metadata.destination_method_name@ == given.destination_method_name@,
        metadata.shared_memory_handles@.len() == given.shared_memory_handles@.len(),
        0 <= i < given.shared_memory_handles@.len() ==> metadata.shared_memory_handles@[i]@
            == given.shared_memory_handles@[i]@,
        metadata.metadata_headers@.contains_key(header)
            <==> given.metadata_headers@.contains_key(header),
        given.metadata_headers@.contains_key(header) ==> metadata.metadata_headers@[header]@
            == given.metadata_headers@[header]@,
        given.shared_memory_handles@.len() > 0,
        channel_name@ == given.shared_memory_handles@[0]@,
        config is None <==> bridge.open_channels().contains_key(channel_name@),
        config matches Some(c) ==> c.name@ == channel_name@,
        !call@.reports,
        call@.stage is Opening,
{
    assert(req@.metadata == Some(given@));
    lemma_same_metadata(*metadata, given, header, i);
    lemma_same_metadata(*metadata, given, header, 0);
}

/// Metadata that consists of the same is the same in every field.
proof fn lemma_same_metadata(
    metadata: ControlPlaneMetadata,
    given: ControlPlaneMetadata,
    header: Seq<char>,
    i: int,
)
    requires
        metadata@ == given@,
    ensures
        metadata.ipc_message_id == given.ipc_message_id,
        metadata.requester_spiffe@ == given.requester_spiffe@,
        metadata.destination_service_name@ == given.destination_service_name@,
        metadata.destination_method_name@ == given.destination_method_name@,
        metadata.shared_memory_handles@.len() == given.shared_memory_handles@.len(),
        0 <= i < given.shared_memory_handles@.len() ==> metadata.shared_memory_handles@[i]@
            == given.shared_memory_handles@[i]@,
        metadata.metadata_headers@.contains_key(header)
            <==> given.metadata_headers@.contains_key(header),
        given.metadata_headers@.contains_key(header) ==> metadata.metadata_headers@[header]@
            == given.metadata_headers@[header]@,
{
    let handles = text::texts(metadata.shared_memory_handles@);
    let given_handles = text::texts(given.shared_memory_handles@);
    assert(handles == given_handles);
    assert(handles.len() == metadata.shared_memory_handles@.len());
    if 0 <= i < given.shared_memory_handles@.len() {
        assert(handles[i] == given_handles[i]);
    }
    let headers = header_texts(metadata.metadata_headers@);
    let given_headers = header_texts(given.metadata_headers@);
    assert(headers == given_headers);
    assert(headers.contains_key(header) == metadata.metadata_headers@.contains_key(header));
    assert(given_headers.contains_key(header) == given.metadata_headers@.contains_key(header));
    if given.metadata_headers@.contains_key(header) {
        assert(headers[header] == given_headers[header]);
    }
}

/// The handler gets the same metadata and the same scopes after any step of a call, and the call
/// stays on its channel.
pub proof fn law_step_keeps_metadata(
    call: InvokeCall,
    event: CallEvent,
    next: (InvokeCall, CallStep),
    given: &ControlPlaneMetadata,
    metadata: &ControlPlaneMetadata,
    given_scopes: &EzPayloadIsolateScope,
    scopes: &EzPayloadIsolateScope,
    given_name: &str,
    name: &str,
    header: Seq<char>,
    i: int,
)
    requires
        call_ensures(InvokeCall::step, (call, event), next),
        call_ensures(InvokeCall::metadata, (&call,), given),
        call_ensures(InvokeCall::metadata, (&next.0,), metadata),
        call_ensures(InvokeCall::iscope, (&call,), given_scopes),
        call_ensures(InvokeCall::iscope, (&next.0,), scopes),
        call_ensures(InvokeCall::channel_name, (&call,), given_name),
        call_ensures(InvokeCall::channel_name, (&next.0,), name),
    ensures
        metadata.ipc_message_id == given.ipc_message_id,
        metadata.requester_spiffe@ == given.requester_spiffe@,
        metadata.destination_service_name@ == given.destination_service_name@,
        metadata.destination_method_name@ == given.destination_method_name@,
        metadata.shared_memory_handles@.len() == given.shared_memory_handles@.len(),
        0 <= i < given.shared_memory_handles@.len() ==> metadata.shared_memory_handles@[i]@
            == given.shared_memory_handles@[i]@,
        metadata.metadata_headers@.contains_key(header)
            <==> given.metadata_headers@.contains_key(header),
        given.metadata_headers@.contains_key(header) ==> metadata.metadata_headers@[header]@
            == given.metadata_headers@[header]@,
        scopes.datagram_iscopes@.len() == given_scopes.datagram_iscopes@.len(),
        0 <= i < scopes.datagram_iscopes@.len() ==> scopes.datagram_iscopes@[i].scope_type
            == given_scopes.datagram_iscopes@[i].scope_type,
        name@ == given_name@,
{
    lemma_same_metadata(*metadata, *given, header, i);
    let a = scopes_view(scopes.datagram_iscopes@);
    let b = scopes_view(given_scopes.datagram_iscopes@);
    assert(a == b);
    assert(a.len() == b.len());
    if 0 <= i < a.len() {
        assert(a[i] == b[i]);
    }
}

/// The scopes that the handler gets are those of the request, and none where it has none.
pub proof fn law_scopes_are_handed_on<C>(
    bridge: EzIsolateBridgeShm<C>,
    req: InvokeIsolateRequest,
    call: InvokeCall,
    config: Option<ChannelConfig>,
    scopes: &EzPayloadIsolateScope,
    i: int,
)
    requires
        call_ensures(
            EzIsolateBridgeShm::<C>::invoke_isolate,
            (&bridge, req),
            Ok::<(InvokeCall, Option<ChannelConfig>), Status>((call, config)),
        ) || call_ensures(
            EzIsolateBridgeShm::<C>::stream_invoke_isolate,
            (&bridge, req),
            Some((call, config)),
        ),
        call_ensures(InvokeCall::iscope, (&call,), scopes),
    ensures
        req.isolate_input_iscope is None ==> scopes.datagram_iscopes@.len() == 0,
        req.isolate_input_iscope matches Some(given) ==> {
            &&& scopes.datagram_iscopes@.len() == given.datagram_iscopes@.len()
            &&& 0 <= i < given.datagram_iscopes@.len() ==> scopes.datagram_iscopes@[i].scope_type
                == given.datagram_iscopes@[i].scope_type
        },
{
    let a = scopes_view(scopes.datagram_iscopes@);
    match req.isolate_input_iscope {
        Some(given) => {
            let b = scopes_view(given.datagram_iscopes@);
            assert(a == b);
            assert(a.len() == b.len());
            if 0 <= i < b.len() {
                assert(a[i] == b[i]);
            }
        },
        None => {
            assert(a.len() == 0);
        },
    }
}

/// A request is refused exactly if it has no metadata or names no channel, with a status that says
/// which; a message of a stream is passed over then.
pub proof fn law_request_is_refused<C>(
    bridge: EzIsolateBridgeShm<C>,
    req: InvokeIsolateRequest,
    started: Result<(InvokeCall, Option<ChannelConfig>), Status>,
    streamed: Option<(InvokeCall, Option<ChannelConfig>)>,
)
    requires
        call_ensures(EzIsolateBridgeShm::<C>::invoke_isolate, (&bridge, req), started),
        call_ensures(EzIsolateBridgeShm::<C>::stream_invoke_isolate, (&bridge, req), streamed),
    ensures
        req.control_plane_metadata is None ==> streamed is None && (
        started matches Err(status) && status.code is InvalidArgument && status.message@
            == "missing control_plane_metadata"@),
        req.control_plane_metadata matches Some(m) ==> m.shared_memory_handles@.len() == 0
            ==> streamed is None && (started matches Err(status) && status.code is InvalidArgument
            && status.message@
            == "missing shared_memory_handles — caller must write datagrams to shm and set the channel name in shared_memory_handles[0]"@),
        req.control_plane_metadata matches Some(m) ==> m.shared_memory_handles@.len() > 0
            ==> started is Ok && streamed is Some,
{
    law_request_starts_call(req@, true);
    law_request_starts_call(req@, false);
}

/// Datagrams that came with the request go to the handler as they are once the channel is open,
/// unless the headers announce that datagrams are in the channel.
pub proof fn law_first_step<C>(
    bridge: EzIsolateBridgeShm<C>,
    req: InvokeIsolateRequest,
    call: InvokeCall,
    config: Option<ChannelConfig>,
    next: (InvokeCall, CallStep),
    given: ControlPlaneMetadata,
    count: Option<usize>,
)
    requires
        call_ensures(
            EzIsolateBridgeShm::<C>::invoke_isolate,
            (&bridge, req),
            Ok::<(InvokeCall, Option<ChannelConfig>), Status>((call, config)),
        ) || call_ensures(
            EzIsolateBridgeShm::<C>::stream_invoke_isolate,
            (&bridge, req),
            Some((call, config)),
        ),
        call_ensures(InvokeCall::step, (call, CallEvent::ChannelReady), next),
        call_ensures(read_count, (&given.metadata_headers,), count),
        req.control_plane_metadata == Some(given),
    ensures
        count is None || count == Some(0usize) ==> (next.1 matches CallStep::Handle(datagrams) && (
        req.isolate_input matches Some(inline) ==> datagrams_view(datagrams@) == datagrams_view(
            inline.datagrams@,
        )) && (req.isolate_input is None ==> datagrams@.len() == 0)),
        count matches Some(n) ==> n > 0 ==> next.1 is Receive,
{
    assert(req@.metadata == Some(given@));
    law_request_starts_call(req@, true);
    law_request_starts_call(req@, false);
    match next.1 {
        CallStep::Handle(datagrams) => {
            assert(datagrams_view(datagrams@).len() == datagrams@.len());
        },
        _ => {},
    }
}

/// The frames for datagrams: one each, in order, the datagram as the payload.
pub proof fn law_write_datagrams(datagrams: Vec<Vec<u8>>, frames: Vec<Frame>, i: int)
    requires
        call_ensures(write_datagrams, (&datagrams,), frames),
        0 <= i < datagrams@.len(),
    ensures
        frames@.len() == datagrams@.len(),
        frames@[i].version == 1,
        frames@[i].flags == 1 <==> i == datagrams@.len() - 1,
        frames@[i].flags == 0 <==> i < datagrams@.len() - 1,
        frames@[i].stream_id == i % 0x1_0000_0000,
        frames@[i].headers@.len() == 0,
        frames@[i].payload@ == datagrams@[i]@,
{
    let views = frames_view(frames@);
    law_datagram_frame(datagrams_view(datagrams@), i);
    assert(views.len() == frames@.len());
    assert(views[i] == frames@[i]@);
    assert(frames@[i]@.headers.len() == frames@[i].headers@.len());
}

/// The count is read from the header `x-shm-datagram-count` and no other.
pub proof fn law_read_count(headers: NameMap<String>, count: Option<usize>)
    requires
        call_ensures(read_count, (&headers,), count),
    ensures
        !headers@.contains_key("x-shm-datagram-count"@) ==> count is None,
        headers@.contains_key("x-shm-datagram-count"@) ==> count == text::usize_of(
            headers@["x-shm-datagram-count"@]@,
        ),
{
}

/// A bridge makes channels in its directory and with its ring size, and each under the name that
/// was asked for, exactly if it is not open.
pub proof fn law_get_or_create_channel<C>(
    shm_dir: String,
    ring_size: usize,
    bridge: EzIsolateBridgeShm<C>,
    name: &str,
    config: Option<ChannelConfig>,
)
    requires
        call_ensures(EzIsolateBridgeShm::<C>::new, (shm_dir, ring_size), bridge),
        call_ensures(EzIsolateBridgeShm::<C>::get_or_create_channel, (&bridge, name), config),
    ensures
        config matches Some(c) && c.shm_dir@ == shm_dir@ && c.name@ == name@ && c.ring_size
            == ring_size,
{
}

/// A channel that was added is open under its name, the others stay as they are, and channels are
/// made as before.
pub proof fn law_add_channel<C>(
    bridge: &mut EzIsolateBridgeShm<C>,
    name: String,
    channel: C,
    other: Seq<char>,
    key: &str,
    found: Option<&C>,
)
    requires
        call_ensures(EzIsolateBridgeShm::<C>::add_channel, (bridge, name, channel), ()),
        call_ensures(EzIsolateBridgeShm::<C>::channel, (&*final(bridge), key), found),
        key@ == name@,
    ensures
        found == Some(&channel),
        other != name@ ==> {
            &&& final(bridge).open_channels().contains_key(other) <==> old(bridge).open_channels().contains_key(other)
            &&& final(bridge).open_channels().contains_key(other) ==> final(bridge).open_channels()[other] == old(bridge).open_channels()[other]
        },
        final(bridge).plan_for(other) == old(bridge).plan_for(other),
{
}

/// The state that an isolate is in is the one that it was to move to.
pub proof fn law_isolate_state<C>(bridge: EzIsolateBridgeShm<C>, wanted: i32, current: i32)
    requires
        call_ensures(EzIsolateBridgeShm::<C>::update_isolate_state, (&bridge, wanted), current),
    ensures
        current == wanted,
{
}

/// What a caller sends: the frames for its datagrams, and a request with its metadata, the channel
/// as the only handle, the number of datagrams among the headers, its scopes, and no datagrams.
pub proof fn law_prepare_invoke(
    client: EzShmClient,
    metadata: ControlPlaneMetadata,
    iscope: EzPayloadIsolateScope,
    datagrams: Vec<Vec<u8>>,
    prepared: (Vec<Frame>, InvokeIsolateRequest),
    header: Seq<char>,
)
    requires
        call_ensures(
            EzShmClient::prepare_invoke,
            (&client, metadata, iscope, datagrams),
            prepared,
        ),
    ensures
        frames_view(prepared.0@) == datagram_frames(datagrams_view(datagrams@)),
        prepared.1.isolate_input matches Some(input) && input.datagrams@.len() == 0,
        prepared.1.isolate_input_iscope matches Some(scopes) && scopes_view(scopes.datagram_iscopes@)
            == scopes_view(iscope.datagram_iscopes@),
        prepared.1.control_plane_metadata matches Some(m) && {
            &&& m.ipc_message_id == metadata.ipc_message_id
            &&& m.requester_spiffe@ == metadata.requester_spiffe@
            &&& m.destination_service_name@ == metadata.destination_service_name@
            &&& m.destination_method_name@ == metadata.destination_method_name@
            &&& m.shared_memory_handles@.len() == 1
            &&& m.shared_memory_handles@[0]@ == client.over().spec_config().name@
            &&& m.metadata_headers@.contains_key("x-shm-datagram-count"@)
            &&& m.metadata_headers@["x-shm-datagram-count"@]@ == text::decimal(datagrams@.len())
            &&& header != "x-shm-datagram-count"@ ==> {
                &&& m.metadata_headers@.contains_key(header)
                    <==> metadata.metadata_headers@.contains_key(header)
                &&& m.metadata_headers@.contains_key(header) ==> m.metadata_headers@[header]@
                    == metadata.metadata_headers@[header]@
            }
        },
{
    let req = prepared.1;
    let scopes = scopes_view(iscope.datagram_iscopes@);
    let name = client.over().spec_config().name@;
    let count = datagrams@.len();
    law_request_written_out(metadata@, scopes, name, count, header);
    law_request_written_out(metadata@, scopes, name, count, "x-shm-datagram-count"@);
    assert(req@.metadata is Some);
    let m = req.control_plane_metadata.unwrap();
    assert(req@.metadata == Some(m@));
    assert(m@.shared_memory_handles.len() == m.shared_memory_handles@.len());
    assert(m@.shared_memory_handles[0] == m.shared_memory_handles@[0]@);
    assert(m@.metadata_headers.contains_key("x-shm-datagram-count"@));
    assert(m@.metadata_headers.contains_key(header) == m.metadata_headers@.contains_key(header));
    assert(metadata@.metadata_headers.contains_key(header)
        == metadata.metadata_headers@.contains_key(header));
    let input = req.isolate_input.unwrap();
    assert(req@.input == Some(datagrams_view(input.datagrams@)));
    assert(datagrams_view(input.datagrams@).len() == input.datagrams@.len());
}

/// A reader wants as many datagrams as the response announces, takes the payloads of frames in
/// order, and is complete once it has them all.
pub proof fn law_read_response(
    client: EzShmClient,
    response: InvokeIsolateResponse,
    reader: DatagramReader,
    complete: bool,
    reading: &mut DatagramReader,
    frame: Frame,
)
    requires
        call_ensures(EzShmClient::read_response, (&client, &response), reader),
        call_ensures(DatagramReader::is_complete, (&reader,), complete),
        call_ensures(DatagramReader::take_frame, (reading, frame), ()),
    ensures
        reader.read().len() == 0,
        reader.total() == response_count(response@),
        complete <==> response_count(response@) == 0,
        final(reading).total() == old(reading).total(),
        final(reading).read() == old(reading).read().push(frame.payload@),
{
}

/// What a call asks for, where nothing fails: the payloads of the frames that were received go to
/// the handler once there are as many as are wanted, the datagrams of the handler go out as frames,
/// and once the last one was sent the call is answered under its id.
pub proof fn law_step(call: InvokeCall, event: CallEvent, next: (InvokeCall, CallStep))
    requires
        call_ensures(InvokeCall::step, (call, event), next),
    ensures
        call@.stage matches CallStageView::Reading(got) ==> (event matches CallEvent::Received(
            frame,
        ) ==> {
            let more = got.push(frame.payload@);
            &&& more.len() < call@.wanted ==> next.1 is Receive && next.0@.stage
                == CallStageView::Reading(more)
            &&& more.len() >= call@.wanted ==> next.0@.stage is Handling && (
            next.1 matches CallStep::Handle(datagrams) && datagrams_view(datagrams@) == more)
        }),
        call@.stage is Handling ==> (event matches CallEvent::Handled(datagrams) ==> {
            &&& datagrams@.len() == 0 ==> next.0@.stage is Done && (
            next.1 matches CallStep::Respond(response) && response@ == response_to(
                call@.metadata.ipc_message_id,
                call@.channel_name,
                0,
            ))
            &&& datagrams@.len() > 0 ==> (next.1 matches CallStep::Send(frame) && frame.payload@
                == datagrams@[0]@ && frame.version == 1 && frame.stream_id == 0)
            &&& datagrams@.len() > 0 ==> (next.0@.stage matches CallStageView::Writing {
                rest,
                count,
            } && count == datagrams@.len() && rest.len() == datagrams@.len() - 1)
        }),
        call@.stage matches CallStageView::Writing { rest, count } ==> event is Sent ==> {
            &&& rest.len() == 0 ==> next.0@.stage is Done && (
            next.1 matches CallStep::Respond(response) && response@ == response_to(
                call@.metadata.ipc_message_id,
                call@.channel_name,
                count,
            ))
            &&& rest.len() > 0 ==> (next.1 matches CallStep::Send(frame) && frame@ == rest[0])
                && next.0@.stage == (CallStageView::Writing { rest: rest.skip(1), count })
        },
        call@.stage is Done ==> next.1 is Ignore && next.0@ == call@,
{
    match call@.stage {
        CallStageView::Writing { rest, count } => {
            assert(rest.drop_first() =~= rest.skip(1));
        },
        _ => {},
    }
    match event {
        CallEvent::Handled(datagrams) => {
            let views = datagrams_view(datagrams@);
            assert(views.len() == datagrams@.len());
            if datagrams@.len() > 0 {
                law_datagram_frame(views, 0);
            }
        },
        _ => {},
    }
}

/// A failure ends a call, with a status that says what failed and why if failures are reported, and
/// without an answer otherwise.
pub proof fn law_failed_step(
    call: InvokeCall,
    event: CallEvent,
    next: (InvokeCall, CallStep),
    reason: String,
)
    requires
        call_ensures(InvokeCall::step, (call, event), next),
    ensures
        call@.stage is Opening && event == CallEvent::ChannelFailed(reason) ==> next.0@.stage
            is Done && (call@.reports ==> (next.1 matches CallStep::Fail(status) && status.code
            is Internal && status.message@ == "failed to create shm channel: "@ + reason@)) && (
        !call@.reports ==> next.1 is Skip),
        call@.stage is Reading && event == CallEvent::RecvFailed(reason) ==> next.0@.stage is Done
            && (call@.reports ==> (next.1 matches CallStep::Fail(status) && status.code
            is DeadlineExceeded && status.message@ == "failed to read datagram from shm: "@
            + reason@)) && (!call@.reports ==> next.1 is Skip),
        call@.stage is Writing && event == CallEvent::SendFailed(reason) ==> next.0@.stage is Done
            && (call@.reports ==> (next.1 matches CallStep::Fail(status) && status.code is Internal
            && status.message@ == "failed to write datagram to shm: "@ + reason@)) && (
        !call@.reports ==> next.1 is Skip),
{
    law_call_failures(call@, event@, reason@);
}

/// A client is opened over the channel that it names, as the side that did not make it.
pub proof fn law_opened_client(
    shm_dir: String,
    channel_name: &str,
    ring_size: usize,
    tx_region: &[u8],
    rx_region: &[u8],
    client: EzShmClient,
    channel: &ShmChannel,
    name: &str,
    dir: &str,
)
    requires
        call_ensures(
            EzShmClient::open,
            (shm_dir, channel_name, ring_size, tx_region, rx_region),
            client,
        ),
        call_ensures(EzShmClient::channel, (&client,), channel),
        call_ensures(ShmChannel::name, (channel,), name),
        call_ensures(ShmChannel::shm_dir, (channel,), dir),
    ensures
        name@ == channel_name@,
        dir@ == shm_dir@,
        !channel.server_side(),
        client.wf(),
{
}

} // verus!
