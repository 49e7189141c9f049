//! Logic of the gRPC service for shared memory transfer.
//!
//! Architecture:
//! ```text
//! ┌──────────────────────────────────────────────────────────┐
//! │  gRPC: control plane                                     │
//! │  Small protobuf messages: channel setup, send notify,    │
//! │  stream coordination, teardown                           │
//! ├──────────────────────────────────────────────────────────┤
//! │  ShmChannel: data plane                                  │
//! │  Ring buffer on /dev/shm with Frame protocol:            │
//! │  extensible headers + raw bulk payload (no protobuf)     │
//! └──────────────────────────────────────────────────────────┘
//! ```
//!
//! The service manages channel lifecycle. Actual data flows through `/dev/shm`
//! ring buffers; the protobuf messages carry only metadata.
//!
//! What the service cannot do itself (make the files of a channel, wait for a
//! frame, run the handler) it asks its caller for, one step at a time.

use crate::channel;
use crate::channel::ChannelConfig;
use crate::names::NameMap;
use crate::protocol;
use crate::protocol::Frame;
use crate::status::{Status, StatusCode, StatusView};
use crate::text;
use vstd::prelude::*;
use vstd::string::*;

verus! {

// ─── Control messages ────────────────────────────────────────────────────────

/// Asks for a new channel. An empty directory and a ring size of zero stand for the
/// service's defaults.
pub struct CreateChannelRequest {
    pub name: String,
    pub shm_dir: String,
    pub ring_size: u64,
}

/// Says where a new channel is.
pub struct CreateChannelResponse {
    pub name: String,
    pub shm_dir: String,
    pub ring_size: u64,
    pub client_to_server_path: String,
    pub server_to_client_path: String,
}

#[verifier::ext_equal]
pub struct CreateChannelResponseView {
    pub name: Seq<char>,
    pub shm_dir: Seq<char>,
    pub ring_size: u64,
    pub client_to_server_path: Seq<char>,
    pub server_to_client_path: Seq<char>,
}

impl View for CreateChannelResponse {
    type V = CreateChannelResponseView;

    open spec fn view(&self) -> CreateChannelResponseView {
        CreateChannelResponseView {
            name: self.name@,
            shm_dir: self.shm_dir@,
            ring_size: self.ring_size,
            client_to_server_path: self.client_to_server_path@,
            server_to_client_path: self.server_to_client_path@,
        }
    }
}

/// Says that a frame is in a channel.
pub struct SendRequest {
    pub channel_name: String,
    pub stream_id: u32,
}

/// Says that the response frame is in the channel, and how long its payload is.
pub struct SendResponse {
    pub stream_id: u32,
    pub status: i32,
    pub message: String,
    pub response_payload_size: u64,
}

/// One message of a stream, in either direction.
pub struct StreamMessage {
    pub stream_id: u32,
    pub headers: NameMap<Vec<u8>>,
    pub payload_size: u64,
    pub end_stream: bool,
}

// ─── Channels ────────────────────────────────────────────────────────────────

/// The service's open channels, and what it makes new ones with. `C` is whatever stands
/// for an open channel.
pub struct ShmTransferService<C> {
    channels: NameMap<OpenChannel<C>>,
    default_shm_dir: String,
    default_ring_size: usize,
}

/// An open channel, and the directory of its files.
struct OpenChannel<C> {
    shm_dir: String,
    channel: C,
}

/// A channel that another one under its name has taken the place of.
pub struct Earlier<C> {
    pub channel: C,
    /// Whether the other one has the same files, so that they are not to be removed.
    pub shares_files: bool,
}

/// A channel was created.
pub struct Created<C> {
    pub response: CreateChannelResponse,
    /// The channel that was open under the name before.
    pub earlier: Option<Earlier<C>>,
}

/// Whether two channels with one name in two directories have the same files.
pub open spec fn same_files(dir: Seq<char>, other_dir: Seq<char>, name: Seq<char>) -> bool {
    &&& text::joined_path(dir, channel::c2s_name(name)) == text::joined_path(
        other_dir,
        channel::c2s_name(name),
    )
    &&& text::joined_path(dir, channel::s2c_name(name)) == text::joined_path(
        other_dir,
        channel::s2c_name(name),
    )
}

/// What a channel is made with.
#[verifier::ext_equal]
pub struct ChannelPlan {
    pub shm_dir: Seq<char>,
    pub name: Seq<char>,
    pub ring_size: usize,
}

/// What a configuration consists of.
pub open spec fn plan_of(config: ChannelConfig) -> ChannelPlan {
    ChannelPlan { shm_dir: config.shm_dir@, name: config.name@, ring_size: config.ring_size }
}

/// The answer to a request whose channel was made as planned.
pub open spec fn created_response(plan: ChannelPlan) -> CreateChannelResponseView {
    CreateChannelResponseView {
        name: plan.name,
        shm_dir: plan.shm_dir,
        ring_size: plan.ring_size as u64,
        client_to_server_path: text::joined_path(plan.shm_dir, channel::c2s_name(plan.name)),
        server_to_client_path: text::joined_path(plan.shm_dir, channel::s2c_name(plan.name)),
    }
}

impl<C> ShmTransferService<C> {
    /// The open channels by name.
    pub closed spec fn open_channels(&self) -> Map<Seq<char>, C> {
        self.channels@.map_values(|open: OpenChannel<C>| open.channel)
    }

    /// The directories of the open channels by name.
    pub closed spec fn open_dirs(&self) -> Map<Seq<char>, Seq<char>> {
        self.channels@.map_values(|open: OpenChannel<C>| open.shm_dir@)
    }

    /// Directory for the files of a channel whose request names none.
    pub closed spec fn fallback_dir(&self) -> Seq<char> {
        self.default_shm_dir@
    }

    /// Ring size of a channel whose request names none.
    pub closed spec fn fallback_ring_size(&self) -> usize {
        self.default_ring_size
    }

    /// What the channel for a request is made with.
    pub open spec fn plan_for(&self, req: CreateChannelRequest) -> ChannelPlan {
        ChannelPlan {
            shm_dir: if req.shm_dir@.len() == 0 {
                self.fallback_dir()
            } else {
                req.shm_dir@
            },
            name: req.name@,
            ring_size: if req.ring_size == 0 {
                self.fallback_ring_size()
            } else {
                req.ring_size as usize
            },
        }
    }

    /// A service without channels, with the defaults of Linux or of elsewhere.
    pub fn new(linux: bool) -> (service: Self)
        ensures
            service.open_channels() == Map::<Seq<char>, C>::empty(),
            service.open_dirs() == Map::<Seq<char>, Seq<char>>::empty(),
            service.fallback_dir() == channel::default_dir(linux),
            service.fallback_ring_size() == channel::DEFAULT_RING_SIZE,
    {
        let service = ShmTransferService {
            channels: NameMap::new(),
            default_shm_dir: channel::default_shm_dir(linux),
            default_ring_size: channel::DEFAULT_RING_SIZE,
        };
        assert(service.open_channels() =~= Map::empty());
        assert(service.open_dirs() =~= Map::empty());
        service
    }

    /// The service with other defaults.
    pub fn with_defaults(self, shm_dir: String, ring_size: usize) -> (service: Self)
        ensures
            service.open_channels() == self.open_channels(),
            service.open_dirs() == self.open_dirs(),
            service.fallback_dir() == shm_dir@,
            service.fallback_ring_size() == ring_size,
    {
        ShmTransferService {
            channels: self.channels,
            default_shm_dir: shm_dir,
            default_ring_size: ring_size,
        }
    }

    /// Succeeds if the channel is open.
    pub fn get_channel(&self, name: &str) -> (found: Result<(), Status>)
        ensures
            match found {
                Ok(_) => self.open_channels().contains_key(name@),
                Err(status) => {
                    &&& !self.open_channels().contains_key(name@)
                    &&& status@ == not_found(name@)
                },
            },
    {
        if self.channels.contains_key(name) {
            Ok(())
        } else {
            let mut message = text::join_texts("channel '", name);
            message.append("' not found");
            Err(Status { code: StatusCode::NotFound, message })
        }
    }

    /// The open channel with the given name.
    pub fn channel(&self, name: &str) -> (found: Option<&C>)
        ensures
            found == if self.open_channels().contains_key(name@) {
                Some(&self.open_channels()[name@])
            } else {
                None
            },
    {
        match self.channels.get(name) {
            Some(open) => Some(&open.channel),
            None => None,
        }
    }

    /// What to make the channel for a request with.
    pub fn plan_channel(&self, req: &CreateChannelRequest) -> (config: ChannelConfig)
        ensures
            plan_of(config) == self.plan_for(*req),
            config.name@ == req.name@,
            config.shm_dir@ == if req.shm_dir@.len() == 0 {
                self.fallback_dir()
            } else {
                req.shm_dir@
            },
            req.ring_size == 0 ==> config.ring_size == self.fallback_ring_size(),
            0 < req.ring_size <= usize::MAX ==> config.ring_size == req.ring_size,
    {
        let shm_dir = if req.shm_dir.as_str().is_empty() {
            self.default_shm_dir.clone()
        } else {
            req.shm_dir.clone()
        };
        let ring_size: usize = if req.ring_size == 0 {
            self.default_ring_size
        } else {
            req.ring_size as usize
        };
        ChannelConfig { shm_dir, name: req.name.clone(), ring_size }
    }

    /// Answers a request once its channel was made with `config`, or could not be made. A
    /// channel that was open under the same name stays open if it could not, and is handed out
    /// otherwise.
    pub fn create_channel(&mut self, config: ChannelConfig, made: Result<C, String>) -> (created:
        Result<Created<C>, Status>)
        ensures
            final(self).fallback_dir() == old(self).fallback_dir(),
            final(self).fallback_ring_size() == old(self).fallback_ring_size(),
            match made {
                Ok(c) => {
                    &&& final(self).open_channels() == old(self).open_channels().insert(
                        config.name@,
                        c,
                    )
                    &&& final(self).open_dirs() == old(self).open_dirs().insert(
                        config.name@,
                        config.shm_dir@,
                    )
                    &&& created matches Ok(r)
                    &&& r.response@ == created_response(plan_of(config))
                    &&& match r.earlier {
                        Some(earlier) => {
                            &&& old(self).open_channels().contains_key(config.name@)
                            &&& earlier.channel == old(self).open_channels()[config.name@]
                            &&& earlier.shares_files == same_files(
                                old(self).open_dirs()[config.name@],
                                config.shm_dir@,
                                config.name@,
                            )
                        },
                        None => !old(self).open_channels().contains_key(config.name@),
                    }
                },
                Err(e) => {
                    &&& final(self).open_channels() == old(self).open_channels()
                    &&& final(self).open_dirs() == old(self).open_dirs()
                    &&& created matches Err(status)
                    &&& status@ == (StatusView {
                        code: StatusCode::Internal,
                        message: "failed to create channel: "@ + e@,
                    })
                },
            },
    {
        match made {
            Ok(c) => {
                let c2s = channel::tx_file(config.name.as_str(), false);
                let s2c = channel::tx_file(config.name.as_str(), true);
                let c2s_path = text::join_path(config.shm_dir.as_str(), c2s.as_str());
                let s2c_path = text::join_path(config.shm_dir.as_str(), s2c.as_str());
                let open = OpenChannel { shm_dir: config.shm_dir.clone(), channel: c };
                let earlier = match self.channels.insert(config.name.clone(), open) {
                    Some(before) => {
                        let dir = before.shm_dir.as_str();
                        let same_c2s = text::same_text(
                            text::join_path(dir, c2s.as_str()).as_str(),
                            c2s_path.as_str(),
                        );
                        let same_s2c = text::same_text(
                            text::join_path(dir, s2c.as_str()).as_str(),
                            s2c_path.as_str(),
                        );
                        Some(
                            Earlier {
                                channel: before.channel,
                                shares_files: same_c2s && same_s2c,
                            },
                        )
                    },
                    None => None,
                };
                assert(self.open_channels() =~= old(self).open_channels().insert(config.name@, c));
                assert(self.open_dirs() =~= old(self).open_dirs().insert(
                    config.name@,
                    config.shm_dir@,
                ));
                Ok(
                    Created {
                        response: CreateChannelResponse {
                            name: config.name,
                            shm_dir: config.shm_dir,
                            ring_size: config.ring_size as u64,
                            client_to_server_path: c2s_path,
                            server_to_client_path: s2c_path,
                        },
                        earlier,
                    },
                )
            },
            Err(e) => Err(
                Status::because(StatusCode::Internal, "failed to create channel: ", e.as_str()),
            ),
        }
    }

    /// Closes a channel. Returns false if it was not open.
    pub fn destroy_channel(&mut self, name: &str) -> (ok: bool)
        ensures
            final(self).fallback_dir() == old(self).fallback_dir(),
            final(self).fallback_ring_size() == old(self).fallback_ring_size(),
            ok == old(self).open_channels().contains_key(name@),
            final(self).open_channels() == old(self).open_channels().remove(name@),
            final(self).open_dirs() == old(self).open_dirs().remove(name@),
    {
        let ok = self.channels.remove(name).is_some();
        assert(self.open_channels() =~= old(self).open_channels().remove(name@));
        assert(self.open_dirs() =~= old(self).open_dirs().remove(name@));
        ok
    }

    /// Starts the call that a request asks for: its channel has to be open.
    pub fn send(&self, req: &SendRequest) -> (call: Result<Exchange, Status>)
        ensures
            match call {
                Ok(exchange) => {
                    &&& self.open_channels().contains_key(req.channel_name@)
                    &&& exchange.stage() is Receiving
                    &&& exchange.reports()
                },
                Err(status) => {
                    &&& !self.open_channels().contains_key(req.channel_name@)
                    &&& status@ == not_found(req.channel_name@)
                },
            },
    {
        match self.get_channel(req.channel_name.as_str()) {
            Ok(_) => Ok(Exchange { stage: Stage::Receiving, reports: true }),
            Err(status) => Err(status),
        }
    }

    /// Starts the exchange that a message of a stream asks for, on the channel that it
    /// names. A message whose channel is not open is passed over.
    pub fn stream(&self, msg: &StreamMessage) -> (call: Option<(String, Exchange)>)
        ensures
            match call {
                Some((name, exchange)) => {
                    &&& name@ == stream_channel(msg.headers@)
                    &&& self.open_channels().contains_key(name@)
                    &&& exchange.stage() is Receiving
                    &&& !exchange.reports()
                },
                None => !self.open_channels().contains_key(stream_channel(msg.headers@)),
            },
    {
        let name: String = match msg.headers.get("channel") {
            Some(bytes) => match text::utf8_str(bytes.as_slice()) {
                Some(t) => t.to_owned(),
                None => String::new(),
            },
            None => String::new(),
        };
        if self.channels.contains_key(name.as_str()) {
            Some((name, Exchange { stage: Stage::Receiving, reports: false }))
        } else {
            None
        }
    }
}

/// The status for a channel that is not open.
pub open spec fn not_found(name: Seq<char>) -> StatusView {
    StatusView { code: StatusCode::NotFound, message: "channel '"@ + name + "' not found"@ }
}

/// The channel that a message of a stream names: the text under "channel", or the empty
/// name if there is none or it is not UTF-8.
pub open spec fn stream_channel(headers: Map<Seq<char>, Vec<u8>>) -> Seq<char> {
    if headers.contains_key("channel"@) {
        match text::utf8_text(headers["channel"@]@) {
            Some(t) => t,
            None => Seq::empty(),
        }
    } else {
        Seq::empty()
    }
}

// ─── One exchange of frames ──────────────────────────────────────────────────

/// How far an exchange is.
#[derive(Debug, Clone, Copy, PartialEq, Eq, Structural)]
pub enum Stage {
    /// Waiting for the request frame.
    Receiving,
    /// Waiting for the handler.
    Handling,
    /// Waiting for the response frame, with a payload of this size, to be sent.
    Sending(u64),
    /// Nothing is left to do.
    Done,
}

/// What happened to an exchange.
pub enum Event {
    /// A frame was received from the channel.
    Received(Frame),
    /// No frame could be received, for this reason.
    RecvFailed(String),
    /// The handler answered with this frame.
    Handled(Frame),
    /// The response frame was sent.
    Sent,
    /// The response frame could not be sent, for this reason.
    SendFailed(String),
}

/// What an exchange asks for next.
pub enum Step {
    /// Run the handler on this frame.
    Handle(Frame),
    /// Send this frame.
    Send(Frame),
    /// Answer the call: the response frame has a payload of this size.
    Respond(u64),
    /// Fail the call with this status.
    Fail(Status),
    /// Give no answer.
    Skip,
    /// Nothing: the event does not belong to the stage of the exchange.
    Ignore,
}

#[verifier::ext_equal]
pub enum EventView {
    Received(protocol::FrameView),
    RecvFailed(Seq<char>),
    Handled(protocol::FrameView),
    Sent,
    SendFailed(Seq<char>),
}

#[verifier::ext_equal]
pub enum StepView {
    Handle(protocol::FrameView),
    Send(protocol::FrameView),
    Respond(u64),
    Fail(StatusView),
    Skip,
    Ignore,
}

impl View for Event {
    type V = EventView;

    open spec fn view(&self) -> EventView {
        match self {
            Event::Received(frame) => EventView::Received(frame@),
            Event::RecvFailed(e) => EventView::RecvFailed(e@),
            Event::Handled(frame) => EventView::Handled(frame@),
            Event::Sent => EventView::Sent,
            Event::SendFailed(e) => EventView::SendFailed(e@),
        }
    }
}

impl View for Step {
    type V = StepView;

    open spec fn view(&self) -> StepView {
        match self {
            Step::Handle(frame) => StepView::Handle(frame@),
            Step::Send(frame) => StepView::Send(frame@),
            Step::Respond(size) => StepView::Respond(*size),
            Step::Fail(status) => StepView::Fail(status@),
            Step::Skip => StepView::Skip,
            Step::Ignore => StepView::Ignore,
        }
    }
}

/// An exchange of a request frame for a response frame on one channel: receive, run the
/// handler, send, answer.
pub struct Exchange {
    stage: Stage,
    reports: bool,
}

/// The stage after an event, and what is asked for next. An exchange that reports fails on
/// the first failure. One that does not gives no answer where no frame was received, and
/// answers whether or not the response frame could be sent.
pub open spec fn exchange_step(stage: Stage, reports: bool, event: EventView) -> (Stage, StepView) {
    match (stage, event) {
        (Stage::Receiving, EventView::Received(frame)) => (
            Stage::Handling,
            StepView::Handle(frame),
        ),
        (Stage::Receiving, EventView::RecvFailed(e)) => (
            Stage::Done,
            if reports {
                StepView::Fail(
                    StatusView {
                        code: StatusCode::DeadlineExceeded,
                        message: "failed to read from shm: "@ + e,
                    },
                )
            } else {
                StepView::Skip
            },
        ),
        (Stage::Handling, EventView::Handled(frame)) => (
            Stage::Sending(frame.payload.len() as u64),
            StepView::Send(frame),
        ),
        (Stage::Sending(size), EventView::Sent) => (Stage::Done, StepView::Respond(size)),
        (Stage::Sending(size), EventView::SendFailed(e)) => (
            Stage::Done,
            if reports {
                StepView::Fail(
                    StatusView {
                        code: StatusCode::Internal,
                        message: "failed to write response to shm: "@ + e,
                    },
                )
            } else {
                StepView::Respond(size)
            },
        ),
        _ => (stage, StepView::Ignore),
    }
}

impl Exchange {
    /// How far the exchange is.
    pub closed spec fn stage(&self) -> Stage {
        self.stage
    }

    /// Whether failures are reported to the caller.
    pub closed spec fn reports(&self) -> bool {
        self.reports
    }

    /// What to do next, after an event.
    pub fn step(&mut self, event: Event) -> (next: Step)
        ensures
            (final(self).stage(), next@) == exchange_step(
                old(self).stage(),
                old(self).reports(),
                event@,
            ),
            final(self).reports() == old(self).reports(),
    {
        match (self.stage, event) {
            (Stage::Receiving, Event::Received(frame)) => {
                self.stage = Stage::Handling;
                Step::Handle(frame)
            },
            (Stage::Receiving, Event::RecvFailed(e)) => {
                self.stage = Stage::Done;
                if self.reports {
                    Step::Fail(
                        Status::because(
                            StatusCode::DeadlineExceeded,
                            "failed to read from shm: ",
                            e.as_str(),
                        ),
                    )
                } else {
                    Step::Skip
                }
            },
            (Stage::Handling, Event::Handled(frame)) => {
                self.stage = Stage::Sending(frame.payload.len() as u64);
                Step::Send(frame)
            },
            (Stage::Sending(size), Event::Sent) => {
                self.stage = Stage::Done;
                Step::Respond(size)
            },
            (Stage::Sending(size), Event::SendFailed(e)) => {
                self.stage = Stage::Done;
                if self.reports {
                    Step::Fail(
                        Status::because(
                            StatusCode::Internal,
                            "failed to write response to shm: ",
                            e.as_str(),
                        ),
                    )
                } else {
                    Step::Respond(size)
                }
            },
            _ => Step::Ignore,
        }
    }
}

/// The answer to a call whose response frame has a payload of the given size.
pub fn send_response(req: &SendRequest, size: u64) -> (response: SendResponse)
    ensures
        response.stream_id == req.stream_id,
        response.status == 0,
        response.message@ == "ok"@,
        response.response_payload_size == size,
{
    SendResponse {
        stream_id: req.stream_id,
        status: 0,
        message: "ok".to_owned(),
        response_payload_size: size,
    }
}

/// The answer to a message of a stream whose response frame has a payload of the given size.
pub fn stream_response(msg: &StreamMessage, size: u64) -> (response: StreamMessage)
    ensures
        response.stream_id == msg.stream_id,
        response.headers@ == Map::<Seq<char>, Vec<u8>>::empty(),
        response.payload_size == size,
        response.end_stream == msg.end_stream,
{
    StreamMessage {
        stream_id: msg.stream_id,
        headers: NameMap::new(),
        payload_size: size,
        end_stream: msg.end_stream,
    }
}

/// Whether a stream goes on after a message: not after its last message, and not once an
/// answer could no longer be delivered.
pub fn stream_goes_on(msg: &StreamMessage, delivered: bool) -> (goes_on: bool)
    ensures
        goes_on == (delivered && !msg.end_stream),
{
    delivered && !msg.end_stream
}

// ─── Laws ────────────────────────────────────────────────────────────────────

/// An exchange in which nothing fails runs the handler on the frame that was received,
/// sends the frame that the handler gave, and answers with the size of its payload.
pub proof fn law_exchange_completes(
    reports: bool,
    request: protocol::FrameView,
    response: protocol::FrameView,
)
    ensures
        ({
            let (s1, a1) = exchange_step(Stage::Receiving, reports, EventView::Received(request));
            let (s2, a2) = exchange_step(s1, reports, EventView::Handled(response));
            let (s3, a3) = exchange_step(s2, reports, EventView::Sent);
            &&& a1 == StepView::Handle(request)
            &&& a2 == StepView::Send(response)
            &&& a3 == StepView::Respond(response.payload.len() as u64)
            &&& s3 is Done
        }),
{
}

/// Nothing follows the end of an exchange.
pub proof fn law_exchange_ends(reports: bool, event: EventView)
    ensures
        exchange_step(Stage::Done, reports, event) == (Stage::Done, StepView::Ignore),
{
}

/// Every open channel has a directory, and nothing else has one.
pub proof fn law_open_channels_have_directories<C>(service: ShmTransferService<C>)
    ensures
        service.open_dirs().dom() == service.open_channels().dom(),
{
    assert(service.open_dirs().dom() =~= service.open_channels().dom());
}

/// A name can be used again: files that a new channel shares with the one that it takes the
/// place of are the files that the answer names, and two channels share either both files or
/// none.
pub proof fn law_shared_files(dir: Seq<char>, plan: ChannelPlan)
    ensures
        same_files(dir, plan.shm_dir, plan.name) <==> created_response(
            plan,
        ).client_to_server_path == text::joined_path(dir, channel::c2s_name(plan.name)),
        same_files(dir, plan.shm_dir, plan.name) <==> created_response(
            plan,
        ).server_to_client_path == text::joined_path(dir, channel::s2c_name(plan.name)),
{
    let c2s = channel::c2s_name(plan.name);
    let s2c = channel::s2c_name(plan.name);
    reveal_strlit("_c2s");
    reveal_strlit("_s2c");
    assert(c2s[0] == s2c[0]);
    if text::joined_path(dir, c2s) == text::joined_path(plan.shm_dir, c2s) {
        lemma_same_prefix(dir, plan.shm_dir, c2s, s2c);
    }
    if text::joined_path(dir, s2c) == text::joined_path(plan.shm_dir, s2c) {
        lemma_same_prefix(dir, plan.shm_dir, s2c, c2s);
    }
}

/// Whether two directories give one path does not depend on the file, but for absolute ones.
proof fn lemma_same_prefix(a: Seq<char>, b: Seq<char>, file: Seq<char>, other: Seq<char>)
    requires
        file.len() > 0,
        other.len() > 0,
        file[0] == other[0],
        text::joined_path(a, file) == text::joined_path(b, file),
    ensures
        text::joined_path(a, other) == text::joined_path(b, other),
{
    if file[0] != '/' {
        reveal_strlit("/");
        let pa = text::joined_path(a, Seq::empty());
        let pb = text::joined_path(b, Seq::empty());
        assert(text::joined_path(a, file) =~= pa + file);
        assert(text::joined_path(b, file) =~= pb + file);
        assert(pa.len() == pb.len());
        assert(pa =~= (pa + file).take(pa.len() as int));
        assert(pb =~= (pb + file).take(pb.len() as int));
        assert(text::joined_path(a, other) =~= pa + other);
        assert(text::joined_path(b, other) =~= pb + other);
    }
}

/// A channel that was created is open, and destroying it leaves the channels that were open
/// before it was created.
pub proof fn law_create_then_destroy<C>(
    start: ShmTransferService<C>,
    created: ShmTransferService<C>,
    destroyed: ShmTransferService<C>,
    name: Seq<char>,
    c: C,
)
    requires
        !start.open_channels().contains_key(name),
        created.open_channels() == start.open_channels().insert(name, c),
        destroyed.open_channels() == created.open_channels().remove(name),
    ensures
        created.open_channels().contains_key(name),
        created.open_channels()[name] == c,
        destroyed.open_channels() == start.open_channels(),
{
    assert(destroyed.open_channels() =~= start.open_channels());
}

/// A request gets what it asks for, whatever the defaults of the service are: its name, its
/// directory unless that is empty, and its ring size unless that is zero. Only an empty directory
/// and a ring size of zero are replaced, by the defaults.
pub proof fn law_request_is_planned<C>(
    service: ShmTransferService<C>,
    other: ShmTransferService<C>,
    req: CreateChannelRequest,
)
    ensures
        service.plan_for(req).name == req.name@,
        req.shm_dir@.len() > 0 ==> service.plan_for(req).shm_dir == req.shm_dir@,
        req.shm_dir@.len() == 0 ==> service.plan_for(req).shm_dir == service.fallback_dir(),
        req.ring_size > 0 ==> service.plan_for(req).ring_size == other.plan_for(req).ring_size,
        0 < req.ring_size <= usize::MAX ==> service.plan_for(req).ring_size == req.ring_size,
        req.ring_size == 0 ==> service.plan_for(req).ring_size == service.fallback_ring_size(),
        req.shm_dir@.len() > 0 && req.ring_size > 0 ==> service.plan_for(req) == other.plan_for(
            req,
        ),
{
}

/// What a plan says of a configuration are its fields.
pub proof fn law_plan_fields(config: ChannelConfig)
    ensures
        plan_of(config).shm_dir == config.shm_dir@,
        plan_of(config).name == config.name@,
        plan_of(config).ring_size == config.ring_size,
{
}

/// The answer to a request repeats what the channel was made with, and names its two files: the
/// directory, and in it the name with `_c2s` and the name with `_s2c`.
pub proof fn law_created_response(plan: ChannelPlan)
    ensures
        created_response(plan).name == plan.name,
        created_response(plan).shm_dir == plan.shm_dir,
        created_response(plan).ring_size == plan.ring_size,
        created_response(plan).client_to_server_path == text::joined_path(
            plan.shm_dir,
            plan.name + "_c2s"@,
        ),
        created_response(plan).server_to_client_path == text::joined_path(
            plan.shm_dir,
            plan.name + "_s2c"@,
        ),
{
}

/// Two channels of one name have the same files exactly if each file of one has the path of that
/// file of the other, which holds of one directory.
pub proof fn law_same_files(dir: Seq<char>, other_dir: Seq<char>, name: Seq<char>)
    ensures
        same_files(dir, other_dir, name) <==> text::joined_path(dir, name + "_c2s"@)
            == text::joined_path(other_dir, name + "_c2s"@) && text::joined_path(
            dir,
            name + "_s2c"@,
        ) == text::joined_path(other_dir, name + "_s2c"@),
        same_files(dir, dir, name),
{
}

/// A channel that is not open is reported by its name.
pub proof fn law_not_found(name: Seq<char>)
    ensures
        not_found(name).code is NotFound,
        not_found(name).message == "channel '"@ + name + "' not found"@,
{
}

/// The channel of a message of a stream is the text under `channel`; it has the empty name if
/// there is nothing under it, or bytes that are no text.
pub proof fn law_stream_channel(headers: Map<Seq<char>, Vec<u8>>, t: Seq<char>)
    ensures
        !headers.contains_key("channel"@) ==> stream_channel(headers).len() == 0,
        headers.contains_key("channel"@) && headers["channel"@]@ == vstd::utf8::encode_utf8(t)
            ==> stream_channel(headers) == t,
        headers.contains_key("channel"@) && text::utf8_text(headers["channel"@]@) is None
            ==> stream_channel(headers).len() == 0,
{
    text::law_utf8_round_trip(t);
}

/// What an exchange does at each stage. A frame that was received goes to the handler, the frame
/// that the handler gave is sent, and once it was sent the answer has the size of its payload. A
/// failure is reported, or there is no answer where nothing was received and the same answer where
/// nothing could be sent. Any other event leaves the exchange as it is.
pub proof fn law_exchange_steps(
    stage: Stage,
    reports: bool,
    event: EventView,
    frame: protocol::FrameView,
    size: u64,
    e: Seq<char>,
)
    ensures
        exchange_step(Stage::Receiving, reports, EventView::Received(frame)) == (
            Stage::Handling,
            StepView::Handle(frame),
        ),
        exchange_step(Stage::Receiving, true, EventView::RecvFailed(e)) == (
            Stage::Done,
            StepView::Fail(
                StatusView {
                    code: StatusCode::DeadlineExceeded,
                    message: "failed to read from shm: "@ + e,
                },
            ),
        ),
        exchange_step(Stage::Receiving, false, EventView::RecvFailed(e)) == (
            Stage::Done,
            StepView::Skip,
        ),
        exchange_step(Stage::Handling, reports, EventView::Handled(frame)).1 == StepView::Send(
            frame,
        ),
        frame.payload.len() == size ==> exchange_step(
            Stage::Handling,
            reports,
            EventView::Handled(frame),
        ).0 == Stage::Sending(size),
        exchange_step(Stage::Sending(size), reports, EventView::Sent) == (
            Stage::Done,
            StepView::Respond(size),
        ),
        exchange_step(Stage::Sending(size), true, EventView::SendFailed(e)) == (
            Stage::Done,
            StepView::Fail(
                StatusView {
                    code: StatusCode::Internal,
                    message: "failed to write response to shm: "@ + e,
                },
            ),
        ),
        exchange_step(Stage::Sending(size), false, EventView::SendFailed(e)) == (
            Stage::Done,
            StepView::Respond(size),
        ),
        exchange_step(stage, reports, event).1 is Ignore <==> match stage {
            Stage::Receiving => !(event is Received) && !(event is RecvFailed),
            Stage::Handling => !(event is Handled),
            Stage::Sending(_) => !(event is Sent) && !(event is SendFailed),
            Stage::Done => true,
        },
        exchange_step(stage, reports, event).1 is Ignore ==> exchange_step(stage, reports, event).0
            == stage,
{
}

/// What the messages of the service consist of are their fields.
pub proof fn law_service_fields(
    response: CreateChannelResponse,
    frame: Frame,
    status: Status,
    t: String,
    size: u64,
)
    ensures
        response@.name == response.name@,
        response@.shm_dir == response.shm_dir@,
        response@.ring_size == response.ring_size,
        response@.client_to_server_path == response.client_to_server_path@,
        response@.server_to_client_path == response.server_to_client_path@,
        Event::Received(frame)@ == EventView::Received(frame@),
        Event::RecvFailed(t)@ == EventView::RecvFailed(t@),
        Event::Handled(frame)@ == EventView::Handled(frame@),
        Event::Sent@ is Sent,
        Event::SendFailed(t)@ == EventView::SendFailed(t@),
        Step::Handle(frame)@ == StepView::Handle(frame@),
        Step::Send(frame)@ == StepView::Send(frame@),
        Step::Respond(size)@ == StepView::Respond(size),
        Step::Fail(status)@ == StepView::Fail(status@),
        Step::Skip@ is Skip,
        Step::Ignore@ is Ignore,
{
}

// ─── What the operations do ──────────────────────────────────────────────────

/// What a channel is made with, whatever the defaults of the service are: the name of the request,
/// its directory unless that is empty, and its ring size unless that is zero. Another service plans
/// the same where the request says both.
pub proof fn law_plan_channel<C>(
    service: ShmTransferService<C>,
    other: ShmTransferService<C>,
    req: CreateChannelRequest,
    config: ChannelConfig,
    other_config: ChannelConfig,
)
    requires
        call_ensures(ShmTransferService::<C>::plan_channel, (&service, &req), config),
        call_ensures(ShmTransferService::<C>::plan_channel, (&other, &req), other_config),
    ensures
        config.name@ == req.name@,
        req.shm_dir@.len() > 0 ==> config.shm_dir@ == req.shm_dir@,
        req.shm_dir@.len() == 0 ==> config.shm_dir@ == service.fallback_dir(),
        0 < req.ring_size <= usize::MAX ==> config.ring_size == req.ring_size,
        req.ring_size > 0 ==> config.ring_size == other_config.ring_size,
        req.shm_dir@.len() > 0 ==> config.shm_dir@ == other_config.shm_dir@,
        req.ring_size == 0 ==> config.ring_size == service.fallback_ring_size(),
{
}

/// The defaults of a service: the directory for shared memory files and 64 MiB, unless others were
/// asked for.
pub proof fn law_service_defaults<C>(
    linux: bool,
    service: ShmTransferService<C>,
    shm_dir: String,
    ring_size: usize,
    changed: ShmTransferService<C>,
)
    requires
        call_ensures(ShmTransferService::<C>::new, (linux,), service),
        call_ensures(
            ShmTransferService::<C>::with_defaults,
            (service, shm_dir, ring_size),
            changed,
        ),
    ensures
        service.fallback_dir() == if linux {
            "/dev/shm"@
        } else {
            "/tmp"@
        },
        service.fallback_ring_size() == 67108864,
        changed.fallback_dir() == shm_dir@,
        changed.fallback_ring_size() == ring_size,
        service.open_channels() == Map::<Seq<char>, C>::empty(),
        changed.open_channels() == Map::<Seq<char>, C>::empty(),
{
}

/// A channel that was made is open under its name in place of the one that was, which is handed
/// out, and the answer says what it was made with. A channel that could not be made changes nothing
/// and is reported with the reason.
pub proof fn law_create_channel<C>(
    service: &mut ShmTransferService<C>,
    config: ChannelConfig,
    made: Result<C, String>,
    created: Result<Created<C>, Status>,
    name: Seq<char>,
)
    requires
        call_ensures(
            ShmTransferService::<C>::create_channel,
            (service, config, made),
            created,
        ),
    ensures
        created is Ok <==> made is Ok,
        (made, created) matches (Ok(c), Ok(r)) ==> {
            &&& final(service).open_channels().contains_key(config.name@)
            &&& final(service).open_channels()[config.name@] == c
            &&& r.response.name@ == config.name@
            &&& r.response.shm_dir@ == config.shm_dir@
            &&& r.response.ring_size == config.ring_size
            &&& r.response.client_to_server_path@ == text::joined_path(
                config.shm_dir@,
                config.name@ + "_c2s"@,
            )
            &&& r.response.server_to_client_path@ == text::joined_path(
                config.shm_dir@,
                config.name@ + "_s2c"@,
            )
            &&& r.earlier is Some <==> old(service).open_channels().contains_key(config.name@)
            &&& r.earlier matches Some(earlier) ==> earlier.channel == old(service).open_channels()[config.name@]
        },
        (made, created) matches (Err(e), Err(status)) ==> {
            &&& final(service).open_channels() == old(service).open_channels()
            &&& status.code is Internal
            &&& status.message@ == "failed to create channel: "@ + e@
        },
        name != config.name@ ==> {
            &&& final(service).open_channels().contains_key(name) <==> old(service).open_channels().contains_key(name)
            &&& final(service).open_channels().contains_key(name) ==> final(service).open_channels()[name] == old(service).open_channels()[name]
        },
        final(service).fallback_dir() == old(service).fallback_dir(),
        final(service).fallback_ring_size() == old(service).fallback_ring_size(),
{
}

/// A channel that was destroyed is no longer open, the others stay, and the answer says whether it
/// was open.
pub proof fn law_destroy_channel<C>(
    service: &mut ShmTransferService<C>,
    name: &str,
    ok: bool,
    other: Seq<char>,
)
    requires
        call_ensures(ShmTransferService::<C>::destroy_channel, (service, name), ok),
    ensures
        ok <==> old(service).open_channels().contains_key(name@),
        !final(service).open_channels().contains_key(name@),
        other != name@ ==> {
            &&& final(service).open_channels().contains_key(other) <==> old(service).open_channels().contains_key(other)
            &&& final(service).open_channels().contains_key(other) ==> final(service).open_channels()[other] == old(service).open_channels()[other]
        },
{
}

/// A call starts exactly if its channel is open, and is refused by the name of the channel
/// otherwise; looking a channel up finds it exactly then.
pub proof fn law_send_starts<C>(
    service: ShmTransferService<C>,
    req: SendRequest,
    call: Result<Exchange, Status>,
    looked_up: Result<(), Status>,
    found: Option<&C>,
    name: &str,
)
    requires
        call_ensures(ShmTransferService::<C>::send, (&service, &req), call),
        call_ensures(ShmTransferService::<C>::get_channel, (&service, name), looked_up),
        call_ensures(ShmTransferService::<C>::channel, (&service, name), found),
        name@ == req.channel_name@,
    ensures
        call is Ok <==> service.open_channels().contains_key(name@),
        looked_up is Ok <==> service.open_channels().contains_key(name@),
        found is Some <==> service.open_channels().contains_key(name@),
        found matches Some(c) ==> *c == service.open_channels()[name@],
        call matches Ok(exchange) ==> exchange.stage() is Receiving && exchange.reports(),
        call matches Err(status) ==> status.code is NotFound && status.message@ == "channel '"@
            + name@ + "' not found"@,
        looked_up matches Err(status) ==> status.code is NotFound && status.message@
            == "channel '"@ + name@ + "' not found"@,
{
}

/// A message of a stream starts an exchange exactly if the channel that it names is open, on that
/// channel.
pub proof fn law_stream_starts<C>(
    service: ShmTransferService<C>,
    msg: StreamMessage,
    call: Option<(String, Exchange)>,
    t: Seq<char>,
)
    requires
        call_ensures(ShmTransferService::<C>::stream, (&service, &msg), call),
        msg.headers@.contains_key("channel"@),
        msg.headers@["channel"@]@ == vstd::utf8::encode_utf8(t),
    ensures
        call is Some <==> service.open_channels().contains_key(t),
        call matches Some((name, exchange)) ==> name@ == t && exchange.stage() is Receiving
            && !exchange.reports(),
{
    law_stream_channel(msg.headers@, t);
}

/// What an exchange asks for: the handler gets the frame that was received, the frame that the
/// handler gave is sent, and the answer has the size of its payload.
pub proof fn law_exchange(exchange: &mut Exchange, event: Event, next: Step)
    requires
        call_ensures(Exchange::step, (exchange, event), next),
    ensures
        final(exchange).reports() == old(exchange).reports(),
        old(exchange).stage() is Receiving ==> (event matches Event::Received(frame) ==> {
            &&& final(exchange).stage() is Handling
            &&& next matches Step::Handle(f)
            &&& f@ == frame@
        }),
        old(exchange).stage() is Handling ==> (event matches Event::Handled(frame) ==> {
            &&& final(exchange).stage() == Stage::Sending(frame.payload@.len() as u64)
            &&& next matches Step::Send(f)
            &&& f@ == frame@
        }),
        old(exchange).stage() matches Stage::Sending(size) ==> event is Sent ==> {
            &&& final(exchange).stage() is Done
            &&& next matches Step::Respond(n)
            &&& n == size
        },
        old(exchange).stage() is Receiving ==> (event matches Event::RecvFailed(e) ==> {
            &&& final(exchange).stage() is Done
            &&& !old(exchange).reports() ==> next is Skip
            &&& old(exchange).reports() ==> (next matches Step::Fail(status) && status.code
                is DeadlineExceeded && status.message@ == "failed to read from shm: "@ + e@)
        }),
        old(exchange).stage() matches Stage::Sending(size) ==> (
        event matches Event::SendFailed(e) ==> {
            &&& final(exchange).stage() is Done
            &&& !old(exchange).reports() ==> (next matches Step::Respond(n) && n == size)
            &&& old(exchange).reports() ==> (next matches Step::Fail(status) && status.code
                is Internal && status.message@ == "failed to write response to shm: "@ + e@)
        }),
        old(exchange).stage() is Done ==> final(exchange).stage() is Done && next is Ignore,
{
}

/// Answers belong to what they answer: they have its stream id, and the size of the payload. The
/// answer to the last message of a stream is the last one, and nothing follows it.
pub proof fn law_answers(
    req: SendRequest,
    msg: StreamMessage,
    size: u64,
    sent: SendResponse,
    streamed: StreamMessage,
    delivered: bool,
    goes_on: bool,
)
    requires
        call_ensures(send_response, (&req, size), sent),
        call_ensures(stream_response, (&msg, size), streamed),
        call_ensures(stream_goes_on, (&msg, delivered), goes_on),
    ensures
        sent.stream_id == req.stream_id,
        sent.status == 0,
        sent.message@ == "ok"@,
        sent.response_payload_size == size,
        streamed.stream_id == msg.stream_id,
        streamed.headers@ == Map::<Seq<char>, Vec<u8>>::empty(),
        streamed.payload_size == size,
        streamed.end_stream == msg.end_stream,
        goes_on <==> delivered && !msg.end_stream,
{
}

} // verus!
