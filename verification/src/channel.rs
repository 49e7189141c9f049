//! High-level shared memory channel for request/response communication.
//!
//! `ShmChannel` wraps two ring buffers (send + receive) in shared memory
//! regions and provides a typed API using the `Frame` protocol.
//!
//! This is the building block for the gRPC data plane: the gRPC control plane
//! tells both sides which channel to use, and the channel carries the bulk data.
//!
//! ```text
//!   Client                          Server
//!     │                               │
//!     │── ShmChannel::send(frame) ──▶│  (data plane: /dev/shm ring)
//!     │◀── ShmChannel::recv()  ──────│
//!     │                               │
//!     │== gRPC: "process stream 1" ==▶│  (control plane: tiny protobuf)
//!     │◀= gRPC: "done, status ok" ===│
//! ```
//!
//! A channel does not own its regions, so every operation is handed the region
//! that it works on. It has no clock either: `send`, `recv` and `send_raw` make
//! one turn of a waiting loop and are told whether the deadline has passed. A
//! caller that moves bytes between the positions of a ring itself decides by
//! `send_turn`, `send_raw_turn` and `recv_turn`.

use crate::protocol;
use crate::protocol::{Frame, ProtocolError};
use crate::ring;
use crate::ring::RingBuf;
use crate::text;
use vstd::prelude::*;
use vstd::string::*;

verus! {

/// Configuration for creating a channel.
#[derive(Debug, Clone)]
pub struct ChannelConfig {
    /// Directory for shared memory files (e.g., "/dev/shm" or "/tmp").
    pub shm_dir: String,
    /// Name prefix for the shared memory files.
    pub name: String,
    /// Size of each ring buffer in bytes. Will be rounded down to a power of 2.
    /// Must be larger than the maximum frame size.
    pub ring_size: usize,
}

/// Ring size of a channel unless something else is asked for: 64 MiB.
pub const DEFAULT_RING_SIZE: usize = 67108864;

/// Where shared memory files go unless something else is asked for.
pub open spec fn default_dir(linux: bool) -> Seq<char> {
    if linux {
        "/dev/shm"@
    } else {
        "/tmp"@
    }
}

/// Where shared memory files go unless something else is asked for: the memory file
/// system of Linux, or the directory for temporary files elsewhere.
pub fn default_shm_dir(linux: bool) -> (dir: String)
    ensures
        dir@ == default_dir(linux),
{
    if linux {
        "/dev/shm".to_owned()
    } else {
        "/tmp".to_owned()
    }
}

impl ChannelConfig {
    /// The default configuration on Linux or elsewhere.
    pub fn for_platform(linux: bool) -> (config: ChannelConfig)
        ensures
            config.shm_dir@ == default_dir(linux),
            config.name@ == "shm_channel"@,
            config.ring_size == DEFAULT_RING_SIZE,
    {
        ChannelConfig {
            shm_dir: default_shm_dir(linux),
            name: "shm_channel".to_owned(),
            ring_size: DEFAULT_RING_SIZE,
        }
    }
}

/// Length of a region whose ring is as large as a ring size asks for: the size rounded down
/// to a power of two, and the ring's header.
pub open spec fn region_len(ring_size: usize) -> nat {
    ring::floor_pow2(ring_size as nat) + ring::HEADER_SIZE as nat
}

/// Length of a region whose ring is as large as a ring size asks for.
pub fn region_size(ring_size: usize) -> (n: usize)
    ensures
        n == region_len(ring_size),
        n == ring::floor_pow2(ring_size as nat) + ring::HEADER_SIZE,
{
    let power: usize = ring::floor_power(ring_size);
    proof {
        ring::lemma_power_leaves_room(power);
    }
    power + ring::HEADER_SIZE
}

/// Name of the file that carries frames from the server to the client.
pub open spec fn s2c_name(name: Seq<char>) -> Seq<char> {
    name + "_s2c"@
}

/// Name of the file that carries frames from the client to the server.
pub open spec fn c2s_name(name: Seq<char>) -> Seq<char> {
    name + "_c2s"@
}

/// Name of the file that one side writes.
pub open spec fn tx_name(name: Seq<char>, server: bool) -> Seq<char> {
    if server {
        s2c_name(name)
    } else {
        c2s_name(name)
    }
}

/// Name of the file that one side reads.
pub open spec fn rx_name(name: Seq<char>, server: bool) -> Seq<char> {
    if server {
        c2s_name(name)
    } else {
        s2c_name(name)
    }
}

/// Name of the file that one side of the channel `name` writes.
pub fn tx_file(name: &str, server: bool) -> (file: String)
    ensures
        file@ == tx_name(name@, server),
{
    if server {
        text::join_texts(name, "_s2c")
    } else {
        text::join_texts(name, "_c2s")
    }
}

/// Name of the file that one side of the channel `name` reads.
pub fn rx_file(name: &str, server: bool) -> (file: String)
    ensures
        file@ == rx_name(name@, server),
{
    tx_file(name, !server)
}

/// Why a channel operation failed.
#[derive(Debug)]
pub enum ChannelError {
    /// The send ring stayed full until the deadline.
    SendTimeout,
    /// The send ring stayed full until the deadline, for bytes sent as they are.
    SendRawTimeout,
    /// Nothing arrived until the deadline.
    RecvTimeout,
    /// What arrived is not a frame.
    InvalidFrame(ProtocolError),
}

/// The kinds of I/O error that channel errors are reported as.
#[derive(Debug, Clone, Copy, PartialEq, Eq, Structural)]
pub enum ChannelErrorKind {
    TimedOut,
    InvalidData,
}

/// The words for a channel error.
pub open spec fn channel_error_text(error: ChannelError) -> Seq<char> {
    match error {
        ChannelError::SendTimeout => "send timeout: ring buffer full"@,
        ChannelError::SendRawTimeout => "send_raw timeout"@,
        ChannelError::RecvTimeout => "recv timeout: no data"@,
        ChannelError::InvalidFrame(e) => protocol::error_text(e),
    }
}

impl ChannelError {
    /// The kind of I/O error that this is reported as.
    pub fn kind(&self) -> (kind: ChannelErrorKind)
        ensures
            kind == match *self {
                ChannelError::InvalidFrame(_) => ChannelErrorKind::InvalidData,
                _ => ChannelErrorKind::TimedOut,
            },
    {
        match self {
            ChannelError::InvalidFrame(_) => ChannelErrorKind::InvalidData,
            _ => ChannelErrorKind::TimedOut,
        }
    }

    /// The error in words.
    pub fn message(&self) -> (words: String)
        ensures
            words@ == channel_error_text(*self),
    {
        match self {
            ChannelError::SendTimeout => "send timeout: ring buffer full".to_owned(),
            ChannelError::SendRawTimeout => "send_raw timeout".to_owned(),
            ChannelError::RecvTimeout => "recv timeout: no data".to_owned(),
            ChannelError::InvalidFrame(e) => e.message(),
        }
    }
}

/// Outcome of one turn of a loop that waits for space.
#[derive(Debug)]
pub enum SendTurn {
    /// The bytes are in the ring.
    Sent,
    /// The ring is full and there is still time: yield and try again.
    Wait,
    /// The ring is full and the deadline has passed.
    Failed(ChannelError),
}

/// Outcome of one turn of a loop that waits for a frame.
#[derive(Debug)]
pub enum RecvTurn {
    /// A frame arrived.
    Received(Frame),
    /// Nothing arrived and there is still time: yield and try again.
    Wait,
    /// Nothing arrived and the deadline has passed, or what arrived is not a frame.
    Failed(ChannelError),
}

/// What comes of a turn of sending: the bytes are in the ring, or they are not and the
/// deadline has passed or has not.
pub fn send_turn(pushed: bool, expired: bool) -> (turn: SendTurn)
    ensures
        turn == if pushed {
            SendTurn::Sent
        } else if expired {
            SendTurn::Failed(ChannelError::SendTimeout)
        } else {
            SendTurn::Wait
        },
{
    if pushed {
        SendTurn::Sent
    } else if expired {
        SendTurn::Failed(ChannelError::SendTimeout)
    } else {
        SendTurn::Wait
    }
}

/// What comes of a turn of sending bytes as they are.
pub fn send_raw_turn(pushed: bool, expired: bool) -> (turn: SendTurn)
    ensures
        turn == if pushed {
            SendTurn::Sent
        } else if expired {
            SendTurn::Failed(ChannelError::SendRawTimeout)
        } else {
            SendTurn::Wait
        },
{
    if pushed {
        SendTurn::Sent
    } else if expired {
        SendTurn::Failed(ChannelError::SendRawTimeout)
    } else {
        SendTurn::Wait
    }
}

/// Whether a turn of receiving is the one for the message that came out of the ring, if one
/// did: its frame, or that it is not a frame; a failure once the deadline has passed.
pub open spec fn recv_result(turn: RecvTurn, message: Option<Seq<u8>>, expired: bool) -> bool {
    match message {
        Some(bytes) => match protocol::decoded_frame(bytes) {
            Ok(view) => turn matches RecvTurn::Received(frame) && frame@ == view,
            Err(e) => turn == RecvTurn::Failed(ChannelError::InvalidFrame(e)),
        },
        None => turn == if expired {
            RecvTurn::Failed(ChannelError::RecvTimeout)
        } else {
            RecvTurn::Wait
        },
    }
}

/// What comes of a turn of receiving, from the message that came out of the ring, if one did.
pub fn recv_turn(message: Option<&[u8]>, expired: bool) -> (turn: RecvTurn)
    ensures
        match message {
            Some(bytes) => match protocol::decoded_frame(bytes@) {
                Ok(view) => turn matches RecvTurn::Received(frame) && frame@ == view,
                Err(e) => turn == RecvTurn::Failed(ChannelError::InvalidFrame(e)),
            },
            None => turn == if expired {
                RecvTurn::Failed(ChannelError::RecvTimeout)
            } else {
                RecvTurn::Wait
            },
        },
        recv_result(
            turn,
            match message {
                Some(bytes) => Some(bytes@),
                None => None,
            },
            expired,
        ),
{
    match message {
        Some(bytes) => match Frame::decode(bytes) {
            Ok(frame) => RecvTurn::Received(frame),
            Err(e) => RecvTurn::Failed(ChannelError::InvalidFrame(e)),
        },
        None => if expired {
            RecvTurn::Failed(ChannelError::RecvTimeout)
        } else {
            RecvTurn::Wait
        },
    }
}

/// A bidirectional shared memory channel.
///
/// Two rings (send + receive) with Frame-level send/recv.
/// The server creates the channel; the client opens it.
pub struct ShmChannel {
    tx_ring: RingBuf,
    rx_ring: RingBuf,
    config: ChannelConfig,
    is_server: bool,
    owns_files: bool,
}

impl ShmChannel {
    /// The ring that this side writes.
    pub closed spec fn tx(&self) -> RingBuf {
        self.tx_ring
    }

    /// The ring that this side reads.
    pub closed spec fn rx(&self) -> RingBuf {
        self.rx_ring
    }

    /// The configuration that the channel was made with.
    pub closed spec fn spec_config(&self) -> ChannelConfig {
        self.config
    }

    /// Whether this is the side that made the channel.
    pub closed spec fn server_side(&self) -> bool {
        self.is_server
    }

    /// Whether this side removes the files when it is done with the channel.
    pub closed spec fn owner(&self) -> bool {
        self.owns_files
    }

    pub open spec fn wf(&self) -> bool {
        &&& self.tx().wf()
        &&& self.rx().wf()
    }

    /// Makes a new channel (server side) over the regions of its two files, which have the
    /// length that the ring size asks for. Initializes the ring buffers.
    pub fn create(config: ChannelConfig, tx_region: &mut [u8], rx_region: &mut [u8]) -> (channel:
        ShmChannel)
        requires
            config.ring_size >= 2,
            old(tx_region)@.len() == region_len(config.ring_size),
            old(rx_region)@.len() == region_len(config.ring_size),
        ensures
            channel.wf(),
            channel.server_side(),
            channel.owner(),
            channel.spec_config() == config,
            channel.tx().cap() == ring::floor_pow2(config.ring_size as nat),
            channel.rx().cap() == ring::floor_pow2(config.ring_size as nat),
            final(tx_region)@.len() == old(tx_region)@.len(),
            final(rx_region)@.len() == old(rx_region)@.len(),
            channel.tx().holds(final(tx_region)@, Seq::empty()),
            channel.rx().holds(final(rx_region)@, Seq::empty()),
    {
        proof {
            law_ring_size_is_kept(config.ring_size);
        }
        let tx_ring = RingBuf::new(tx_region.len());
        let rx_ring = RingBuf::new(rx_region.len());
        tx_ring.init(tx_region);
        rx_ring.init(rx_region);
        ShmChannel { tx_ring, rx_ring, config, is_server: true, owns_files: true }
    }

    /// Opens an existing channel (client side) over the regions of its two files. Does NOT
    /// initialize rings.
    pub fn open(config: ChannelConfig, tx_region: &[u8], rx_region: &[u8]) -> (channel: ShmChannel)
        requires
            tx_region@.len() >= ring::HEADER_SIZE + 2,
            rx_region@.len() >= ring::HEADER_SIZE + 2,
        ensures
            channel.wf(),
            !channel.server_side(),
            !channel.owner(),
            channel.spec_config() == config,
            channel.tx().cap() == ring::floor_pow2((tx_region@.len() - ring::HEADER_SIZE) as nat),
            channel.rx().cap() == ring::floor_pow2((rx_region@.len() - ring::HEADER_SIZE) as nat),
            channel.tx().fits(tx_region@),
            channel.rx().fits(rx_region@),
    {
        let tx_ring = RingBuf::new(tx_region.len());
        let rx_ring = RingBuf::new(rx_region.len());
        ShmChannel { tx_ring, rx_ring, config, is_server: false, owns_files: false }
    }

    /// One turn of sending a frame: it is sent if there is space; if not, the turn fails
    /// once the deadline has passed.
    pub fn send(&self, tx_region: &mut [u8], frame: &Frame, expired: bool) -> (turn: SendTurn)
        requires
            self.wf(),
            self.tx().consistent(old(tx_region)@),
        ensures
            turn is Sent <==> 4 + frame@.encoded().len() <= self.tx().cap() - self.tx().unread(
                old(tx_region)@,
            ).len(),
            if self.tx().has_room(old(tx_region)@, frame@.encoded().len()) {
                &&& turn is Sent
                &&& self.tx().appended(old(tx_region)@, final(tx_region)@, frame@.encoded())
            } else {
                &&& turn == if expired {
                    SendTurn::Failed(ChannelError::SendTimeout)
                } else {
                    SendTurn::Wait
                }
                &&& final(tx_region)@ == old(tx_region)@
            },
    {
        let encoded = frame.encode();
        send_turn(self.tx_ring.push(tx_region, encoded.as_slice()), expired)
    }

    /// Tries to send a frame without blocking. Returns false if the ring is full.
    pub fn try_send(&self, tx_region: &mut [u8], frame: &Frame) -> (sent: bool)
        requires
            self.wf(),
            self.tx().consistent(old(tx_region)@),
        ensures
            sent == self.tx().has_room(old(tx_region)@, frame@.encoded().len()),
            sent <==> 4 + frame@.encoded().len() <= self.tx().cap() - self.tx().unread(
                old(tx_region)@,
            ).len(),
            sent ==> self.tx().appended(old(tx_region)@, final(tx_region)@, frame@.encoded()),
            !sent ==> final(tx_region)@ == old(tx_region)@,
    {
        let encoded = frame.encode();
        self.tx_ring.push(tx_region, encoded.as_slice())
    }

    /// One turn of receiving a frame. A message that is not a frame is taken from the ring
    /// and reported.
    pub fn recv(&self, rx_region: &mut [u8], expired: bool) -> (turn: RecvTurn)
        requires
            self.wf(),
            self.rx().consistent(old(rx_region)@),
        ensures
            recv_result(turn, ring::first_message(self.rx().unread(old(rx_region)@)), expired),
            match ring::first_message(self.rx().unread(old(rx_region)@)) {
                Some(bytes) => match protocol::decoded_frame(bytes) {
                    Ok(view) => turn matches RecvTurn::Received(frame) && frame@ == view,
                    Err(e) => turn == RecvTurn::Failed(ChannelError::InvalidFrame(e)),
                },
                None => turn == if expired {
                    RecvTurn::Failed(ChannelError::RecvTimeout)
                } else {
                    RecvTurn::Wait
                },
            },
            match ring::first_message(self.rx().unread(old(rx_region)@)) {
                Some(bytes) => self.rx().taken(old(rx_region)@, final(rx_region)@, bytes),
                None => final(rx_region)@ == old(rx_region)@,
            },
    {
        let mut buf: Vec<u8> = Vec::new();
        if self.rx_ring.pop(rx_region, &mut buf) {
            recv_turn(Some(buf.as_slice()), expired)
        } else {
            recv_turn(None, expired)
        }
    }

    /// Tries to receive a frame without blocking. Returns None if nothing is there, and if
    /// the message that was there is not a frame.
    pub fn try_recv(&self, rx_region: &mut [u8]) -> (frame: Option<Frame>)
        requires
            self.wf(),
            self.rx().consistent(old(rx_region)@),
        ensures
            match ring::first_message(self.rx().unread(old(rx_region)@)) {
                Some(bytes) => {
                    &&& self.rx().taken(old(rx_region)@, final(rx_region)@, bytes)
                    &&& match protocol::decoded_frame(bytes) {
                        Ok(view) => frame matches Some(f) && f@ == view,
                        Err(_) => frame is None,
                    }
                },
                None => frame is None && final(rx_region)@ == old(rx_region)@,
            },
    {
        let mut buf: Vec<u8> = Vec::new();
        if self.rx_ring.pop(rx_region, &mut buf) {
            match Frame::decode(buf.as_slice()) {
                Ok(frame) => Some(frame),
                Err(_) => None,
            }
        } else {
            None
        }
    }

    /// One turn of sending pre-encoded bytes as they are (avoids double-encode for
    /// forwarding).
    pub fn send_raw(&self, tx_region: &mut [u8], data: &[u8], expired: bool) -> (turn: SendTurn)
        requires
            self.wf(),
            self.tx().consistent(old(tx_region)@),
        ensures
            turn is Sent <==> 4 + data@.len() <= self.tx().cap() - self.tx().unread(
                old(tx_region)@,
            ).len(),
            if self.tx().has_room(old(tx_region)@, data@.len()) {
                &&& turn is Sent
                &&& self.tx().appended(old(tx_region)@, final(tx_region)@, data@)
            } else {
                &&& turn == if expired {
                    SendTurn::Failed(ChannelError::SendRawTimeout)
                } else {
                    SendTurn::Wait
                }
                &&& final(tx_region)@ == old(tx_region)@
            },
    {
        send_raw_turn(self.tx_ring.push(tx_region, data), expired)
    }

    /// Available bytes to read.
    pub fn available(&self, rx_region: &[u8]) -> (n: usize)
        requires
            self.rx().consistent(rx_region@),
        ensures
            n == self.rx().unread(rx_region@).len(),
    {
        self.rx_ring.available(rx_region)
    }

    /// Free space in the send ring.
    pub fn send_free(&self, tx_region: &[u8]) -> (n: usize)
        requires
            self.tx().consistent(tx_region@),
        ensures
            n == self.tx().cap() - self.tx().unread(tx_region@).len(),
    {
        self.tx_ring.free_space(tx_region)
    }

    /// Ring buffer capacity.
    pub fn capacity(&self) -> (n: usize)
        ensures
            n == self.tx().cap(),
    {
        self.tx_ring.capacity()
    }

    /// The shm directory this channel uses.
    pub fn shm_dir(&self) -> (dir: &str)
        ensures
            dir@ == self.spec_config().shm_dir@,
    {
        self.config.shm_dir.as_str()
    }

    /// The channel name.
    pub fn name(&self) -> (name: &str)
        ensures
            name@ == self.spec_config().name@,
    {
        self.config.name.as_str()
    }

    /// Whether this side removes the files when it is done with the channel: the one that made
    /// the channel does, unless it left them to another.
    pub fn owns_files(&self) -> (owns: bool)
        ensures
            owns == self.owner(),
    {
        self.owns_files
    }

    /// Leaves the files to another channel that was made over them.
    pub fn release_files(&mut self)
        ensures
            !final(self).owner(),
            final(self).tx() == old(self).tx(),
            final(self).rx() == old(self).rx(),
            final(self).spec_config() == old(self).spec_config(),
            final(self).server_side() == old(self).server_side(),
    {
        self.owns_files = false;
    }

    /// The ring that this side writes, for a caller that loads and stores positions itself.
    pub fn tx_ring(&self) -> (ring: &RingBuf)
        ensures
            *ring == self.tx(),
    {
        &self.tx_ring
    }

    /// The ring that this side reads, for a caller that loads and stores positions itself.
    pub fn rx_ring(&self) -> (ring: &RingBuf)
        ensures
            *ring == self.rx(),
    {
        &self.rx_ring
    }

    /// Paths of the two shared memory files: server-to-client first.
    pub fn file_paths(&self) -> (paths: (String, String))
        ensures
            paths.0@ == text::joined_path(
                self.spec_config().shm_dir@,
                s2c_name(self.spec_config().name@),
            ),
            paths.1@ == text::joined_path(
                self.spec_config().shm_dir@,
                c2s_name(self.spec_config().name@),
            ),
    {
        (
            text::join_path(self.shm_dir(), tx_file(self.name(), true).as_str()),
            text::join_path(self.shm_dir(), tx_file(self.name(), false).as_str()),
        )
    }
}

/// The two sides of a channel use the same two files, each one writing the file that the
/// other reads.
pub proof fn law_peer_files(name: Seq<char>, server: bool)
    ensures
        tx_name(name, server) == rx_name(name, !server),
        rx_name(name, server) == tx_name(name, !server),
        tx_name(name, server) != rx_name(name, server),
{
    reveal_strlit("_s2c");
    reveal_strlit("_c2s");
    assert(s2c_name(name)[name.len() as int + 1] == 's');
    assert(c2s_name(name)[name.len() as int + 1] == 'c');
}

/// A ring size is rounded down to a power of two and nothing else is taken off: a region of
/// the length that goes with it holds a ring of that capacity, less than half is lost, and a
/// power of two stays as it is.
pub proof fn law_ring_size_is_kept(ring_size: usize)
    requires
        ring_size >= 2,
    ensures
        ring::floor_pow2((region_len(ring_size) - ring::HEADER_SIZE) as nat) == ring::floor_pow2(
            ring_size as nat,
        ),
        2 <= ring::floor_pow2(ring_size as nat) <= ring_size < 2 * ring::floor_pow2(
            ring_size as nat,
        ),
        ring::is_power_of_two(ring_size as nat) ==> ring::floor_pow2(ring_size as nat)
            == ring_size,
{
    let power = ring::floor_pow2(ring_size as nat);
    ring::law_floor_pow2(ring_size as nat);
    ring::law_power_of_two_is_kept(power);
    if ring::is_power_of_two(ring_size as nat) {
        ring::law_power_of_two_is_kept(ring_size as nat);
    }
}

/// The two sides of a channel see one ring in each region.
pub proof fn law_peer_rings(server: ShmChannel, client: ShmChannel)
    requires
        server.wf(),
        client.wf(),
        server.tx().cap() == client.rx().cap(),
        server.rx().cap() == client.tx().cap(),
    ensures
        server.tx() == client.rx(),
        server.rx() == client.tx(),
{
    ring::law_ring_by_capacity(server.tx(), client.rx());
    ring::law_ring_by_capacity(server.rx(), client.tx());
}

/// The bytes of a list of frames, one message each.
pub open spec fn frame_messages(frames: Seq<protocol::FrameView>) -> Seq<Seq<u8>> {
    Seq::new(frames.len(), |i: int| frames[i].encoded())
}

/// Frames are delivered unchanged and in order, the sender's half: a frame that was sent
/// comes after those that were on their way.
pub proof fn law_send_appends(
    ring: RingBuf,
    before: Seq<u8>,
    after: Seq<u8>,
    frames: Seq<protocol::FrameView>,
    frame: protocol::FrameView,
)
    requires
        ring.holds(before, frame_messages(frames)),
        ring.appended(before, after, frame.encoded()),
    ensures
        ring.holds(after, frame_messages(frames.push(frame))),
{
    ring::law_push_appends(ring, before, after, frame_messages(frames), frame.encoded());
    assert(frame_messages(frames).push(frame.encoded()) =~= frame_messages(frames.push(frame)));
}

/// Frames are delivered unchanged and in order, the receiver's half: while frames are on
/// their way, the oldest one is received as it was sent, and the others stay on their way.
/// This speaks of a frame whose lengths fit their fields and which takes less than 2^32 bytes.
pub proof fn law_recv_takes_oldest(
    ring: RingBuf,
    before: Seq<u8>,
    after: Seq<u8>,
    frames: Seq<protocol::FrameView>,
    turn: RecvTurn,
    expired: bool,
)
    requires
        ring.holds(before, frame_messages(frames)),
        frames.len() > 0,
        frames[0].transmissible(),
        frames[0].encoded().len() < 0x1_0000_0000,
        recv_result(turn, ring::first_message(ring.unread(before)), expired),
    ensures
        turn matches RecvTurn::Received(frame) && frame@ == frames[0],
        ring::first_message(ring.unread(before)) == Some(frames[0].encoded()),
        ring.taken(before, after, frames[0].encoded()) ==> ring.holds(
            after,
            frame_messages(frames.drop_first()),
        ),
{
    let messages = frame_messages(frames);
    ring::law_pop_takes_oldest(ring, before, after, messages);
    assert(messages.drop_first() =~= frame_messages(frames.drop_first()));
    lemma_frame_decodes(frames[0]);
}

/// The bytes of a frame alone decode to the frame.
proof fn lemma_frame_decodes(frame: protocol::FrameView)
    requires
        frame.transmissible(),
    ensures
        protocol::decoded_frame(frame.encoded()) == Ok::<protocol::FrameView, ProtocolError>(frame),
{
    protocol::law_frame_round_trip(frame, Seq::empty());
    assert(frame.encoded() + Seq::empty() =~= frame.encoded());
}

/// What is sent is what is received: the messages of frames that were sent one after the
/// other over an empty ring, and then taken from it one after the other, decode to those
/// frames, in their order. This speaks of frames whose lengths fit their fields and which take
/// less than 2^32 bytes each.
pub proof fn law_frames_are_delivered(
    ring: RingBuf,
    sending: Seq<Seq<u8>>,
    receiving: Seq<Seq<u8>>,
    frames: Seq<protocol::FrameView>,
    found: Seq<Seq<u8>>,
)
    requires
        ring::pushed_one_by_one(ring, sending, frame_messages(frames)),
        ring::popped_one_by_one(ring, receiving, found),
        ring.holds(sending[0], Seq::empty()),
        receiving[0] == sending.last(),
        found.len() == frames.len(),
        forall|i: int|
            0 <= i < frames.len() ==> (#[trigger] frames[i]).transmissible()
                && frames[i].encoded().len() < 0x1_0000_0000,
    ensures
        forall|i: int|
            0 <= i < frames.len() ==> protocol::decoded_frame(#[trigger] found[i]) == Ok::<
                protocol::FrameView,
                ProtocolError,
            >(frames[i]),
        ring.holds(receiving.last(), Seq::empty()),
{
    let messages = frame_messages(frames);
    ring::law_pushes_queue_up(ring, sending, Seq::empty(), messages);
    assert(Seq::<Seq<u8>>::empty() + messages =~= messages);
    assert forall|i: int| 0 <= i < messages.len() implies (#[trigger] messages[i]).len()
        < 0x1_0000_0000 by {
        assert(frames[i].transmissible());
    }
    ring::law_pops_drain(ring, receiving, messages, found);
    assert forall|i: int| 0 <= i < frames.len() implies protocol::decoded_frame(
        #[trigger] found[i],
    ) == Ok::<protocol::FrameView, ProtocolError>(frames[i]) by {
        assert(found[i] == frames[i].encoded());
        assert(frames[i].transmissible());
        lemma_frame_decodes(frames[i]);
    }
}

/// Receiving from a channel on which nothing is on its way fails with a timeout once the
/// deadline has passed, and waits until then.
pub proof fn law_empty_channel_times_out(
    ring: RingBuf,
    region: Seq<u8>,
    turn: RecvTurn,
    expired: bool,
)
    requires
        ring.holds(region, Seq::empty()),
        recv_result(turn, ring::first_message(ring.unread(region)), expired),
    ensures
        turn == if expired {
            RecvTurn::Failed(ChannelError::RecvTimeout)
        } else {
            RecvTurn::Wait
        },
{
    ring::law_pop_of_empty(ring, region);
}

/// What arrived decides a turn of receiving, whether or not the deadline has passed: the frame
/// that was encoded, whatever follows it, or the reason why the bytes are no frame. A turn waits
/// or times out only where nothing arrived.
pub proof fn law_frame_is_received(
    frame: protocol::FrameView,
    rest: Seq<u8>,
    message: Option<Seq<u8>>,
    turn: RecvTurn,
    expired: bool,
)
    ensures
        frame.transmissible() && recv_result(turn, Some(frame.encoded() + rest), expired) ==> (
        turn matches RecvTurn::Received(f) && f@ == frame),
        frame.transmissible() && recv_result(turn, Some(frame.encoded()), expired) ==> (
        turn matches RecvTurn::Received(f) && f@ == frame),
        message is Some && recv_result(turn, message, expired) ==> !(turn is Wait) && turn
            != RecvTurn::Failed(ChannelError::RecvTimeout),
        message is Some && protocol::decoded_frame(message.unwrap()) is Err && recv_result(
            turn,
            message,
            expired,
        ) ==> turn == RecvTurn::Failed(
            ChannelError::InvalidFrame(protocol::decoded_frame(message.unwrap())->Err_0),
        ),
        recv_result(turn, None, expired) ==> turn == if expired {
            RecvTurn::Failed(ChannelError::RecvTimeout)
        } else {
            RecvTurn::Wait
        },
{
    if frame.transmissible() {
        protocol::law_frame_round_trip(frame, rest);
        lemma_frame_decodes(frame);
    }
}

/// A region takes the ring and the 128 bytes of its header.
pub proof fn law_region_length(ring_size: usize)
    ensures
        region_len(ring_size) == ring::floor_pow2(ring_size as nat) + 128,
{
}

/// The files of a channel: the server writes `_s2c` and reads `_c2s`, the client the reverse.
pub proof fn law_file_names(name: Seq<char>)
    ensures
        s2c_name(name) == name + "_s2c"@,
        c2s_name(name) == name + "_c2s"@,
        tx_name(name, true) == name + "_s2c"@,
        rx_name(name, true) == name + "_c2s"@,
        tx_name(name, false) == name + "_c2s"@,
        rx_name(name, false) == name + "_s2c"@,
{
}

/// What a channel is made with if nothing is asked for.
pub proof fn law_channel_defaults()
    ensures
        default_dir(true) == "/dev/shm"@,
        default_dir(false) == "/tmp"@,
        DEFAULT_RING_SIZE == 67108864,
{
}

/// The words for each channel error.
pub proof fn law_channel_error_words(error: ProtocolError)
    ensures
        channel_error_text(ChannelError::SendTimeout) == "send timeout: ring buffer full"@,
        channel_error_text(ChannelError::SendRawTimeout) == "send_raw timeout"@,
        channel_error_text(ChannelError::RecvTimeout) == "recv timeout: no data"@,
        channel_error_text(ChannelError::InvalidFrame(error)) == protocol::error_text(error),
{
}

/// The messages of a list of frames are their bytes, one message each, in order.
pub proof fn law_messages_of_frames(frames: Seq<protocol::FrameView>, frame: protocol::FrameView)
    ensures
        frame_messages(Seq::empty()) == Seq::<Seq<u8>>::empty(),
        frame_messages(frames.push(frame)) == frame_messages(frames).push(frame.encoded()),
{
    assert(frame_messages(Seq::empty()) =~= Seq::empty());
    assert(frame_messages(frames.push(frame)) =~= frame_messages(frames).push(frame.encoded()));
}

// ─── What the operations do ──────────────────────────────────────────────────

/// A turn of sending has sent the frame exactly if there is space for it, and only a turn that has
/// not fails, with a timeout, once the deadline has passed. A frame that was sent comes after those
/// that are on their way.
pub proof fn law_send(
    channel: ShmChannel,
    region: &mut [u8],
    frame: Frame,
    expired: bool,
    turn: SendTurn,
    frames: Seq<protocol::FrameView>,
)
    requires
        call_ensures(ShmChannel::send, (&channel, region, &frame, expired), turn),
        channel.wf(),
        channel.tx().holds(old(region)@, frame_messages(frames)),
    ensures
        turn is Sent <==> 4 + frame@.encoded().len() + channel.tx().unread(old(region)@).len()
            <= channel.tx().cap(),
        turn is Sent ==> channel.tx().holds(final(region)@, frame_messages(frames.push(frame@))),
        !(turn is Sent) ==> final(region)@ == old(region)@,
        turn is Wait ==> !expired,
        turn is Failed ==> expired && turn == SendTurn::Failed(ChannelError::SendTimeout),
{
    if turn is Sent {
        law_send_appends(channel.tx(), old(region)@, final(region)@, frames, frame@);
    }
}

/// A turn of sending bytes as they are does the same, and fails with an error of its own.
pub proof fn law_send_raw(
    channel: ShmChannel,
    region: &mut [u8],
    data: &[u8],
    expired: bool,
    turn: SendTurn,
    messages: Seq<Seq<u8>>,
)
    requires
        call_ensures(ShmChannel::send_raw, (&channel, region, data, expired), turn),
        channel.wf(),
        channel.tx().holds(old(region)@, messages),
    ensures
        turn is Sent <==> 4 + data@.len() + channel.tx().unread(old(region)@).len()
            <= channel.tx().cap(),
        turn is Sent ==> channel.tx().holds(final(region)@, messages.push(data@)),
        !(turn is Sent) ==> final(region)@ == old(region)@,
        turn is Wait ==> !expired,
        turn is Failed ==> expired && turn == SendTurn::Failed(ChannelError::SendRawTimeout),
{
    if turn is Sent {
        ring::law_push_appends(channel.tx(), old(region)@, final(region)@, messages, data@);
    }
}

/// Trying to send does what a turn of sending does, and says whether the frame was sent.
pub proof fn law_try_send(
    channel: ShmChannel,
    region: &mut [u8],
    frame: Frame,
    sent: bool,
    frames: Seq<protocol::FrameView>,
)
    requires
        call_ensures(ShmChannel::try_send, (&channel, region, &frame), sent),
        channel.wf(),
        channel.tx().holds(old(region)@, frame_messages(frames)),
    ensures
        sent <==> 4 + frame@.encoded().len() + channel.tx().unread(old(region)@).len()
            <= channel.tx().cap(),
        sent ==> channel.tx().holds(final(region)@, frame_messages(frames.push(frame@))),
        !sent ==> final(region)@ == old(region)@,
{
    if sent {
        law_send_appends(channel.tx(), old(region)@, final(region)@, frames, frame@);
    }
}

/// A turn of receiving gives the oldest frame that is on its way, whether or not the deadline has
/// passed, and waits or times out only where none is. This speaks of a frame whose lengths fit
/// their fields and which takes less than 2^32 bytes.
pub proof fn law_recv(
    channel: ShmChannel,
    region: &mut [u8],
    expired: bool,
    turn: RecvTurn,
    frames: Seq<protocol::FrameView>,
)
    requires
        call_ensures(ShmChannel::recv, (&channel, region, expired), turn),
        channel.wf(),
        channel.rx().holds(old(region)@, frame_messages(frames)),
        frames.len() > 0 ==> frames[0].transmissible() && frames[0].encoded().len() < 0x1_0000_0000,
    ensures
        frames.len() > 0 ==> {
            &&& turn matches RecvTurn::Received(frame)
            &&& frame@ == frames[0]
            &&& channel.rx().holds(final(region)@, frame_messages(frames.drop_first()))
        },
        frames.len() == 0 ==> {
            &&& final(region)@ == old(region)@
            &&& turn == if expired {
                RecvTurn::Failed(ChannelError::RecvTimeout)
            } else {
                RecvTurn::Wait
            }
        },
{
    if frames.len() > 0 {
        law_recv_takes_oldest(channel.rx(), old(region)@, final(region)@, frames, turn, expired);
    } else {
        assert(frame_messages(frames) =~= Seq::empty());
        law_empty_channel_times_out(channel.rx(), old(region)@, turn, expired);
        ring::law_pop_of_empty(channel.rx(), old(region)@);
    }
}

/// Trying to receive gives the oldest frame that is on its way, and nothing where none is.
pub proof fn law_try_recv(
    channel: ShmChannel,
    region: &mut [u8],
    found: Option<Frame>,
    frames: Seq<protocol::FrameView>,
)
    requires
        call_ensures(ShmChannel::try_recv, (&channel, region), found),
        channel.wf(),
        channel.rx().holds(old(region)@, frame_messages(frames)),
        frames.len() > 0 ==> frames[0].transmissible() && frames[0].encoded().len() < 0x1_0000_0000,
    ensures
        frames.len() > 0 ==> {
            &&& found matches Some(frame)
            &&& frame@ == frames[0]
            &&& channel.rx().holds(final(region)@, frame_messages(frames.drop_first()))
        },
        frames.len() == 0 ==> found is None && final(region)@ == old(region)@,
{
    let messages = frame_messages(frames);
    if frames.len() > 0 {
        ring::law_pop_takes_oldest(channel.rx(), old(region)@, final(region)@, messages);
        assert(messages.drop_first() =~= frame_messages(frames.drop_first()));
        lemma_frame_decodes(frames[0]);
    } else {
        assert(messages =~= Seq::empty());
        ring::law_pop_of_empty(channel.rx(), old(region)@);
    }
}

/// What comes of a turn of sending: it is over once the bytes are in the ring, and otherwise fails
/// exactly if the deadline has passed.
pub proof fn law_send_turns(pushed: bool, expired: bool, turn: SendTurn, raw_turn: SendTurn)
    requires
        call_ensures(send_turn, (pushed, expired), turn),
        call_ensures(send_raw_turn, (pushed, expired), raw_turn),
    ensures
        turn is Sent <==> pushed,
        raw_turn is Sent <==> pushed,
        !pushed && expired ==> turn == SendTurn::Failed(ChannelError::SendTimeout),
        !pushed && expired ==> raw_turn == SendTurn::Failed(ChannelError::SendRawTimeout),
        !pushed && !expired ==> turn is Wait && raw_turn is Wait,
{
}

/// Only bytes that are no frame are invalid data; every other failure is a timeout.
pub proof fn law_channel_error_kinds(error: ChannelError, kind: ChannelErrorKind)
    requires
        call_ensures(ChannelError::kind, (&error,), kind),
    ensures
        kind is InvalidData <==> error is InvalidFrame,
        kind is TimedOut <==> error is SendTimeout || error is SendRawTimeout || error
            is RecvTimeout,
{
}

/// The default configuration, written out.
pub proof fn law_default_channel(linux: bool, config: ChannelConfig)
    requires
        call_ensures(ChannelConfig::for_platform, (linux,), config),
    ensures
        config.name@ == "shm_channel"@,
        config.ring_size == 67108864,
        linux ==> config.shm_dir@ == "/dev/shm"@,
        !linux ==> config.shm_dir@ == "/tmp"@,
{
}

/// The paths of a channel's files are those of its two names in its directory, which do not depend
/// on the side.
pub proof fn law_channel_paths(
    channel: ShmChannel,
    paths: (String, String),
    dir: &str,
    name: &str,
)
    requires
        call_ensures(ShmChannel::file_paths, (&channel,), paths),
        call_ensures(ShmChannel::shm_dir, (&channel,), dir),
        call_ensures(ShmChannel::name, (&channel,), name),
    ensures
        paths.0@ == text::joined_path(dir@, name@ + "_s2c"@),
        paths.1@ == text::joined_path(dir@, name@ + "_c2s"@),
{
}

/// The server owns the files of a channel that it made, the client those of none, and a channel
/// that left its files to another owns them no longer.
pub proof fn law_file_owners(
    config: ChannelConfig,
    tx_region: &mut [u8],
    rx_region: &mut [u8],
    made: ShmChannel,
    opened: ShmChannel,
    channel: &mut ShmChannel,
    owners: (bool, bool, bool),
)
    requires
        call_ensures(ShmChannel::create, (config, tx_region, rx_region), made),
        call_ensures(ShmChannel::open, (config, &*final(tx_region), &*final(rx_region)), opened),
        call_ensures(ShmChannel::release_files, (channel,), ()),
        call_ensures(ShmChannel::owns_files, (&made,), owners.0),
        call_ensures(ShmChannel::owns_files, (&opened,), owners.1),
        call_ensures(ShmChannel::owns_files, (&*final(channel),), owners.2),
    ensures
        owners.0,
        !owners.1,
        !owners.2,
{
}

/// The names of the files that the two sides write and read, and the length of each.
pub proof fn law_files(
    name: &str,
    server_writes: String,
    server_reads: String,
    client_writes: String,
    client_reads: String,
    ring_size: usize,
    n: usize,
)
    requires
        call_ensures(tx_file, (name, true), server_writes),
        call_ensures(rx_file, (name, true), server_reads),
        call_ensures(tx_file, (name, false), client_writes),
        call_ensures(rx_file, (name, false), client_reads),
        call_ensures(region_size, (ring_size,), n),
    ensures
        server_writes@ == name@ + "_s2c"@,
        client_reads@ == name@ + "_s2c"@,
        client_writes@ == name@ + "_c2s"@,
        server_reads@ == name@ + "_c2s"@,
        n == ring::floor_pow2(ring_size as nat) + 128,
{
}

/// Each channel error in words.
pub proof fn law_channel_messages(error: ChannelError, words: String, reason: String)
    requires
        call_ensures(ChannelError::message, (&error,), words),
        error matches ChannelError::InvalidFrame(e) ==> call_ensures(
            ProtocolError::message,
            (&e,),
            reason,
        ),
    ensures
        error is SendTimeout ==> words@ == "send timeout: ring buffer full"@,
        error is SendRawTimeout ==> words@ == "send_raw timeout"@,
        error is RecvTimeout ==> words@ == "recv timeout: no data"@,
        error is InvalidFrame ==> words@ == reason@,
{
}

/// A channel that was made has two empty rings of one capacity, which is its ring size rounded down
/// to a power of two, and its name and directory are those that it was made with.
pub proof fn law_created_channel(
    config: ChannelConfig,
    tx_region: &mut [u8],
    rx_region: &mut [u8],
    channel: ShmChannel,
    capacity: usize,
    readable: usize,
    free: usize,
    dir: &str,
    name: &str,
)
    requires
        call_ensures(ShmChannel::create, (config, tx_region, rx_region), channel),
        call_ensures(ShmChannel::capacity, (&channel,), capacity),
        call_ensures(ShmChannel::available, (&channel, &*final(rx_region)), readable),
        call_ensures(ShmChannel::send_free, (&channel, &*final(tx_region)), free),
        call_ensures(ShmChannel::shm_dir, (&channel,), dir),
        call_ensures(ShmChannel::name, (&channel,), name),
        config.ring_size >= 2,
    ensures
        capacity <= config.ring_size < 2 * capacity,
        ring::is_power_of_two(capacity as nat),
        readable == 0,
        free == capacity,
        channel.tx().cap() == channel.rx().cap(),
        dir@ == config.shm_dir@,
        name@ == config.name@,
{
    law_ring_size_is_kept(config.ring_size);
    ring::law_pop_of_empty(channel.tx(), final(tx_region)@);
    ring::law_pop_of_empty(channel.rx(), final(rx_region)@);
}

/// A channel that was opened has the rings that its two regions have room for, and its name and
/// directory are those that it was opened with.
pub proof fn law_opened_channel(
    config: ChannelConfig,
    tx_region: &[u8],
    rx_region: &[u8],
    channel: ShmChannel,
    dir: &str,
    name: &str,
)
    requires
        call_ensures(ShmChannel::open, (config, tx_region, rx_region), channel),
        call_ensures(ShmChannel::shm_dir, (&channel,), dir),
        call_ensures(ShmChannel::name, (&channel,), name),
        tx_region@.len() >= 130,
        rx_region@.len() >= 130,
    ensures
        channel.wf(),
        channel.tx().cap() + 128 <= tx_region@.len() < 2 * channel.tx().cap() + 128,
        channel.rx().cap() + 128 <= rx_region@.len() < 2 * channel.rx().cap() + 128,
        dir@ == config.shm_dir@,
        name@ == config.name@,
{
    ring::law_floor_pow2((tx_region@.len() - 128) as nat);
    ring::law_floor_pow2((rx_region@.len() - 128) as nat);
}

} // verus!
