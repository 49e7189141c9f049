//! Logic of the client for the request/response server.

use crate::channel;
use crate::json;
use crate::protocol;
use crate::protocol::{Message, MessageType, ProtocolError};
use crate::ring;
use crate::ring::RingBuf;
use crate::server;
use crate::text;
use serde_json::Value;
use vstd::prelude::*;
use vstd::string::*;
use vstd::utf8::*;

verus! {

// ─── Requests ────────────────────────────────────────────────────────────────

/// The members of the command for an action and its data.
pub open spec fn action_members(action: Seq<char>, data: Option<Seq<char>>) -> Seq<
    (Seq<char>, Seq<char>),
> {
    match data {
        Some(d) => seq![("action"@, json::quoted(action)), ("data"@, json::quoted(d))],
        None => seq![("action"@, json::quoted(action))],
    }
}

/// The command that the server finds in the payload for an action and its data.
pub open spec fn action_command(action: Seq<char>, data: Option<Seq<char>>) -> server::CommandView {
    server::CommandView {
        action: Some(action),
        data: match data {
            Some(d) => Some(json::quoted(d)),
            None => None,
        },
    }
}

/// Payload of a request for an action. The server reads from it the action and the data
/// that were put in.
pub fn action_payload(action: &str, data: Option<&str>) -> (payload: Vec<u8>)
    ensures
        payload@ == encode_utf8(
            json::object_text(
                action_members(
                    action@,
                    match data {
                        Some(d) => Some(d@),
                        None => None,
                    },
                ),
            ),
        ),
        server::command_of(payload@) == Some(
            action_command(
                action@,
                match data {
                    Some(d) => Some(d@),
                    None => None,
                },
            ),
        ),
{
    let ghost given = match data {
        Some(d) => Some(d@),
        None => None,
    };
    let mut members: Vec<(String, Value)> = Vec::new();
    members.push(("action".to_owned(), json::string_value(action)));
    match data {
        Some(d) => {
            members.push(("data".to_owned(), json::string_value(d)));
        },
        None => {},
    }
    let ghost ms = json::member_texts(members@);
    proof {
        reveal_strlit("action");
        reveal_strlit("data");
        assert("action"@.len() != "data"@.len());
        assert(json::before("action"@, "data"@));
        assert(ms =~= action_members(action@, given));
        assert(json::ascending(ms));
    }
    let t = json::value_text(&json::object_value(members));
    proof {
        assert(json::all_strings(ms)) by {
            assert(ms[0].1 == json::quoted(action@));
            if given is Some {
                assert(ms[1].1 == json::quoted(given.unwrap()));
            }
        }
        let found = json::members_map(ms);
        assert(json::json_members(t@) == found);
        if given is Some {
            assert(ms.drop_last() =~= seq![("action"@, json::quoted(action@))]);
            assert(ms.drop_last().drop_last() =~= Seq::empty());
            assert(json::members_map(ms.drop_last().drop_last()) =~= Map::empty());
            assert(json::members_map(ms.drop_last()) =~= Map::empty().insert(
                "action"@,
                json::quoted(action@),
            ));
        } else {
            assert(ms.drop_last() =~= Seq::empty());
            assert(json::members_map(ms.drop_last()) =~= Map::empty());
        }
        json::law_string_literal(action@);
        assert(server::command_of_members(found) == action_command(action@, given));
        text::law_utf8_round_trip(t@);
    }
    text::text_bytes(t.as_str())
}

/// The request for an action and its data, under the given id.
pub open spec fn action_message(
    id: u64,
    action: Seq<char>,
    data: Option<Seq<char>>,
) -> protocol::MessageView {
    protocol::MessageView {
        request_id: id,
        msg_type: MessageType::Request,
        payload: encode_utf8(json::object_text(action_members(action, data))),
    }
}

/// The request that carries a text as it is, under the given id.
pub open spec fn raw_message(id: u64, t: Seq<char>) -> protocol::MessageView {
    protocol::MessageView {
        request_id: id,
        msg_type: MessageType::Request,
        payload: encode_utf8(t),
    }
}

/// The message that stops the server.
pub open spec fn shutdown_message() -> protocol::MessageView {
    protocol::MessageView {
        request_id: 0,
        msg_type: MessageType::Shutdown,
        payload: Seq::empty(),
    }
}

/// The id after `id`. Ids wrap round after 2^64 requests.
pub open spec fn id_after(id: u64) -> u64 {
    if id == u64::MAX {
        0
    } else {
        (id + 1) as u64
    }
}

/// A request for an action that the server knows is answered as that action, and one for
/// any other action with an error that names it.
pub proof fn law_action_is_answered(
    msg: protocol::MessageView,
    action: Seq<char>,
    data: Option<Seq<char>>,
    info: server::ServerInfo,
)
    requires
        server::command_of(msg.payload) == Some(action_command(action, data)),
    ensures
        ({
            let reply = server::reply_of(msg, server::command_of(msg.payload), info);
            &&& action == "ping"@ ==> reply.payload == encode_utf8(server::pong_text())
            &&& action == "info"@ ==> reply.payload == encode_utf8(server::info_text(info))
            &&& action == "echo"@ && data is Some ==> reply.payload == encode_utf8(
                server::echo_text(json::quoted(data.unwrap())),
            )
            &&& action != "ping"@ && action != "info"@ && action != "echo"@ ==> {
                &&& reply.msg_type is Error
                &&& reply.payload == encode_utf8("unknown action: "@ + action)
            }
        }),
{
    reveal_strlit("ping");
    reveal_strlit("info");
    reveal_strlit("echo");
    assert("ping"@[0] != "info"@[0] && "ping"@[0] != "echo"@[0] && "info"@[0] != "echo"@[0]);
}

/// Why a request failed.
#[derive(Debug)]
pub enum ClientError {
    /// There is no space for the request.
    RequestRingFull,
    /// No response arrived in time.
    ResponseTimeout,
    /// What arrived is not a message.
    InvalidResponse(ProtocolError),
}

/// The kinds of I/O error that client errors are reported as.
#[derive(Debug, Clone, Copy, PartialEq, Eq, Structural)]
pub enum ClientErrorKind {
    WouldBlock,
    TimedOut,
    InvalidData,
}

/// The words for a client error.
pub open spec fn client_error_text(error: ClientError) -> Seq<char> {
    match error {
        ClientError::RequestRingFull => "request ring full"@,
        ClientError::ResponseTimeout => "response timeout"@,
        ClientError::InvalidResponse(e) => "decode error: "@ + protocol::error_text(e),
    }
}

impl ClientError {
    /// The kind of I/O error that this is reported as.
    pub fn kind(&self) -> (kind: ClientErrorKind)
        ensures
            kind == match *self {
                ClientError::RequestRingFull => ClientErrorKind::WouldBlock,
                ClientError::ResponseTimeout => ClientErrorKind::TimedOut,
                ClientError::InvalidResponse(_) => ClientErrorKind::InvalidData,
            },
    {
        match self {
            ClientError::RequestRingFull => ClientErrorKind::WouldBlock,
            ClientError::ResponseTimeout => ClientErrorKind::TimedOut,
            ClientError::InvalidResponse(_) => ClientErrorKind::InvalidData,
        }
    }

    /// The error in words.
    pub fn message(&self) -> (words: String)
        ensures
            words@ == client_error_text(*self),
    {
        match self {
            ClientError::RequestRingFull => "request ring full".to_owned(),
            ClientError::ResponseTimeout => "response timeout".to_owned(),
            ClientError::InvalidResponse(e) => text::join_texts(
                "decode error: ",
                e.message().as_str(),
            ),
        }
    }
}

/// Outcome of one turn of the loop that waits for a response.
#[derive(Debug)]
pub enum ReplyTurn {
    /// A message arrived.
    Received(Message),
    /// Nothing arrived and there is still time: yield and try again.
    Wait,
    /// Nothing arrived in time, or what arrived is not a message.
    Failed(ClientError),
}

/// Whether a turn of waiting is the one for the bytes that came out of the response ring, if
/// any did: their message, or that they are none; a failure once the time is up.
pub open spec fn reply_result(turn: ReplyTurn, message: Option<Seq<u8>>, expired: bool) -> bool {
    match message {
        Some(bytes) => match protocol::decoded_message(bytes) {
            Ok(view) => turn matches ReplyTurn::Received(msg) && msg@ == view,
            Err(e) => turn == ReplyTurn::Failed(ClientError::InvalidResponse(e)),
        },
        None => turn == if expired {
            ReplyTurn::Failed(ClientError::ResponseTimeout)
        } else {
            ReplyTurn::Wait
        },
    }
}

/// What comes of a turn of waiting, from the bytes that came out of the response ring, if
/// any did.
pub fn reply_turn(message: Option<&[u8]>, expired: bool) -> (turn: ReplyTurn)
    ensures
        match message {
            Some(bytes) => match protocol::decoded_message(bytes@) {
                Ok(view) => turn matches ReplyTurn::Received(msg) && msg@ == view,
                Err(e) => turn == ReplyTurn::Failed(ClientError::InvalidResponse(e)),
            },
            None => turn == if expired {
                ReplyTurn::Failed(ClientError::ResponseTimeout)
            } else {
                ReplyTurn::Wait
            },
        },
        reply_result(
            turn,
            match message {
                Some(bytes) => Some(bytes@),
                None => None,
            },
            expired,
        ),
{
    match message {
        Some(bytes) => match Message::decode(bytes) {
            Ok(msg) => ReplyTurn::Received(msg),
            Err(e) => ReplyTurn::Failed(ClientError::InvalidResponse(e)),
        },
        None => if expired {
            ReplyTurn::Failed(ClientError::ResponseTimeout)
        } else {
            ReplyTurn::Wait
        },
    }
}

/// Whether a response is to be waited for, once the push of a message succeeded or not: there
/// is none to a shutdown.
pub fn awaits_reply(pushed: bool, msg: &Message) -> (awaited: Result<bool, ClientError>)
    ensures
        awaited == if pushed {
            Ok::<bool, ClientError>(!(msg.msg_type is Shutdown))
        } else {
            Err::<bool, ClientError>(ClientError::RequestRingFull)
        },
{
    if pushed {
        Ok(msg.msg_type != MessageType::Shutdown)
    } else {
        Err(ClientError::RequestRingFull)
    }
}

/// Name of the file that carries requests to the server `name`.
pub fn request_file(name: &str) -> (file: String)
    ensures
        file@ == name@ + "_req"@,
{
    text::join_texts(name, "_req")
}

/// Name of the file that carries responses from the server `name`.
pub fn response_file(name: &str) -> (file: String)
    ensures
        file@ == name@ + "_resp"@,
{
    text::join_texts(name, "_resp")
}

/// A client: the two rings that it shares with the server, and the id of its next request.
pub struct Client {
    req_ring: RingBuf,
    resp_ring: RingBuf,
    next_id: u64,
}

impl Client {
    /// The ring that carries requests.
    pub closed spec fn requests(&self) -> RingBuf {
        self.req_ring
    }

    /// The ring that carries responses.
    pub closed spec fn responses(&self) -> RingBuf {
        self.resp_ring
    }

    /// The id that the next request gets.
    pub closed spec fn upcoming_id(&self) -> u64 {
        self.next_id
    }

    pub open spec fn wf(&self) -> bool {
        &&& self.requests().wf()
        &&& self.responses().wf()
    }

    /// A client over the regions of the two files.
    pub fn open(req_region: &[u8], resp_region: &[u8]) -> (client: Client)
        requires
            req_region@.len() >= ring::HEADER_SIZE + 2,
            resp_region@.len() >= ring::HEADER_SIZE + 2,
        ensures
            client.wf(),
            client.requests().cap() == ring::floor_pow2(
                (req_region@.len() - ring::HEADER_SIZE) as nat,
            ),
            client.responses().cap() == ring::floor_pow2(
                (resp_region@.len() - ring::HEADER_SIZE) as nat,
            ),
            client.requests().fits(req_region@),
            client.responses().fits(resp_region@),
            client.upcoming_id() == 1,
    {
        let req_ring = RingBuf::new(req_region.len());
        let resp_ring = RingBuf::new(resp_region.len());
        Client { req_ring, resp_ring, next_id: 1 }
    }

    /// A fresh request id. Ids wrap round after 2^64 requests.
    pub fn next_id(&mut self) -> (id: u64)
        ensures
            id == old(self).upcoming_id(),
            final(self).upcoming_id() == id_after(id),
            final(self).upcoming_id() == (id + 1) % 0x1_0000_0000_0000_0000,
            final(self).requests() == old(self).requests(),
            final(self).responses() == old(self).responses(),
    {
        let id: u64 = self.next_id;
        self.next_id = id.wrapping_add(1);
        id
    }

    /// The request for an action, under a fresh id.
    pub fn action_request(&mut self, action: &str, data: Option<&str>) -> (msg: Message)
        ensures
            msg@ == action_message(
                old(self).upcoming_id(),
                action@,
                match data {
                    Some(d) => Some(d@),
                    None => None,
                },
            ),
            server::command_of(msg@.payload) == Some(
                action_command(
                    action@,
                    match data {
                        Some(d) => Some(d@),
                        None => None,
                    },
                ),
            ),
            final(self).upcoming_id() == id_after(old(self).upcoming_id()),
            final(self).requests() == old(self).requests(),
            final(self).responses() == old(self).responses(),
    {
        let id: u64 = self.next_id();
        Message::request(id, action_payload(action, data))
    }

    /// Sends a message and says whether a response is to be waited for: there is none to a
    /// shutdown.
    pub fn send(&self, req_region: &mut [u8], msg: &Message) -> (awaited: Result<bool, ClientError>)
        requires
            self.wf(),
            self.requests().consistent(old(req_region)@),
        ensures
            awaited is Ok <==> 4 + msg@.encoded().len() <= self.requests().cap()
                - self.requests().unread(old(req_region)@).len(),
            if self.requests().has_room(old(req_region)@, msg@.encoded().len()) {
                &&& awaited == Ok::<bool, ClientError>(!(msg.msg_type is Shutdown))
                &&& self.requests().appended(old(req_region)@, final(req_region)@, msg@.encoded())
            } else {
                &&& awaited == Err::<bool, ClientError>(ClientError::RequestRingFull)
                &&& final(req_region)@ == old(req_region)@
            },
    {
        let encoded = msg.encode();
        awaits_reply(self.req_ring.push(req_region, encoded.as_slice()), msg)
    }

    /// One turn of waiting for a response.
    pub fn poll_reply(&self, resp_region: &mut [u8], expired: bool) -> (turn: ReplyTurn)
        requires
            self.wf(),
            self.responses().consistent(old(resp_region)@),
        ensures
            reply_result(
                turn,
                ring::first_message(self.responses().unread(old(resp_region)@)),
                expired,
            ),
            match ring::first_message(self.responses().unread(old(resp_region)@)) {
                Some(bytes) => match protocol::decoded_message(bytes) {
                    Ok(view) => turn matches ReplyTurn::Received(msg) && msg@ == view,
                    Err(e) => turn == ReplyTurn::Failed(ClientError::InvalidResponse(e)),
                },
                None => turn == if expired {
                    ReplyTurn::Failed(ClientError::ResponseTimeout)
                } else {
                    ReplyTurn::Wait
                },
            },
            match ring::first_message(self.responses().unread(old(resp_region)@)) {
                Some(bytes) => self.responses().taken(
                    old(resp_region)@,
                    final(resp_region)@,
                    bytes,
                ),
                None => final(resp_region)@ == old(resp_region)@,
            },
    {
        let mut buf: Vec<u8> = Vec::new();
        if self.resp_ring.pop(resp_region, &mut buf) {
            reply_turn(Some(buf.as_slice()), expired)
        } else {
            reply_turn(None, expired)
        }
    }

    /// The ring that carries requests, for a caller that loads and stores positions itself.
    pub fn req_ring(&self) -> (ring: &RingBuf)
        ensures
            *ring == self.requests(),
    {
        &self.req_ring
    }

    /// The ring that carries responses, for a caller that loads and stores positions itself.
    pub fn resp_ring(&self) -> (ring: &RingBuf)
        ensures
            *ring == self.responses(),
    {
        &self.resp_ring
    }
}

/// What a response is shown as.
#[derive(Debug, Clone, Copy, PartialEq, Eq, Structural)]
pub enum Shown {
    /// Its payload, as text.
    Text,
    /// Its payload, as the text of an error.
    Error,
    /// A remark that its type was not expected.
    Unexpected,
}

/// What a response of the given type is shown as.
pub fn shown_as(msg_type: MessageType) -> (shown: Shown)
    ensures
        shown == match msg_type {
            MessageType::Response => Shown::Text,
            MessageType::Error => Shown::Error,
            _ => Shown::Unexpected,
        },
{
    match msg_type {
        MessageType::Response => Shown::Text,
        MessageType::Error => Shown::Error,
        _ => Shown::Unexpected,
    }
}

// ─── Command line ────────────────────────────────────────────────────────────

/// What the command line asks for.
pub enum ClientArgs {
    /// Connect to the server `name` in `shm_dir` and run the command that these words are.
    Run { shm_dir: String, name: String, command: Vec<String> },
    /// Print the usage and leave.
    Help,
    /// The option has no value after it.
    MissingValue(String),
}

#[verifier::ext_equal]
pub enum ClientArgsView {
    Run { shm_dir: Seq<char>, name: Seq<char>, command: Seq<Seq<char>> },
    Help,
    MissingValue(Seq<char>),
}

impl View for ClientArgs {
    type V = ClientArgsView;

    open spec fn view(&self) -> ClientArgsView {
        match self {
            ClientArgs::Run { shm_dir, name, command } => ClientArgsView::Run {
                shm_dir: shm_dir@,
                name: name@,
                command: text::texts(command@),
            },
            ClientArgs::Help => ClientArgsView::Help,
            ClientArgs::MissingValue(a) => ClientArgsView::MissingValue(a@),
        }
    }
}

/// What the arguments ask for, read from the front, given the options read so far. What is
/// not an option starts the command, which takes all that follows.
pub open spec fn client_args(
    args: Seq<Seq<char>>,
    shm_dir: Seq<char>,
    name: Seq<char>,
) -> ClientArgsView
    decreases args.len(),
{
    if args.len() == 0 {
        ClientArgsView::Run { shm_dir, name, command: Seq::empty() }
    } else if args[0] == "--shm-dir"@ || args[0] == "--name"@ {
        if args.len() == 1 {
            ClientArgsView::MissingValue(args[0])
        } else if args[0] == "--shm-dir"@ {
            client_args(args.skip(2), args[1], name)
        } else {
            client_args(args.skip(2), shm_dir, args[1])
        }
    } else if args[0] == "--help"@ || args[0] == "-h"@ {
        ClientArgsView::Help
    } else {
        ClientArgsView::Run { shm_dir, name, command: args }
    }
}

/// Reads the command line, the program's name first.
pub fn parse_client_args(args: &Vec<String>, linux: bool) -> (asked: ClientArgs)
    ensures
        asked@ == client_args(
            text::operands(args@),
            channel::default_dir(linux),
            "shm_server"@,
        ),
{
    let mut shm_dir = channel::default_shm_dir(linux);
    let mut name = "shm_server".to_owned();
    let ghost all = text::texts(args@);
    let mut command: Vec<String> = Vec::new();
    assert(text::texts(command@) =~= Seq::empty());
    if args.len() == 0 {
        return ClientArgs::Run { shm_dir, name, command };
    }
    let mut i: usize = 1;
    while i < args.len()
        invariant
            1 <= i <= args@.len(),
            all == text::texts(args@),
            command@.len() == 0,
            client_args(text::operands(args@), channel::default_dir(linux), "shm_server"@)
                == client_args(all.skip(i as int), shm_dir@, name@),
        decreases args@.len() - i,
    {
        let ghost rest = all.skip(i as int);
        assert(rest[0] == args@[i as int]@);
        let arg = args[i].as_str();
        let takes_dir = text::same_text(arg, "--shm-dir");
        let takes_name = text::same_text(arg, "--name");
        if takes_dir || takes_name {
            if i + 1 >= args.len() {
                return ClientArgs::MissingValue(arg.to_owned());
            }
            let value = args[i + 1].as_str();
            assert(rest[1] == value@);
            assert(rest.skip(2) =~= all.skip(i + 2));
            if takes_dir {
                shm_dir = value.to_owned();
            } else {
                name = value.to_owned();
            }
            i += 2;
        } else if text::same_text(arg, "--help") || text::same_text(arg, "-h") {
            return ClientArgs::Help;
        } else {
            let mut j: usize = i;
            while j < args.len()
                invariant
                    i <= j <= args@.len(),
                    all == text::texts(args@),
                    text::texts(command@) == all.subrange(i as int, j as int),
                decreases args@.len() - j,
            {
                proof {
                    text::lemma_texts_push(command@, args@[j as int]);
                }
                command.push(args[j].clone());
                j += 1;
                assert(text::texts(command@) =~= all.subrange(i as int, j as int));
            }
            assert(text::texts(command@) =~= rest);
            return ClientArgs::Run { shm_dir, name, command };
        }
    }
    assert(text::texts(command@) =~= Seq::empty());
    ClientArgs::Run { shm_dir, name, command }
}

/// What the words after the options ask for.
pub enum ClientCommand {
    /// Read commands from the terminal.
    Interactive,
    Ping,
    /// Echo these words.
    Echo(String),
    Info,
    Shutdown,
    /// Send these words as they are.
    Send(String),
    /// Complain about this word and leave.
    Unknown(String),
}

#[verifier::ext_equal]
pub enum ClientCommandView {
    Interactive,
    Ping,
    Echo(Seq<char>),
    Info,
    Shutdown,
    Send(Seq<char>),
    Unknown(Seq<char>),
}

impl View for ClientCommand {
    type V = ClientCommandView;

    open spec fn view(&self) -> ClientCommandView {
        match self {
            ClientCommand::Interactive => ClientCommandView::Interactive,
            ClientCommand::Ping => ClientCommandView::Ping,
            ClientCommand::Echo(t) => ClientCommandView::Echo(t@),
            ClientCommand::Info => ClientCommandView::Info,
            ClientCommand::Shutdown => ClientCommandView::Shutdown,
            ClientCommand::Send(t) => ClientCommandView::Send(t@),
            ClientCommand::Unknown(t) => ClientCommandView::Unknown(t@),
        }
    }
}

/// What the words after the options ask for: the first names the command, the others are
/// joined by spaces. The interactive mode is the default, so no words ask for it too.
pub open spec fn client_command(words: Seq<Seq<char>>) -> ClientCommandView {
    if words.len() == 0 || words[0] == "interactive"@ {
        ClientCommandView::Interactive
    } else if words[0] == "ping"@ {
        ClientCommandView::Ping
    } else if words[0] == "echo"@ {
        ClientCommandView::Echo(text::joined_words(words.skip(1)))
    } else if words[0] == "info"@ {
        ClientCommandView::Info
    } else if words[0] == "shutdown"@ {
        ClientCommandView::Shutdown
    } else if words[0] == "send"@ {
        ClientCommandView::Send(text::joined_words(words.skip(1)))
    } else {
        ClientCommandView::Unknown(words[0])
    }
}

/// Reads the words after the options.
pub fn parse_command(words: &Vec<String>) -> (command: ClientCommand)
    ensures
        command@ == client_command(text::texts(words@)),
{
    if words.len() == 0 {
        return ClientCommand::Interactive;
    }
    let cmd = words[0].as_str();
    if text::same_text(cmd, "interactive") {
        ClientCommand::Interactive
    } else if text::same_text(cmd, "ping") {
        ClientCommand::Ping
    } else if text::same_text(cmd, "echo") {
        ClientCommand::Echo(text::join_words(words, 1))
    } else if text::same_text(cmd, "info") {
        ClientCommand::Info
    } else if text::same_text(cmd, "shutdown") {
        ClientCommand::Shutdown
    } else if text::same_text(cmd, "send") {
        ClientCommand::Send(text::join_words(words, 1))
    } else {
        ClientCommand::Unknown(cmd.to_owned())
    }
}

// ─── Interactive mode ────────────────────────────────────────────────────────

/// What a line typed in interactive mode asks for.
pub enum LineCommand {
    /// Nothing: the line is blank.
    Blank,
    /// Leave.
    Quit,
    Help,
    Ping,
    /// Echo this text.
    Echo(String),
    Info,
    /// Stop the server, and leave.
    Shutdown,
    /// Complain about this word.
    Unknown(String),
}

#[verifier::ext_equal]
pub enum LineCommandView {
    Blank,
    Quit,
    Help,
    Ping,
    Echo(Seq<char>),
    Info,
    Shutdown,
    Unknown(Seq<char>),
}

impl View for LineCommand {
    type V = LineCommandView;

    open spec fn view(&self) -> LineCommandView {
        match self {
            LineCommand::Blank => LineCommandView::Blank,
            LineCommand::Quit => LineCommandView::Quit,
            LineCommand::Help => LineCommandView::Help,
            LineCommand::Ping => LineCommandView::Ping,
            LineCommand::Echo(t) => LineCommandView::Echo(t@),
            LineCommand::Info => LineCommandView::Info,
            LineCommand::Shutdown => LineCommandView::Shutdown,
            LineCommand::Unknown(t) => LineCommandView::Unknown(t@),
        }
    }
}

/// What a line asks for: white space round it is dropped, and the word before its first
/// space names the command. To echo is to send what follows that space.
pub open spec fn line_command(line: Seq<char>) -> LineCommandView {
    let rest = text::trimmed(line);
    let word = text::first_word(rest);
    if rest.len() == 0 {
        LineCommandView::Blank
    } else if word == "quit"@ || word == "exit"@ {
        LineCommandView::Quit
    } else if word == "help"@ {
        LineCommandView::Help
    } else if word == "ping"@ {
        LineCommandView::Ping
    } else if word == "echo"@ {
        LineCommandView::Echo(text::after_first_word(rest))
    } else if word == "info"@ {
        LineCommandView::Info
    } else if word == "shutdown"@ {
        LineCommandView::Shutdown
    } else {
        LineCommandView::Unknown(word)
    }
}

/// Reads a line typed in interactive mode.
pub fn parse_line(line: &str) -> (command: LineCommand)
    ensures
        command@ == line_command(line@),
{
    let rest = text::trim(line);
    if rest.is_empty() {
        return LineCommand::Blank;
    }
    let (word, data) = text::split_word(rest);
    if text::same_text(word, "quit") || text::same_text(word, "exit") {
        LineCommand::Quit
    } else if text::same_text(word, "help") {
        LineCommand::Help
    } else if text::same_text(word, "ping") {
        LineCommand::Ping
    } else if text::same_text(word, "echo") {
        LineCommand::Echo(data.to_owned())
    } else if text::same_text(word, "info") {
        LineCommand::Info
    } else if text::same_text(word, "shutdown") {
        LineCommand::Shutdown
    } else {
        LineCommand::Unknown(word.to_owned())
    }
}

// ─── What a command sends ────────────────────────────────────────────────────

/// What a command on the command line comes to.
pub enum CommandStep {
    /// Read commands from the terminal.
    Interactive,
    /// Send this request for an action and show the response.
    Action(Message),
    /// Send this message; there is no response.
    Shutdown(Message),
    /// Send this request and print the payload of the response.
    Raw(Message),
    /// Complain about this word and leave.
    Unknown(String),
}

#[verifier::ext_equal]
pub enum CommandStepView {
    Interactive,
    Action(protocol::MessageView),
    Shutdown(protocol::MessageView),
    Raw(protocol::MessageView),
    Unknown(Seq<char>),
}

impl View for CommandStep {
    type V = CommandStepView;

    open spec fn view(&self) -> CommandStepView {
        match self {
            CommandStep::Interactive => CommandStepView::Interactive,
            CommandStep::Action(msg) => CommandStepView::Action(msg@),
            CommandStep::Shutdown(msg) => CommandStepView::Shutdown(msg@),
            CommandStep::Raw(msg) => CommandStepView::Raw(msg@),
            CommandStep::Unknown(t) => CommandStepView::Unknown(t@),
        }
    }
}

/// The action that a command on the command line asks the server for, and its data.
pub open spec fn command_action(command: ClientCommandView) -> Option<
    (Seq<char>, Option<Seq<char>>),
> {
    match command {
        ClientCommandView::Ping => Some(("ping"@, None)),
        ClientCommandView::Echo(t) => Some(("echo"@, Some(t))),
        ClientCommandView::Info => Some(("info"@, None)),
        _ => None,
    }
}

/// What a command on the command line comes to, if `id` is the id of the next request.
pub open spec fn command_step_of(command: ClientCommandView, id: u64) -> CommandStepView {
    match command {
        ClientCommandView::Interactive => CommandStepView::Interactive,
        ClientCommandView::Ping => CommandStepView::Action(action_message(id, "ping"@, None)),
        ClientCommandView::Echo(t) => CommandStepView::Action(
            action_message(id, "echo"@, Some(t)),
        ),
        ClientCommandView::Info => CommandStepView::Action(action_message(id, "info"@, None)),
        ClientCommandView::Shutdown => CommandStepView::Shutdown(shutdown_message()),
        ClientCommandView::Send(t) => CommandStepView::Raw(raw_message(id, t)),
        ClientCommandView::Unknown(t) => CommandStepView::Unknown(t),
    }
}

/// What a line typed in interactive mode comes to.
pub enum LineStep {
    /// Read the next line.
    Nothing,
    /// Print the commands, and read the next line.
    Help,
    /// Complain about this word, and read the next line.
    Unknown(String),
    /// Send this request, show the response, and read the next line.
    Send(Message),
    /// Send this message and leave.
    SendAndLeave(Message),
    /// Leave.
    Leave,
}

#[verifier::ext_equal]
pub enum LineStepView {
    Nothing,
    Help,
    Unknown(Seq<char>),
    Send(protocol::MessageView),
    SendAndLeave(protocol::MessageView),
    Leave,
}

impl View for LineStep {
    type V = LineStepView;

    open spec fn view(&self) -> LineStepView {
        match self {
            LineStep::Nothing => LineStepView::Nothing,
            LineStep::Help => LineStepView::Help,
            LineStep::Unknown(t) => LineStepView::Unknown(t@),
            LineStep::Send(msg) => LineStepView::Send(msg@),
            LineStep::SendAndLeave(msg) => LineStepView::SendAndLeave(msg@),
            LineStep::Leave => LineStepView::Leave,
        }
    }
}

/// The action that a line asks the server for, and its data.
pub open spec fn line_action(command: LineCommandView) -> Option<(Seq<char>, Option<Seq<char>>)> {
    match command {
        LineCommandView::Ping => Some(("ping"@, None)),
        LineCommandView::Echo(t) => Some(("echo"@, Some(t))),
        LineCommandView::Info => Some(("info"@, None)),
        _ => None,
    }
}

/// What a line comes to, if `id` is the id of the next request.
pub open spec fn line_step_of(command: LineCommandView, id: u64) -> LineStepView {
    match command {
        LineCommandView::Blank => LineStepView::Nothing,
        LineCommandView::Quit => LineStepView::Leave,
        LineCommandView::Help => LineStepView::Help,
        LineCommandView::Ping => LineStepView::Send(action_message(id, "ping"@, None)),
        LineCommandView::Echo(t) => LineStepView::Send(action_message(id, "echo"@, Some(t))),
        LineCommandView::Info => LineStepView::Send(action_message(id, "info"@, None)),
        LineCommandView::Shutdown => LineStepView::SendAndLeave(shutdown_message()),
        LineCommandView::Unknown(t) => LineStepView::Unknown(t),
    }
}

impl Client {
    /// What the words after the options come to. A request gets a fresh id, and the server
    /// reads from the request for an action what was asked for.
    pub fn command_step(&mut self, words: &Vec<String>) -> (step: CommandStep)
        ensures
            step@ == command_step_of(
                client_command(text::texts(words@)),
                old(self).upcoming_id(),
            ),
            match command_action(client_command(text::texts(words@))) {
                Some((action, data)) => step matches CommandStep::Action(msg)
                    && server::command_of(msg@.payload) == Some(action_command(action, data)),
                None => true,
            },
            final(self).upcoming_id() == match step {
                CommandStep::Action(_) => id_after(old(self).upcoming_id()),
                CommandStep::Raw(_) => id_after(old(self).upcoming_id()),
                _ => old(self).upcoming_id(),
            },
            final(self).requests() == old(self).requests(),
            final(self).responses() == old(self).responses(),
    {
        match parse_command(words) {
            ClientCommand::Interactive => CommandStep::Interactive,
            ClientCommand::Ping => CommandStep::Action(self.action_request("ping", None)),
            ClientCommand::Echo(t) => CommandStep::Action(
                self.action_request("echo", Some(t.as_str())),
            ),
            ClientCommand::Info => CommandStep::Action(self.action_request("info", None)),
            ClientCommand::Shutdown => CommandStep::Shutdown(Message::shutdown()),
            ClientCommand::Send(t) => {
                let id: u64 = self.next_id();
                CommandStep::Raw(Message::request(id, text::text_bytes(t.as_str())))
            },
            ClientCommand::Unknown(t) => CommandStep::Unknown(t),
        }
    }

    /// What a line typed in interactive mode comes to. A request gets a fresh id, and the
    /// server reads from it what was asked for.
    pub fn line_step(&mut self, line: &str) -> (step: LineStep)
        ensures
            step@ == line_step_of(line_command(line@), old(self).upcoming_id()),
            match line_action(line_command(line@)) {
                Some((action, data)) => step matches LineStep::Send(msg) && server::command_of(
                    msg@.payload,
                ) == Some(action_command(action, data)),
                None => true,
            },
            final(self).upcoming_id() == match step {
                LineStep::Send(_) => id_after(old(self).upcoming_id()),
                _ => old(self).upcoming_id(),
            },
            final(self).requests() == old(self).requests(),
            final(self).responses() == old(self).responses(),
    {
        match parse_line(line) {
            LineCommand::Blank => LineStep::Nothing,
            LineCommand::Quit => LineStep::Leave,
            LineCommand::Help => LineStep::Help,
            LineCommand::Ping => LineStep::Send(self.action_request("ping", None)),
            LineCommand::Echo(t) => LineStep::Send(self.action_request("echo", Some(t.as_str()))),
            LineCommand::Info => LineStep::Send(self.action_request("info", None)),
            LineCommand::Shutdown => LineStep::SendAndLeave(Message::shutdown()),
            LineCommand::Unknown(t) => LineStep::Unknown(t),
        }
    }
}

/// Whether interactive mode ends with a line.
pub open spec fn line_leaves(line: Seq<char>) -> bool {
    line_command(line) is Quit || line_command(line) is Shutdown
}

/// What is sent in interactive mode for the lines of an input, in order: each line comes to
/// its step, up to the first that leaves or the end of the input.
pub open spec fn session(lines: Seq<Seq<char>>, id: u64) -> Seq<protocol::MessageView>
    decreases lines.len(),
{
    if lines.len() == 0 {
        Seq::empty()
    } else {
        match line_step_of(line_command(lines[0]), id) {
            LineStepView::Send(msg) => seq![msg] + session(lines.drop_first(), id_after(id)),
            LineStepView::SendAndLeave(msg) => seq![msg],
            LineStepView::Leave => Seq::empty(),
            _ => session(lines.drop_first(), id),
        }
    }
}

/// Interactive mode ends with the first line that says so, whether or not the server is to be
/// stopped: nothing is sent for the lines after it.
pub proof fn law_session_ends(
    before: Seq<Seq<char>>,
    line: Seq<char>,
    after: Seq<Seq<char>>,
    id: u64,
)
    requires
        line_leaves(line),
    ensures
        session(before.push(line) + after, id) == session(before.push(line), id),
    decreases before.len(),
{
    let short = before.push(line);
    let long = short + after;
    assert(long[0] == short[0]);
    if before.len() > 0 {
        let rest = before.drop_first();
        assert(short.drop_first() =~= rest.push(line));
        assert(long.drop_first() =~= rest.push(line) + after);
        law_session_ends(rest, line, after, id);
        law_session_ends(rest, line, after, id_after(id));
    }
}

/// A line sends one request if it is a ping, an echo, a question for information or a
/// shutdown, and nothing otherwise; lines that do not leave are followed by the next.
pub proof fn law_session_line(line: Seq<char>, rest: Seq<Seq<char>>, id: u64)
    ensures
        session(seq![line] + rest, id) == match line_action(line_command(line)) {
            Some((action, data)) => seq![action_message(id, action, data)] + session(
                rest,
                id_after(id),
            ),
            None => if line_command(line) is Shutdown {
                seq![shutdown_message()]
            } else if line_leaves(line) {
                Seq::empty()
            } else {
                session(rest, id)
            },
        },
{
    let all = seq![line] + rest;
    assert(all[0] == line);
    assert(all.drop_first() =~= rest);
}

// ─── What arrives, and what is sent ──────────────────────────────────────────

/// A response that arrived is received unchanged, whatever its type and whether or not the time
/// is up, and bytes that are no message are reported with the reason. Waiting goes on or fails
/// with a timeout only where nothing arrived.
pub proof fn law_reply_is_received(
    msg: protocol::MessageView,
    rest: Seq<u8>,
    message: Option<Seq<u8>>,
    turn: ReplyTurn,
    expired: bool,
)
    ensures
        msg.payload.len() < 0x1_0000_0000 && reply_result(
            turn,
            Some(msg.encoded() + rest),
            expired,
        ) ==> (turn matches ReplyTurn::Received(m) && m@ == msg),
        msg.payload.len() < 0x1_0000_0000 && reply_result(turn, Some(msg.encoded()), expired) ==> (
        turn matches ReplyTurn::Received(m) && m@ == msg),
        reply_result(turn, message, expired) && turn == ReplyTurn::Failed(
            ClientError::ResponseTimeout,
        ) ==> message is None && expired,
        reply_result(turn, message, expired) && turn is Wait ==> message is None && !expired,
        reply_result(turn, None, expired) ==> turn == if expired {
            ReplyTurn::Failed(ClientError::ResponseTimeout)
        } else {
            ReplyTurn::Wait
        },
        message is Some && protocol::decoded_message(message.unwrap()) is Err && reply_result(
            turn,
            message,
            expired,
        ) ==> turn == ReplyTurn::Failed(
            ClientError::InvalidResponse(protocol::decoded_message(message.unwrap())->Err_0),
        ),
{
    if msg.payload.len() < 0x1_0000_0000 {
        protocol::law_message_round_trip(msg, rest);
        protocol::law_message_round_trip(msg, Seq::empty());
        assert(msg.encoded() + Seq::empty() =~= msg.encoded());
    }
}

/// The oldest message in the response ring is what a turn of waiting receives, and a timeout is
/// reported only where the ring holds none. This speaks of messages shorter than 2^32 bytes.
pub proof fn law_oldest_reply_is_received(
    ring: RingBuf,
    region: Seq<u8>,
    msg: protocol::MessageView,
    others: Seq<Seq<u8>>,
    turn: ReplyTurn,
    expired: bool,
)
    requires
        13 + msg.payload.len() < 0x1_0000_0000,
        reply_result(turn, ring::first_message(ring.unread(region)), expired),
    ensures
        ring.holds(region, seq![msg.encoded()] + others) ==> (turn matches ReplyTurn::Received(m)
            && m@ == msg),
        ring.holds(region, Seq::empty()) ==> turn == if expired {
            ReplyTurn::Failed(ClientError::ResponseTimeout)
        } else {
            ReplyTurn::Wait
        },
{
    lemma_message_bytes(msg);
    if ring.holds(region, seq![msg.encoded()] + others) {
        lemma_polled(ring, region, region, msg.encoded(), others);
    }
    if ring.holds(region, Seq::empty()) {
        ring::law_pop_of_empty(ring, region);
    }
}

/// The requests, written out.
pub proof fn law_requests_written_out(id: u64, action: Seq<char>, data: Seq<char>, t: Seq<char>)
    ensures
        action_message(id, action, None) == (protocol::MessageView {
            request_id: id,
            msg_type: MessageType::Request,
            payload: encode_utf8("{\"action\":"@ + json::quoted(action) + "}"@),
        }),
        action_message(id, action, Some(data)) == (protocol::MessageView {
            request_id: id,
            msg_type: MessageType::Request,
            payload: encode_utf8(
                "{\"action\":"@ + json::quoted(action) + ",\"data\":"@ + json::quoted(data) + "}"@,
            ),
        }),
        raw_message(id, t) == (protocol::MessageView {
            request_id: id,
            msg_type: MessageType::Request,
            payload: encode_utf8(t),
        }),
        shutdown_message() == (protocol::MessageView {
            request_id: 0,
            msg_type: MessageType::Shutdown,
            payload: Seq::empty(),
        }),
        action_command(action, None) == (server::CommandView { action: Some(action), data: None }),
        action_command(action, Some(data)) == (server::CommandView {
            action: Some(action),
            data: Some(json::quoted(data)),
        }),
{
    reveal_strlit("action");
    reveal_strlit("data");
    reveal_strlit("{\"action\":");
    reveal_strlit(",\"data\":");
    reveal_strlit("}");
    reveal_strlit("\"");
    json::law_plain_string("action"@);
    json::law_plain_string("data"@);
    let first = ("action"@, json::quoted(action));
    let second = ("data"@, json::quoted(data));
    json::law_object_texts(first, seq![second]);
    server::lemma_one_member(second);
    assert(seq![first] + seq![second] =~= seq![first, second]);
    json::law_object_texts(first, seq![first, second]);
    assert(json::object_text(seq![first]) =~= "{\"action\":"@ + json::quoted(action) + "}"@);
    assert(json::object_text(seq![first, second]) =~= "{\"action\":"@ + json::quoted(action)
        + ",\"data\":"@ + json::quoted(data) + "}"@);
}

/// Ids follow each other, and 0 follows 2^64 - 1.
pub proof fn law_ids(id: u64)
    ensures
        id < u64::MAX ==> id_after(id) == id + 1,
        id_after(u64::MAX) == 0,
{
}

/// The requests without data, and the front of the one with data, letter by letter.
proof fn lemma_action_texts(data: Seq<char>)
    ensures
        "{\"action\":"@ + json::quoted("ping"@) + "}"@ == "{\"action\":\"ping\"}"@,
        "{\"action\":"@ + json::quoted("info"@) + "}"@ == "{\"action\":\"info\"}"@,
        "{\"action\":"@ + json::quoted("echo"@) + ",\"data\":"@ + json::quoted(data) + "}"@
            == "{\"action\":\"echo\",\"data\":"@ + json::quoted(data) + "}"@,
{
    reveal_strlit("ping");
    reveal_strlit("info");
    reveal_strlit("echo");
    reveal_strlit("{\"action\":");
    reveal_strlit(",\"data\":");
    reveal_strlit("}");
    reveal_strlit("\"");
    reveal_strlit("{\"action\":\"ping\"}");
    reveal_strlit("{\"action\":\"info\"}");
    reveal_strlit("{\"action\":\"echo\",\"data\":");
    json::law_plain_string("ping"@);
    json::law_plain_string("info"@);
    json::law_plain_string("echo"@);
    assert("{\"action\":"@ + json::quoted("ping"@) + "}"@ =~= "{\"action\":\"ping\"}"@);
    assert("{\"action\":"@ + json::quoted("info"@) + "}"@ =~= "{\"action\":\"info\"}"@);
    assert("{\"action\":"@ + json::quoted("echo"@) + ",\"data\":"@
        =~= "{\"action\":\"echo\",\"data\":"@);
}

/// The words that name a command are different words.
proof fn lemma_command_words()
    ensures
        "ping"@ != "info"@,
        "ping"@ != "echo"@,
        "ping"@ != "quit"@,
        "ping"@ != "exit"@,
        "ping"@ != "help"@,
        "ping"@ != "send"@,
        "info"@ != "echo"@,
        "info"@ != "quit"@,
        "info"@ != "exit"@,
        "info"@ != "help"@,
        "info"@ != "send"@,
        "echo"@ != "quit"@,
        "echo"@ != "exit"@,
        "echo"@ != "help"@,
        "echo"@ != "send"@,
        "help"@ != "quit"@,
        "help"@ != "exit"@,
        "shutdown"@.len() == 8,
        "interactive"@.len() == 11,
        "ping"@.len() == 4,
        "info"@.len() == 4,
        "echo"@.len() == 4,
        "quit"@.len() == 4,
        "exit"@.len() == 4,
        "help"@.len() == 4,
        "send"@.len() == 4,
{
    reveal_strlit("ping");
    reveal_strlit("info");
    reveal_strlit("echo");
    reveal_strlit("quit");
    reveal_strlit("exit");
    reveal_strlit("help");
    reveal_strlit("send");
    reveal_strlit("shutdown");
    reveal_strlit("interactive");
    assert("ping"@[0] == 'p' && "info"@[0] == 'i' && "echo"@[0] == 'e' && "quit"@[0] == 'q'
        && "exit"@[0] == 'e' && "help"@[0] == 'h' && "send"@[0] == 's');
    assert("echo"@[1] == 'c' && "exit"@[1] == 'x');
}

/// What a typed line comes to, whatever white space is round it. The word before the first space
/// decides: `ping`, `info` and `echo` send the request for that action, `echo` with what follows
/// the space as data, `shutdown` stops the server and leaves, `quit` and `exit` leave, `help`
/// asks for help, and any other word is complained about. A blank line is nothing.
pub proof fn law_typed_line(
    front: Seq<char>,
    word: Seq<char>,
    tail: Seq<char>,
    end: Seq<char>,
    id: u64,
)
    requires
        forall|i: int| 0 <= i < front.len() ==> text::is_white(#[trigger] front[i]),
        forall|i: int| 0 <= i < end.len() ==> text::is_white(#[trigger] end[i]),
        word.len() > 0,
        !word.contains(' '),
        !text::is_white(word[0]),
        tail.len() == 0 ==> !text::is_white(word.last()),
        tail.len() > 0 ==> tail.len() > 1 && tail[0] == ' ' && !text::is_white(tail.last()),
    ensures
        line_command(front) is Blank,
        line_step_of(line_command(front), id) is Nothing,
        ({
            let line = front + (word + tail) + end;
            let command = line_command(line);
            let step = line_step_of(command, id);
            let data = if tail.len() == 0 {
                Seq::empty()
            } else {
                tail.skip(1)
            };
            &&& word == "ping"@ <==> command is Ping
            &&& word == "info"@ <==> command is Info
            &&& word == "echo"@ ==> command == LineCommandView::Echo(data)
            &&& word == "shutdown"@ <==> command is Shutdown
            &&& word == "quit"@ || word == "exit"@ <==> command is Quit
            &&& word == "help"@ <==> command is Help
            &&& command is Unknown ==> command == LineCommandView::Unknown(word)
            &&& word == "ping"@ ==> step == LineStepView::Send(
                protocol::MessageView {
                    request_id: id,
                    msg_type: MessageType::Request,
                    payload: encode_utf8("{\"action\":\"ping\"}"@),
                },
            )
            &&& word == "info"@ ==> step == LineStepView::Send(
                protocol::MessageView {
                    request_id: id,
                    msg_type: MessageType::Request,
                    payload: encode_utf8("{\"action\":\"info\"}"@),
                },
            )
            &&& word == "echo"@ ==> step == LineStepView::Send(
                protocol::MessageView {
                    request_id: id,
                    msg_type: MessageType::Request,
                    payload: encode_utf8(
                        "{\"action\":\"echo\",\"data\":"@ + json::quoted(data) + "}"@,
                    ),
                },
            )
            &&& word == "shutdown"@ ==> step == LineStepView::SendAndLeave(
                protocol::MessageView {
                    request_id: 0,
                    msg_type: MessageType::Shutdown,
                    payload: Seq::empty(),
                },
            )
            &&& word == "quit"@ || word == "exit"@ <==> step is Leave
            &&& word == "help"@ <==> step is Help
            &&& word != "ping"@ && word != "info"@ && word != "echo"@ && word != "shutdown"@
                && word != "quit"@ && word != "exit"@ && word != "help"@ ==> step
                == LineStepView::Unknown(word)
            &&& line_leaves(line) <==> word == "quit"@ || word == "exit"@ || word == "shutdown"@
        }),
{
    let t = word + tail;
    let data = if tail.len() == 0 {
        Seq::empty()
    } else {
        tail.skip(1)
    };
    assert(t[0] == word[0]);
    assert(t.last() == if tail.len() == 0 {
        word.last()
    } else {
        tail.last()
    });
    text::law_trimmed_text(front, t, end);
    text::law_splitting(word, data);
    if tail.len() == 0 {
        assert(t =~= word);
    } else {
        assert(t =~= word.push(' ') + data);
    }
    lemma_command_words();
    lemma_action_texts(data);
    law_requests_written_out(id, "ping"@, data, data);
    law_requests_written_out(id, "info"@, data, data);
    law_requests_written_out(id, "echo"@, data, data);
}

/// What the words after the options come to: the first names the command, and the text that the
/// others make, joined by spaces, is what is echoed or sent as it is. No words ask for the
/// interactive mode.
pub proof fn law_command_words(word: Seq<char>, rest: Seq<Seq<char>>, id: u64)
    ensures
        client_command(Seq::empty()) is Interactive,
        command_step_of(client_command(Seq::empty()), id) is Interactive,
        ({
            let command = client_command(seq![word] + rest);
            let step = command_step_of(command, id);
            let t = text::joined_words(rest);
            &&& word == "interactive"@ <==> command is Interactive
            &&& word == "ping"@ <==> command is Ping
            &&& word == "info"@ <==> command is Info
            &&& word == "echo"@ ==> command == ClientCommandView::Echo(t)
            &&& word == "shutdown"@ <==> command is Shutdown
            &&& word == "send"@ ==> command == ClientCommandView::Send(t)
            &&& command is Unknown ==> command == ClientCommandView::Unknown(word)
            &&& word == "interactive"@ <==> step is Interactive
            &&& word == "ping"@ ==> step == CommandStepView::Action(
                protocol::MessageView {
                    request_id: id,
                    msg_type: MessageType::Request,
                    payload: encode_utf8("{\"action\":\"ping\"}"@),
                },
            )
            &&& word == "info"@ ==> step == CommandStepView::Action(
                protocol::MessageView {
                    request_id: id,
                    msg_type: MessageType::Request,
                    payload: encode_utf8("{\"action\":\"info\"}"@),
                },
            )
            &&& word == "echo"@ ==> step == CommandStepView::Action(
                protocol::MessageView {
                    request_id: id,
                    msg_type: MessageType::Request,
                    payload: encode_utf8(
                        "{\"action\":\"echo\",\"data\":"@ + json::quoted(t) + "}"@,
                    ),
                },
            )
            &&& word == "shutdown"@ ==> step == CommandStepView::Shutdown(
                protocol::MessageView {
                    request_id: 0,
                    msg_type: MessageType::Shutdown,
                    payload: Seq::empty(),
                },
            )
            &&& word == "send"@ ==> step == CommandStepView::Raw(
                protocol::MessageView {
                    request_id: id,
                    msg_type: MessageType::Request,
                    payload: encode_utf8(t),
                },
            )
            &&& word != "interactive"@ && word != "ping"@ && word != "info"@ && word != "echo"@
                && word != "shutdown"@ && word != "send"@ ==> step == CommandStepView::Unknown(
                word,
            )
        }),
{
    let words = seq![word] + rest;
    let t = text::joined_words(rest);
    assert(words[0] == word);
    assert(words.skip(1) =~= rest);
    lemma_command_words();
    lemma_action_texts(t);
    law_requests_written_out(id, "ping"@, t, t);
    law_requests_written_out(id, "info"@, t, t);
    law_requests_written_out(id, "echo"@, t, t);
}

/// How the command line is read: options from the front, each with the value that follows it,
/// which the last one of its name keeps. The first word that is no option starts the command.
pub proof fn law_client_options(
    rest: Seq<Seq<char>>,
    value: Seq<char>,
    shm_dir: Seq<char>,
    name: Seq<char>,
)
    ensures
        client_args(Seq::empty(), shm_dir, name) == (ClientArgsView::Run {
            shm_dir,
            name,
            command: Seq::empty(),
        }),
        client_args(seq!["--shm-dir"@, value] + rest, shm_dir, name) == client_args(
            rest,
            value,
            name,
        ),
        client_args(seq!["--name"@, value] + rest, shm_dir, name) == client_args(
            rest,
            shm_dir,
            value,
        ),
        client_args(seq!["--shm-dir"@], shm_dir, name) == ClientArgsView::MissingValue(
            "--shm-dir"@,
        ),
        client_args(seq!["--name"@], shm_dir, name) == ClientArgsView::MissingValue("--name"@),
        client_args(seq!["--help"@] + rest, shm_dir, name) is Help,
        client_args(seq!["-h"@] + rest, shm_dir, name) is Help,
        value != "--shm-dir"@ && value != "--name"@ && value != "--help"@ && value != "-h"@
            ==> client_args(seq![value] + rest, shm_dir, name) == (ClientArgsView::Run {
            shm_dir,
            name,
            command: seq![value] + rest,
        }),
{
    reveal_strlit("--shm-dir");
    reveal_strlit("--name");
    reveal_strlit("--help");
    reveal_strlit("-h");
    assert("--name"@[2] == 'n' && "--help"@[2] == 'h');
    assert("--shm-dir"@.len() == 9 && "--name"@.len() == 6 && "--help"@.len() == 6
        && "-h"@.len() == 2);
    assert((seq!["--shm-dir"@, value] + rest).skip(2) =~= rest);
    assert((seq!["--name"@, value] + rest).skip(2) =~= rest);
    assert((seq!["--help"@] + rest)[0] == "--help"@);
    assert((seq!["-h"@] + rest)[0] == "-h"@);
    assert((seq![value] + rest)[0] == value);
}

/// Without arguments the client looks for the server `shm_server` where shared memory files go.
pub proof fn law_client_defaults(program: String, linux: bool)
    ensures
        client_args(text::operands(seq![program]), channel::default_dir(linux), "shm_server"@) == (
        ClientArgsView::Run {
            shm_dir: if linux {
                "/dev/shm"@
            } else {
                "/tmp"@
            },
            name: "shm_server"@,
            command: Seq::empty(),
        }),
{
    text::law_operands(program, Seq::empty());
    assert(seq![program] + Seq::empty() =~= seq![program]);
    assert(text::operands(seq![program]) =~= Seq::empty());
}

/// The words for each client error.
pub proof fn law_client_error_words(error: ProtocolError)
    ensures
        client_error_text(ClientError::RequestRingFull) == "request ring full"@,
        client_error_text(ClientError::ResponseTimeout) == "response timeout"@,
        client_error_text(ClientError::InvalidResponse(error)) == "decode error: "@
            + protocol::error_text(error),
{
}

/// What a command or a step of the client consists of is its message or its words.
pub proof fn law_client_fields(msg: Message, t: String, name: String, command: Vec<String>)
    ensures
        ClientCommand::Interactive@ is Interactive,
        ClientCommand::Ping@ is Ping,
        ClientCommand::Echo(t)@ == ClientCommandView::Echo(t@),
        ClientCommand::Info@ is Info,
        ClientCommand::Shutdown@ is Shutdown,
        ClientCommand::Send(t)@ == ClientCommandView::Send(t@),
        ClientCommand::Unknown(t)@ == ClientCommandView::Unknown(t@),
        LineCommand::Blank@ is Blank,
        LineCommand::Quit@ is Quit,
        LineCommand::Help@ is Help,
        LineCommand::Ping@ is Ping,
        LineCommand::Echo(t)@ == LineCommandView::Echo(t@),
        LineCommand::Info@ is Info,
        LineCommand::Shutdown@ is Shutdown,
        LineCommand::Unknown(t)@ == LineCommandView::Unknown(t@),
        CommandStep::Interactive@ is Interactive,
        CommandStep::Action(msg)@ == CommandStepView::Action(msg@),
        CommandStep::Shutdown(msg)@ == CommandStepView::Shutdown(msg@),
        CommandStep::Raw(msg)@ == CommandStepView::Raw(msg@),
        CommandStep::Unknown(t)@ == CommandStepView::Unknown(t@),
        LineStep::Nothing@ is Nothing,
        LineStep::Help@ is Help,
        LineStep::Leave@ is Leave,
        LineStep::Unknown(t)@ == LineStepView::Unknown(t@),
        LineStep::Send(msg)@ == LineStepView::Send(msg@),
        LineStep::SendAndLeave(msg)@ == LineStepView::SendAndLeave(msg@),
        ClientArgs::Help@ is Help,
        ClientArgs::MissingValue(t)@ == ClientArgsView::MissingValue(t@),
        (ClientArgs::Run { shm_dir: t, name, command })@ == (ClientArgsView::Run {
            shm_dir: t@,
            name: name@,
            command: text::texts(command@),
        }),
{
}

// ─── What the operations do ──────────────────────────────────────────────────

/// A message of any type that arrived is received unchanged, whether or not the time is up; a turn
/// waits or times out only where nothing arrived.
pub proof fn law_reply_turn(
    message: Option<&[u8]>,
    expired: bool,
    turn: ReplyTurn,
    msg: protocol::MessageView,
)
    requires
        call_ensures(reply_turn, (message, expired), turn),
        msg.payload.len() < 0x1_0000_0000,
    ensures
        message matches Some(bytes) ==> bytes@ == msg.encoded() ==> (
        turn matches ReplyTurn::Received(m) && m.request_id == msg.request_id && m.msg_type
            == msg.msg_type && m.payload@ == msg.payload),
        message is None && expired ==> turn == ReplyTurn::Failed(ClientError::ResponseTimeout),
        message is None && !expired ==> turn is Wait,
        turn == ReplyTurn::Failed(ClientError::ResponseTimeout) ==> message is None,
        turn is Wait ==> message is None,
{
    law_reply_is_received(msg, Seq::empty(), Some(msg.encoded()), turn, expired);
}

/// Polling gives the oldest message in the response ring, of whatever type, and leaves the others;
/// it times out only where the ring holds none. This speaks of messages shorter than 2^32 bytes.
pub proof fn law_poll_reply(
    client: Client,
    region: &mut [u8],
    expired: bool,
    turn: ReplyTurn,
    msg: protocol::MessageView,
    others: Seq<Seq<u8>>,
)
    requires
        call_ensures(Client::poll_reply, (&client, region, expired), turn),
        client.wf(),
        13 + msg.payload.len() < 0x1_0000_0000,
    ensures
        client.responses().holds(old(region)@, seq![msg.encoded()] + others) ==> {
            &&& turn matches ReplyTurn::Received(m)
            &&& m.request_id == msg.request_id
            &&& m.msg_type == msg.msg_type
            &&& m.payload@ == msg.payload
            &&& client.responses().holds(final(region)@, others)
        },
        client.responses().holds(old(region)@, Seq::empty()) ==> {
            &&& final(region)@ == old(region)@
            &&& turn == if expired {
                ReplyTurn::Failed(ClientError::ResponseTimeout)
            } else {
                ReplyTurn::Wait
            }
        },
{
    let before = old(region)@;
    lemma_message_bytes(msg);
    if client.responses().holds(before, seq![msg.encoded()] + others) {
        lemma_polled(client.responses(), before, final(region)@, msg.encoded(), others);
    }
    if client.responses().holds(before, Seq::empty()) {
        ring::law_pop_of_empty(client.responses(), before);
    }
}

/// The bytes of a message alone are a message, and not too many for a ring to carry.
proof fn lemma_message_bytes(msg: protocol::MessageView)
    requires
        13 + msg.payload.len() < 0x1_0000_0000,
    ensures
        msg.encoded().len() < 0x1_0000_0000,
        protocol::decoded_message(msg.encoded()) == Ok::<protocol::MessageView, ProtocolError>(msg),
{
    protocol::law_message_on_the_wire(msg);
    protocol::law_message_round_trip(msg, Seq::empty());
    assert(msg.encoded() + Seq::empty() =~= msg.encoded());
}

/// What a ring that holds a message gives, and what it holds afterwards.
proof fn lemma_polled(
    ring: RingBuf,
    before: Seq<u8>,
    after: Seq<u8>,
    bytes: Seq<u8>,
    others: Seq<Seq<u8>>,
)
    requires
        ring.holds(before, seq![bytes] + others),
        bytes.len() < 0x1_0000_0000,
    ensures
        ring::first_message(ring.unread(before)) == Some(bytes),
        ring.taken(before, after, bytes) ==> ring.holds(after, others),
{
    let messages = seq![bytes] + others;
    assert(messages[0] == bytes);
    assert(messages.drop_first() =~= others);
    ring::law_pop_takes_oldest(ring, before, after, messages);
}

/// A request is sent exactly if there is space for it, behind those that were sent before, and a
/// response is awaited to every message but a shutdown.
pub proof fn law_send(
    client: Client,
    region: &mut [u8],
    msg: Message,
    awaited: Result<bool, ClientError>,
    messages: Seq<Seq<u8>>,
)
    requires
        call_ensures(Client::send, (&client, region, &msg), awaited),
        client.wf(),
        client.requests().holds(old(region)@, messages),
    ensures
        awaited is Ok <==> 17 + msg.payload@.len() + client.requests().unread(old(region)@).len()
            <= client.requests().cap(),
        awaited matches Ok(waits) ==> (waits <==> !(msg.msg_type is Shutdown)),
        awaited is Ok ==> client.requests().holds(final(region)@, messages.push(msg@.encoded())),
        awaited is Err ==> awaited == Err::<bool, ClientError>(ClientError::RequestRingFull)
            && final(region)@ == old(region)@,
{
    protocol::law_message_on_the_wire(msg@);
    if awaited is Ok {
        ring::law_push_appends(
            client.requests(),
            old(region)@,
            final(region)@,
            messages,
            msg@.encoded(),
        );
    }
}

/// Whether a response is awaited: to every message that was pushed but a shutdown.
pub proof fn law_awaits_reply(pushed: bool, msg: Message, awaited: Result<bool, ClientError>)
    requires
        call_ensures(awaits_reply, (pushed, &msg), awaited),
    ensures
        !pushed <==> awaited == Err::<bool, ClientError>(ClientError::RequestRingFull),
        pushed && msg.msg_type is Shutdown ==> awaited == Ok::<bool, ClientError>(false),
        pushed && !(msg.msg_type is Shutdown) ==> awaited == Ok::<bool, ClientError>(true),
{
}

/// Ids start at 1, and each request gets the one after the last.
pub proof fn law_next_id(
    req_region: &[u8],
    resp_region: &[u8],
    opened: Client,
    client: &mut Client,
    id: u64,
)
    requires
        call_ensures(Client::open, (req_region, resp_region), opened),
        call_ensures(Client::next_id, (client,), id),
    ensures
        opened.upcoming_id() == 1,
        id == old(client).upcoming_id(),
        id < u64::MAX ==> final(client).upcoming_id() == id + 1,
        id == u64::MAX ==> final(client).upcoming_id() == 0,
        final(client).requests() == old(client).requests(),
        final(client).responses() == old(client).responses(),
{
}

/// A request for an action has the next id and the action in its payload, and its data if there is
/// any.
pub proof fn law_action_request(
    client: &mut Client,
    action: &str,
    data: &str,
    with_data: bool,
    msg: Message,
)
    requires
        call_ensures(
            Client::action_request,
            (
                client,
                action,
                if with_data {
                    Some(data)
                } else {
                    None
                },
            ),
            msg,
        ),
    ensures
        msg.request_id == old(client).upcoming_id(),
        msg.msg_type is Request,
        with_data ==> msg.payload@ == encode_utf8(
            "{\"action\":"@ + json::quoted(action@) + ",\"data\":"@ + json::quoted(data@) + "}"@,
        ),
        !with_data ==> msg.payload@ == encode_utf8(
            "{\"action\":"@ + json::quoted(action@) + "}"@,
        ),
        final(client).upcoming_id() == (old(client).upcoming_id() + 1) % 0x1_0000_0000_0000_0000,
{
    law_requests_written_out(old(client).upcoming_id(), action@, data@, data@);
    law_ids(old(client).upcoming_id());
}

/// What a response is shown as: the text of a response, the error of an error, and a remark on
/// anything else.
pub proof fn law_what_is_shown(msg_type: MessageType, shown: Shown)
    requires
        call_ensures(shown_as, (msg_type,), shown),
    ensures
        shown is Text <==> msg_type is Response,
        shown is Error <==> msg_type is Error,
        shown is Unexpected <==> msg_type is Request || msg_type is Shutdown,
{
}

/// Each client error has a kind of its own.
pub proof fn law_client_error_kinds(error: ClientError, kind: ClientErrorKind)
    requires
        call_ensures(ClientError::kind, (&error,), kind),
    ensures
        kind is WouldBlock <==> error is RequestRingFull,
        kind is TimedOut <==> error is ResponseTimeout,
        kind is InvalidData <==> error is InvalidResponse,
{
}

/// The files of the server `name` are `name` with `_req` and with `_resp`.
pub proof fn law_server_files(name: &str, requests: String, responses: String)
    requires
        call_ensures(request_file, (name,), requests),
        call_ensures(response_file, (name,), responses),
    ensures
        requests@ == name@ + "_req"@,
        responses@ == name@ + "_resp"@,
        requests@ != responses@,
{
    reveal_strlit("_req");
    reveal_strlit("_resp");
    assert(requests@.len() < responses@.len());
}

/// Each client error in words.
pub proof fn law_client_messages(error: ClientError, words: String, reason: String)
    requires
        call_ensures(ClientError::message, (&error,), words),
        error matches ClientError::InvalidResponse(e) ==> call_ensures(
            ProtocolError::message,
            (&e,),
            reason,
        ),
    ensures
        error is RequestRingFull ==> words@ == "request ring full"@,
        error is ResponseTimeout ==> words@ == "response timeout"@,
        error is InvalidResponse ==> words@ == "decode error: "@ + reason@,
{
}

/// What a line that was typed comes to, whatever white space is round it: the word before its first
/// space names the command, and what follows that space is the data of an echo.
pub proof fn law_line_step(
    client: &mut Client,
    line: &str,
    step: LineStep,
    front: Seq<char>,
    word: Seq<char>,
    tail: Seq<char>,
    end: Seq<char>,
)
    requires
        call_ensures(Client::line_step, (client, line), step),
        line@ == front + (word + tail) + end,
        forall|i: int| 0 <= i < front.len() ==> text::is_white(#[trigger] front[i]),
        forall|i: int| 0 <= i < end.len() ==> text::is_white(#[trigger] end[i]),
        word.len() > 0,
        !word.contains(' '),
        !text::is_white(word[0]),
        tail.len() == 0 ==> !text::is_white(word.last()),
        tail.len() > 0 ==> tail.len() > 1 && tail[0] == ' ' && !text::is_white(tail.last()),
    ensures
        word == "ping"@ ==> (step matches LineStep::Send(msg) && msg.payload@ == encode_utf8(
            "{\"action\":\"ping\"}"@,
        )),
        word == "info"@ ==> (step matches LineStep::Send(msg) && msg.payload@ == encode_utf8(
            "{\"action\":\"info\"}"@,
        )),
        word == "echo"@ && tail.len() > 0 ==> (step matches LineStep::Send(msg) && msg.payload@
            == encode_utf8(
            "{\"action\":\"echo\",\"data\":"@ + json::quoted(tail.skip(1)) + "}"@,
        )),
        word == "echo"@ && tail.len() == 0 ==> (step matches LineStep::Send(msg) && msg.payload@
            == encode_utf8(
            "{\"action\":\"echo\",\"data\":"@ + json::quoted(Seq::empty()) + "}"@,
        )),
        word == "shutdown"@ <==> step is SendAndLeave,
        step matches LineStep::SendAndLeave(msg) ==> msg.msg_type is Shutdown && msg.request_id
            == 0 && msg.payload@.len() == 0,
        word == "quit"@ || word == "exit"@ <==> step is Leave,
        word == "help"@ <==> step is Help,
        step is Send <==> word == "ping"@ || word == "info"@ || word == "echo"@,
        step matches LineStep::Send(msg) ==> msg.msg_type is Request && msg.request_id == old(
            client,
        ).upcoming_id(),
        step is Unknown ==> (step matches LineStep::Unknown(w) && w@ == word),
        !(step is Nothing),
        step is Send ==> final(client).upcoming_id() == (old(client).upcoming_id() + 1)
            % 0x1_0000_0000_0000_0000,
        !(step is Send) ==> final(client).upcoming_id() == old(client).upcoming_id(),
{
    law_typed_line(front, word, tail, end, old(client).upcoming_id());
    law_ids(old(client).upcoming_id());
    lemma_command_words();
}

/// A line of white space comes to nothing.
pub proof fn law_blank_line(client: &mut Client, line: &str, step: LineStep)
    requires
        call_ensures(Client::line_step, (client, line), step),
        forall|i: int| 0 <= i < line@.len() ==> text::is_white(#[trigger] line@[i]),
    ensures
        step is Nothing,
        final(client).upcoming_id() == old(client).upcoming_id(),
{
    text::law_trimmed_text(line@, Seq::empty(), Seq::empty());
}

/// What the words after the options come to: the first names the command, and the others, joined by
/// spaces, are what is echoed or sent as it is. No words ask for the interactive mode.
pub proof fn law_command_step(
    client: &mut Client,
    words: Vec<String>,
    step: CommandStep,
    word: Seq<char>,
    rest: Seq<Seq<char>>,
)
    requires
        call_ensures(Client::command_step, (client, &words), step),
    ensures
        words@.len() == 0 ==> step is Interactive,
        text::texts(words@) == seq![word] + rest ==> {
            &&& word == "interactive"@ <==> step is Interactive
            &&& word == "ping"@ ==> (step matches CommandStep::Action(msg) && msg.payload@
                == encode_utf8("{\"action\":\"ping\"}"@))
            &&& word == "info"@ ==> (step matches CommandStep::Action(msg) && msg.payload@
                == encode_utf8("{\"action\":\"info\"}"@))
            &&& word == "echo"@ ==> (step matches CommandStep::Action(msg) && msg.payload@
                == encode_utf8(
                "{\"action\":\"echo\",\"data\":"@ + json::quoted(text::joined_words(rest)) + "}"@,
            ))
            &&& word == "send"@ ==> (step matches CommandStep::Raw(msg) && msg.payload@
                == encode_utf8(text::joined_words(rest)))
            &&& word == "shutdown"@ <==> step is Shutdown
            &&& step is Unknown ==> (step matches CommandStep::Unknown(w) && w@ == word)
            &&& step is Unknown <==> word != "interactive"@ && word != "ping"@ && word != "info"@
                && word != "echo"@ && word != "send"@ && word != "shutdown"@
        },
        step matches CommandStep::Action(msg) ==> msg.msg_type is Request && msg.request_id
            == old(client).upcoming_id(),
        step matches CommandStep::Raw(msg) ==> msg.msg_type is Request && msg.request_id == old(
            client,
        ).upcoming_id(),
        step matches CommandStep::Shutdown(msg) ==> msg.msg_type is Shutdown && msg.request_id == 0
            && msg.payload@.len() == 0,
        step is Action || step is Raw ==> final(client).upcoming_id() == (old(
            client,
        ).upcoming_id() + 1) % 0x1_0000_0000_0000_0000,
        !(step is Action || step is Raw) ==> final(client).upcoming_id() == old(
            client,
        ).upcoming_id(),
{
    let all = text::texts(words@);
    assert(all.len() == words@.len());
    if words@.len() == 0 {
        assert(all =~= Seq::empty());
    }
    law_command_words(word, rest, old(client).upcoming_id());
    law_ids(old(client).upcoming_id());
    lemma_command_words();
}

/// Reading a line and reading the words after the options finds the command that is named.
pub proof fn law_parsed_commands(
    line: &str,
    typed: LineCommand,
    words: Vec<String>,
    command: ClientCommand,
)
    requires
        call_ensures(parse_line, (line,), typed),
        call_ensures(parse_command, (&words,), command),
        words@.len() > 0,
        line@ == words@[0]@,
        line@.len() > 0,
        !line@.contains(' '),
        !text::is_white(line@[0]),
        !text::is_white(line@.last()),
    ensures
        line@ == "ping"@ <==> typed is Ping,
        line@ == "ping"@ <==> command is Ping,
        line@ == "info"@ <==> typed is Info,
        line@ == "info"@ <==> command is Info,
        line@ == "shutdown"@ <==> typed is Shutdown,
        line@ == "shutdown"@ <==> command is Shutdown,
        line@ == "quit"@ || line@ == "exit"@ <==> typed is Quit,
        line@ == "help"@ <==> typed is Help,
        line@ == "interactive"@ <==> command is Interactive,
        line@ == "echo"@ <==> typed is Echo,
        line@ == "echo"@ <==> command is Echo,
        line@ == "send"@ <==> command is Send,
{
    law_typed_line(Seq::empty(), line@, Seq::empty(), Seq::empty(), 0);
    assert(Seq::<char>::empty() + (line@ + Seq::<char>::empty()) + Seq::<char>::empty() =~= line@);
    let all = text::texts(words@);
    let rest = all.skip(1);
    assert(all[0] == line@);
    assert(all =~= seq![line@] + rest);
    law_command_words(line@, rest, 0);
    lemma_command_words();
}

/// Without options the client looks for the server `shm_server` where shared memory files go, and
/// runs the command that the words are.
pub proof fn law_plain_command_line(
    args: Vec<String>,
    linux: bool,
    asked: ClientArgs,
    i: int,
)
    requires
        call_ensures(parse_client_args, (&args, linux), asked),
        args@.len() > 1 ==> args@[1]@ != "--shm-dir"@ && args@[1]@ != "--name"@ && args@[1]@
            != "--help"@ && args@[1]@ != "-h"@,
    ensures
        asked matches ClientArgs::Run { shm_dir, name, command } && {
            &&& shm_dir@ == if linux {
                "/dev/shm"@
            } else {
                "/tmp"@
            }
            &&& name@ == "shm_server"@
            &&& args@.len() > 0 ==> command@.len() == args@.len() - 1
            &&& args@.len() == 0 ==> command@.len() == 0
            &&& 1 <= i < args@.len() ==> command@[i - 1]@ == args@[i]@
        },
{
    let words = text::operands(args@);
    if args@.len() > 0 {
        assert(words =~= text::texts(args@).skip(1));
    }
    if words.len() > 0 {
        assert(words[0] == args@[1]@);
    } else {
        assert(words =~= Seq::empty());
    }
    match asked {
        ClientArgs::Run { shm_dir, name, command } => {
            assert(text::texts(command@) == words);
            assert(text::texts(command@).len() == command@.len());
            if 1 <= i < args@.len() {
                assert(text::texts(command@)[i - 1] == command@[i - 1]@);
                assert(words[i - 1] == args@[i]@);
            }
        },
        _ => {},
    }
}

} // verus!
