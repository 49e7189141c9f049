//! Logic of the request/response server.
//!
//! The server reads requests from one ring buffer, answers them, and writes the
//! responses to another.

use crate::channel;
use crate::json;
use crate::protocol;
use crate::protocol::{Message, MessageType, MessageView, ProtocolError};
use crate::text;
use serde_json::Value;
use vstd::prelude::*;
use vstd::string::*;
use vstd::utf8::*;

verus! {

// ─── Requests ────────────────────────────────────────────────────────────────

/// What the server says about itself.
pub struct ServerInfo {
    pub version: String,
    pub pid: u32,
}

/// A JSON command: the action that it asks for, if it names one, and its data.
pub struct Command {
    pub action: Option<String>,
    pub data: Option<Value>,
}

/// What a command consists of: the data by its compact JSON text.
#[verifier::ext_equal]
pub struct CommandView {
    pub action: Option<Seq<char>>,
    pub data: Option<Seq<char>>,
}

impl View for Command {
    type V = CommandView;

    open spec fn view(&self) -> CommandView {
        CommandView {
            action: match self.action {
                Some(a) => Some(a@),
                None => None,
            },
            data: match self.data {
                Some(d) => Some(json::json_text(d)),
                None => None,
            },
        }
    }
}

/// The command in a JSON document with the given members: the string under "action", if
/// there is one and it is a string, and what is under "data".
pub open spec fn command_of_members(members: Map<Seq<char>, Seq<char>>) -> CommandView {
    CommandView {
        action: if members.contains_key("action"@) {
            json::json_string(members["action"@])
        } else {
            None
        },
        data: if members.contains_key("data"@) {
            Some(members["data"@])
        } else {
            None
        },
    }
}

/// The command in a payload, if the payload is UTF-8 text of a JSON document.
pub open spec fn command_of(payload: Seq<u8>) -> Option<CommandView> {
    match text::utf8_text(payload) {
        Some(t) => match json::json_parsed(t) {
            Some(document) => Some(command_of_members(json::json_members(document))),
            None => None,
        },
        None => None,
    }
}

/// The ways in which the server answers a command.
#[derive(Debug, Clone, Copy, PartialEq, Eq, Structural)]
pub enum Action {
    Echo,
    Ping,
    Info,
    Unknown,
}

/// How a command that names the given action is answered. A command that names none is
/// answered as an echo.
pub open spec fn action_of(action: Option<Seq<char>>) -> Action {
    match action {
        None => Action::Echo,
        Some(a) => if a == "echo"@ {
            Action::Echo
        } else if a == "ping"@ {
            Action::Ping
        } else if a == "info"@ {
            Action::Info
        } else {
            Action::Unknown
        },
    }
}

/// What an echo shows of a command's data: null where there is none.
pub open spec fn shown_data(data: Option<Seq<char>>) -> Seq<char> {
    match data {
        Some(d) => d,
        None => "null"@,
    }
}

/// The text of the answer to an echo that shows the given data.
pub open spec fn echo_text(shown: Seq<char>) -> Seq<char> {
    json::object_text(seq![("echo"@, shown), ("status"@, json::quoted("ok"@))])
}

/// The text of the answer to a ping.
pub open spec fn pong_text() -> Seq<char> {
    json::object_text(seq![("status"@, json::quoted("pong"@))])
}

/// The text of the answer to a question for information.
pub open spec fn info_text(info: ServerInfo) -> Seq<char> {
    json::object_text(
        seq![
            ("pid"@, text::decimal(info.pid as nat)),
            ("server"@, json::quoted("dev_shm_server"@)),
            ("status"@, json::quoted("ok"@)),
            ("version"@, json::quoted(info.version@)),
        ],
    )
}

/// The answer to a message that carries the given command. A message without a command is
/// echoed as it is; an unknown action is an error.
pub open spec fn reply_of(msg: MessageView, command: Option<CommandView>, info: ServerInfo) -> MessageView {
    match command {
        None => MessageView {
            request_id: msg.request_id,
            msg_type: MessageType::Response,
            payload: msg.payload,
        },
        Some(c) => match action_of(c.action) {
            Action::Echo => MessageView {
                request_id: msg.request_id,
                msg_type: MessageType::Response,
                payload: encode_utf8(echo_text(shown_data(c.data))),
            },
            Action::Ping => MessageView {
                request_id: msg.request_id,
                msg_type: MessageType::Response,
                payload: encode_utf8(pong_text()),
            },
            Action::Info => MessageView {
                request_id: msg.request_id,
                msg_type: MessageType::Response,
                payload: encode_utf8(info_text(info)),
            },
            Action::Unknown => MessageView {
                request_id: msg.request_id,
                msg_type: MessageType::Error,
                payload: encode_utf8("unknown action: "@ + c.action.unwrap()),
            },
        },
    }
}

/// How a command that names the given action is answered.
pub fn choose_action(action: Option<&str>) -> (chosen: Action)
    ensures
        chosen == action_of(
            match action {
                Some(a) => Some(a@),
                None => None,
            },
        ),
{
    match action {
        None => Action::Echo,
        Some(a) => if text::same_text(a, "echo") {
            Action::Echo
        } else if text::same_text(a, "ping") {
            Action::Ping
        } else if text::same_text(a, "info") {
            Action::Info
        } else {
            Action::Unknown
        },
    }
}

/// The command in a payload, if the payload is UTF-8 text of a JSON document.
pub fn read_command(payload: &[u8]) -> (command: Option<Command>)
    ensures
        match command {
            Some(c) => command_of(payload@) == Some(c@),
            None => command_of(payload@) is None,
        },
{
    let t = match text::utf8_str(payload) {
        Some(t) => t,
        None => {
            return None;
        },
    };
    let document = match json::parse_value(t) {
        Some(document) => document,
        None => {
            return None;
        },
    };
    let action: Option<String> = match json::member(&document, "action") {
        Some(a) => match json::as_string(a) {
            Some(s) => {
                proof {
                    json::law_string_literal(s@);
                }
                Some(s.to_owned())
            },
            None => None,
        },
        None => None,
    };
    let data: Option<Value> = match json::member(&document, "data") {
        Some(d) => Some(json::clone_value(d)),
        None => None,
    };
    Some(Command { action, data })
}

/// The text of the answer to an echo.
fn render_echo(data: &Option<Value>) -> (t: String)
    ensures
        t@ == echo_text(
            match *data {
                Some(d) => json::json_text(d),
                None => "null"@,
            },
        ),
{
    let echoed = match data {
        Some(d) => json::clone_value(d),
        None => json::null_value(),
    };
    let mut members: Vec<(String, Value)> = Vec::new();
    members.push(("echo".to_owned(), echoed));
    members.push(("status".to_owned(), json::string_value("ok")));
    proof {
        let ms = json::member_texts(members@);
        reveal_strlit("echo");
        reveal_strlit("status");
        assert(json::before("echo"@, "status"@));
        assert(ms =~= seq![("echo"@, json::json_text(echoed)), ("status"@, json::quoted("ok"@))]);
    }
    json::value_text(&json::object_value(members))
}

/// The text of the answer to a ping.
fn render_pong() -> (t: String)
    ensures
        t@ == pong_text(),
{
    let mut members: Vec<(String, Value)> = Vec::new();
    members.push(("status".to_owned(), json::string_value("pong")));
    assert(json::member_texts(members@) =~= seq![("status"@, json::quoted("pong"@))]);
    json::value_text(&json::object_value(members))
}

/// The text of the answer to a question for information.
fn render_info(info: &ServerInfo) -> (t: String)
    ensures
        t@ == info_text(*info),
{
    let mut members: Vec<(String, Value)> = Vec::new();
    members.push(("pid".to_owned(), json::number_value(info.pid)));
    members.push(("server".to_owned(), json::string_value("dev_shm_server")));
    members.push(("status".to_owned(), json::string_value("ok")));
    members.push(("version".to_owned(), json::string_value(info.version.as_str())));
    proof {
        let ms = json::member_texts(members@);
        reveal_strlit("pid");
        reveal_strlit("server");
        reveal_strlit("status");
        reveal_strlit("version");
        assert(json::before("pid"@, "server"@));
        assert(json::before("pid"@, "status"@));
        assert(json::before("pid"@, "version"@));
        assert(json::before("server"@, "version"@));
        assert(json::before("status"@, "version"@));
        assert(json::before("server"@, "status"@)) by {
            reveal_with_fuel(json::before, 2);
        }
        assert(ms =~= seq![
            ("pid"@, text::decimal(info.pid as nat)),
            ("server"@, json::quoted("dev_shm_server"@)),
            ("status"@, json::quoted("ok"@)),
            ("version"@, json::quoted(info.version@)),
        ]);
    }
    json::value_text(&json::object_value(members))
}

/// The answer to a message that carries the given command.
pub fn reply_to(msg: &Message, command: &Option<Command>, info: &ServerInfo) -> (reply: Message)
    ensures
        reply@ == reply_of(
            msg@,
            match *command {
                Some(c) => Some(c@),
                None => None,
            },
            *info,
        ),
{
    match command {
        None => Message::response(
            msg.request_id,
            vstd::slice::slice_to_vec(msg.payload.as_slice()),
        ),
        Some(c) => {
            let action: Option<&str> = match &c.action {
                Some(a) => Some(a.as_str()),
                None => None,
            };
            match choose_action(action) {
                Action::Echo => Message::response(
                    msg.request_id,
                    text::text_bytes(render_echo(&c.data).as_str()),
                ),
                Action::Ping => Message::response(
                    msg.request_id,
                    text::text_bytes(render_pong().as_str()),
                ),
                Action::Info => Message::response(
                    msg.request_id,
                    text::text_bytes(render_info(info).as_str()),
                ),
                Action::Unknown => {
                    let words = match action {
                        Some(a) => text::join_texts("unknown action: ", a),
                        None => String::new(),
                    };
                    Message::error(msg.request_id, words.as_str())
                },
            }
        },
    }
}

/// Default request handler: echoes the payload back as JSON with metadata.
pub fn handle_request(msg: &Message, info: &ServerInfo) -> (reply: Message)
    ensures
        reply@ == reply_of(msg@, command_of(msg@.payload), *info),
{
    let command = read_command(msg.payload.as_slice());
    reply_to(msg, &command, info)
}

/// An answer belongs to its request: it has the request's id, and it is an error exactly
/// where the request is a command with an unknown action, a response otherwise.
pub proof fn law_reply_answers_request(
    msg: MessageView,
    command: Option<CommandView>,
    info: ServerInfo,
)
    ensures
        reply_of(msg, command, info).request_id == msg.request_id,
        reply_of(msg, command, info).msg_type == if command is Some && action_of(
            command.unwrap().action,
        ) is Unknown {
            MessageType::Error
        } else {
            MessageType::Response
        },
        command is None ==> reply_of(msg, command, info).payload == msg.payload,
{
}

// ─── Main loop ───────────────────────────────────────────────────────────────

/// How long the server pauses when there is no request.
#[derive(Debug, Clone, Copy, PartialEq, Eq, Structural)]
pub enum Pause {
    /// Spin for a moment.
    Spin,
    /// Let other threads run.
    Yield,
    /// Sleep for `SLEEP_MICROS`.
    Sleep,
}

/// Length of the longest pause, in microseconds.
pub const SLEEP_MICROS: u64 = 100;

/// What the server does about a message.
pub enum ServerAction {
    /// Stop serving: the message was a shutdown.
    Stop,
    /// Put these bytes into the response ring; if it is full, drop the response to the
    /// request with this id.
    Reply { request_id: u64, bytes: Vec<u8> },
    /// Report that the message could not be decoded, and go on.
    Report(ProtocolError),
}

/// State of the server's main loop: how often in a row there was no request.
pub struct ServerLoop {
    idle_count: u32,
}

/// Adaptive backoff: spin briefly, then yield, then sleep.
pub open spec fn pause_after(idle_count: u32) -> Pause {
    if idle_count < 100 {
        Pause::Spin
    } else if idle_count < 1000 {
        Pause::Yield
    } else {
        Pause::Sleep
    }
}

/// Whether an action is the one that the server owes to a message.
pub open spec fn action_for(bytes: Seq<u8>, info: ServerInfo, action: ServerAction) -> bool {
    match protocol::decoded_message(bytes) {
        Ok(msg) => if msg.msg_type is Shutdown {
            action is Stop
        } else {
            &&& action matches ServerAction::Reply { request_id, bytes: reply }
            &&& request_id == msg.request_id
            &&& reply@ == reply_of(msg, command_of(msg.payload), info).encoded()
        },
        Err(e) => action == ServerAction::Report(e),
    }
}

impl ServerLoop {
    /// How often in a row there was no request.
    pub closed spec fn idle(&self) -> u32 {
        self.idle_count
    }

    pub fn new() -> (server: ServerLoop)
        ensures
            server.idle() == 0,
    {
        ServerLoop { idle_count: 0 }
    }

    /// There is no request: how long to pause.
    pub fn on_idle(&mut self) -> (pause: Pause)
        ensures
            final(self).idle() == if old(self).idle() < u32::MAX {
                (old(self).idle() + 1) as u32
            } else {
                u32::MAX
            },
            pause == pause_after(final(self).idle()),
            final(self).idle() < 100 ==> pause is Spin,
            100 <= final(self).idle() < 1000 ==> pause is Yield,
            1000 <= final(self).idle() ==> pause is Sleep,
    {
        self.idle_count = self.idle_count.saturating_add(1);
        if self.idle_count < 100 {
            Pause::Spin
        } else if self.idle_count < 1000 {
            Pause::Yield
        } else {
            Pause::Sleep
        }
    }

    /// A message came out of the request ring: what to do about it.
    pub fn on_message(&mut self, bytes: &[u8], info: &ServerInfo) -> (action: ServerAction)
        ensures
            final(self).idle() == 0,
            action_for(bytes@, *info, action),
            match protocol::decoded_message(bytes@) {
                Ok(msg) => if msg.msg_type is Shutdown {
                    action is Stop
                } else {
                    &&& action matches ServerAction::Reply { request_id, bytes: reply }
                    &&& request_id == msg.request_id
                    &&& reply@ == reply_of(msg, command_of(msg.payload), *info).encoded()
                },
                Err(e) => action == ServerAction::Report(e),
            },
    {
        self.idle_count = 0;
        match Message::decode(bytes) {
            Ok(msg) => {
                if msg.msg_type == MessageType::Shutdown {
                    return ServerAction::Stop;
                }
                let response = handle_request(&msg, info);
                ServerAction::Reply { request_id: msg.request_id, bytes: response.encode() }
            },
            Err(e) => ServerAction::Report(e),
        }
    }
}

/// A request that was encoded is answered under its id, with bytes that decode to the
/// answer, while both payloads are short enough for their length field.
pub proof fn law_request_is_answered(msg: MessageView, info: ServerInfo, action: ServerAction)
    requires
        msg.payload.len() < 0x1_0000_0000,
        !(msg.msg_type is Shutdown),
        reply_of(msg, command_of(msg.payload), info).payload.len() < 0x1_0000_0000,
        action_for(msg.encoded(), info, action),
    ensures
        action matches ServerAction::Reply { request_id, bytes } && request_id == msg.request_id
            && protocol::decoded_message(bytes@) == Ok::<MessageView, ProtocolError>(
            reply_of(msg, command_of(msg.payload), info),
        ),
{
    protocol::law_message_round_trip(msg, Seq::empty());
    assert(msg.encoded() + Seq::empty() =~= msg.encoded());
    let reply = reply_of(msg, command_of(msg.payload), info);
    protocol::law_message_round_trip(reply, Seq::empty());
    assert(reply.encoded() + Seq::empty() =~= reply.encoded());
}

/// A shutdown message stops the server, and nothing else does.
pub proof fn law_only_shutdown_stops(bytes: Seq<u8>, info: ServerInfo, action: ServerAction)
    requires
        action_for(bytes, info, action),
    ensures
        action is Stop <==> (protocol::decoded_message(bytes) matches Ok(msg)
            && msg.msg_type is Shutdown),
{
}

// ─── Command line ────────────────────────────────────────────────────────────

/// Ring size unless `--size` is given: 16 MB per ring.
pub const DEFAULT_SIZE: usize = 16777216;

/// What the server is started with.
pub struct Config {
    pub shm_dir: String,
    pub size: usize,
    pub name: String,
}

/// What the command line asks for.
pub enum ServerArgs {
    /// Serve with this configuration.
    Run(Config),
    /// Print the usage and leave.
    Help,
    /// Complain about this argument and leave.
    UnknownArgument(String),
    /// The option has no value after it.
    MissingValue(String),
    /// The value of `--size` is not a number that fits the machine word.
    InvalidSize(String),
}

#[verifier::ext_equal]
pub struct ConfigView {
    pub shm_dir: Seq<char>,
    pub size: usize,
    pub name: Seq<char>,
}

#[verifier::ext_equal]
pub enum ServerArgsView {
    Run(ConfigView),
    Help,
    UnknownArgument(Seq<char>),
    MissingValue(Seq<char>),
    InvalidSize(Seq<char>),
}

impl View for Config {
    type V = ConfigView;

    open spec fn view(&self) -> ConfigView {
        ConfigView { shm_dir: self.shm_dir@, size: self.size, name: self.name@ }
    }
}

impl View for ServerArgs {
    type V = ServerArgsView;

    open spec fn view(&self) -> ServerArgsView {
        match self {
            ServerArgs::Run(config) => ServerArgsView::Run(config@),
            ServerArgs::Help => ServerArgsView::Help,
            ServerArgs::UnknownArgument(a) => ServerArgsView::UnknownArgument(a@),
            ServerArgs::MissingValue(a) => ServerArgsView::MissingValue(a@),
            ServerArgs::InvalidSize(a) => ServerArgsView::InvalidSize(a@),
        }
    }
}

/// What the arguments ask for, read from the front, given the options read so far. An
/// option that occurs twice counts the last time.
pub open spec fn server_args(args: Seq<Seq<char>>, config: ConfigView) -> ServerArgsView
    decreases args.len(),
{
    if args.len() == 0 {
        ServerArgsView::Run(config)
    } else if args[0] == "--shm-dir"@ || args[0] == "--size"@ || args[0] == "--name"@ {
        if args.len() == 1 {
            ServerArgsView::MissingValue(args[0])
        } else if args[0] == "--shm-dir"@ {
            server_args(args.skip(2), ConfigView { shm_dir: args[1], ..config })
        } else if args[0] == "--name"@ {
            server_args(args.skip(2), ConfigView { name: args[1], ..config })
        } else {
            match text::usize_of(args[1]) {
                Some(size) => server_args(args.skip(2), ConfigView { size, ..config }),
                None => ServerArgsView::InvalidSize(args[1]),
            }
        }
    } else if args[0] == "--help"@ || args[0] == "-h"@ {
        ServerArgsView::Help
    } else {
        ServerArgsView::UnknownArgument(args[0])
    }
}

/// What the server is started with if nothing is asked for.
pub open spec fn default_config(linux: bool) -> ConfigView {
    ConfigView { shm_dir: channel::default_dir(linux), size: DEFAULT_SIZE, name: "shm_server"@ }
}

/// Reads the command line, the program's name first.
pub fn parse_args(args: &Vec<String>, linux: bool) -> (asked: ServerArgs)
    ensures
        asked@ == server_args(text::operands(args@), default_config(linux)),
{
    let mut config = Config {
        shm_dir: channel::default_shm_dir(linux),
        size: DEFAULT_SIZE,
        name: "shm_server".to_owned(),
    };
    if args.len() == 0 {
        return ServerArgs::Run(config);
    }
    let ghost all = text::texts(args@);
    let mut i: usize = 1;
    while i < args.len()
        invariant
            1 <= i <= args@.len(),
            all == text::texts(args@),
            server_args(text::operands(args@), default_config(linux)) == server_args(
                all.skip(i as int),
                config@,
            ),
        decreases args@.len() - i,
    {
        let ghost rest = all.skip(i as int);
        assert(rest[0] == args@[i as int]@);
        let arg = args[i].as_str();
        let takes_dir = text::same_text(arg, "--shm-dir");
        let takes_size = text::same_text(arg, "--size");
        let takes_name = text::same_text(arg, "--name");
        if takes_dir || takes_size || takes_name {
            if i + 1 >= args.len() {
                return ServerArgs::MissingValue(arg.to_owned());
            }
            let value = args[i + 1].as_str();
            assert(rest[1] == value@);
            assert(rest.skip(2) =~= all.skip(i + 2));
            if takes_dir {
                config.shm_dir = value.to_owned();
            } else if takes_name {
                config.name = value.to_owned();
            } else {
                match text::parse_usize(value) {
                    Some(size) => {
                        config.size = size;
                    },
                    None => {
                        return ServerArgs::InvalidSize(value.to_owned());
                    },
                }
            }
            i += 2;
        } else if text::same_text(arg, "--help") || text::same_text(arg, "-h") {
            return ServerArgs::Help;
        } else {
            return ServerArgs::UnknownArgument(arg.to_owned());
        }
    }
    ServerArgs::Run(config)
}

// ─── What is answered ────────────────────────────────────────────────────────

/// The answers, written out. An echo shows the document under "data" as it is, whatever its
/// kind, and null only where there is none or it is null itself; a command without an action is
/// an echo too. A ping is answered with pong, a question for information with what the server
/// says about itself, any other action with an error that names it, and what is no command with
/// its own bytes.
pub proof fn law_answers_written_out(
    msg: MessageView,
    named: bool,
    data: Seq<char>,
    other: Option<Seq<char>>,
    unknown: Seq<char>,
    info: ServerInfo,
)
    ensures
        ({
            let action = if named {
                Some("echo"@)
            } else {
                None
            };
            &&& reply_of(msg, Some(CommandView { action, data: Some(data) }), info) == (
            MessageView {
                request_id: msg.request_id,
                msg_type: MessageType::Response,
                payload: encode_utf8("{\"echo\":"@ + data + ",\"status\":\"ok\"}"@),
            })
            &&& reply_of(msg, Some(CommandView { action, data: None }), info) == (MessageView {
                request_id: msg.request_id,
                msg_type: MessageType::Response,
                payload: encode_utf8("{\"echo\":null,\"status\":\"ok\"}"@),
            })
        }),
        reply_of(msg, Some(CommandView { action: Some("ping"@), data: other }), info) == (
        MessageView {
            request_id: msg.request_id,
            msg_type: MessageType::Response,
            payload: encode_utf8("{\"status\":\"pong\"}"@),
        }),
        reply_of(msg, Some(CommandView { action: Some("info"@), data: other }), info) == (
        MessageView {
            request_id: msg.request_id,
            msg_type: MessageType::Response,
            payload: encode_utf8(
                "{\"pid\":"@ + text::decimal(info.pid as nat)
                    + ",\"server\":\"dev_shm_server\",\"status\":\"ok\",\"version\":"@
                    + json::quoted(info.version@) + "}"@,
            ),
        }),
        unknown != "echo"@ && unknown != "ping"@ && unknown != "info"@ ==> reply_of(
            msg,
            Some(CommandView { action: Some(unknown), data: other }),
            info,
        ) == (MessageView {
            request_id: msg.request_id,
            msg_type: MessageType::Error,
            payload: encode_utf8("unknown action: "@ + unknown),
        }),
        reply_of(msg, None, info) == (MessageView {
            request_id: msg.request_id,
            msg_type: MessageType::Response,
            payload: msg.payload,
        }),
{
    reveal_strlit("echo");
    reveal_strlit("ping");
    reveal_strlit("info");
    assert("ping"@[0] != "info"@[0] && "ping"@[0] != "echo"@[0] && "info"@[0] != "echo"@[0]);
    lemma_echo_text(data);
    lemma_echo_text("null"@);
    reveal_strlit("null");
    reveal_strlit("{\"echo\":");
    reveal_strlit(",\"status\":\"ok\"}");
    reveal_strlit("{\"echo\":null,\"status\":\"ok\"}");
    assert("{\"echo\":"@ + "null"@ + ",\"status\":\"ok\"}"@
        =~= "{\"echo\":null,\"status\":\"ok\"}"@);
    lemma_pong_text();
    lemma_info_text(info);
}

proof fn lemma_echo_text(data: Seq<char>)
    ensures
        echo_text(data) == "{\"echo\":"@ + data + ",\"status\":\"ok\"}"@,
{
    let first = ("echo"@, data);
    let second = ("status"@, json::quoted("ok"@));
    lemma_one_member(second);
    json::law_object_texts(first, seq![second]);
    assert(seq![first] + seq![second] =~= seq![first, second]);
    json::law_object_texts(first, seq![first, second]);
    lemma_echo_pieces();
    lemma_echo_regrouped(
        seq!['{'],
        json::quoted(first.0) + seq![':'],
        data,
        seq![','],
        json::quoted(second.0) + seq![':'] + second.1,
        seq!['}'],
    );
}

/// The parts of the answer to an echo that do not vary.
proof fn lemma_echo_pieces()
    ensures
        seq!['{'] + (json::quoted("echo"@) + seq![':']) == "{\"echo\":"@,
        seq![','] + (json::quoted("status"@) + seq![':'] + json::quoted("ok"@)) + seq!['}']
            == ",\"status\":\"ok\"}"@,
{
    reveal_strlit("\"");
    assert(seq!['{'] + (json::quoted("echo"@) + seq![':']) =~= "{\"echo\":"@) by {
        reveal_strlit("echo");
        reveal_strlit("{\"echo\":");
        json::law_plain_string("echo"@);
    }
    reveal_strlit("status");
    reveal_strlit("ok");
    reveal_strlit(",\"status\":\"ok\"}");
    json::law_plain_string("status"@);
    json::law_plain_string("ok"@);
    assert(seq![','] + (json::quoted("status"@) + seq![':'] + json::quoted("ok"@)) + seq!['}']
        =~= ",\"status\":\"ok\"}"@);
}

proof fn lemma_echo_regrouped(
    open: Seq<char>,
    a: Seq<char>,
    b: Seq<char>,
    comma: Seq<char>,
    c: Seq<char>,
    close: Seq<char>,
)
    ensures
        open + (a + b + comma + c) + close == (open + a) + b + (comma + c + close),
{
    assert(open + (a + b + comma + c) + close =~= (open + a) + b + (comma + c + close));
}

/// The text of one member.
pub proof fn lemma_one_member(member: (Seq<char>, Seq<char>))
    ensures
        json::members_text(seq![member]) == json::quoted(member.0) + seq![':'] + member.1,
{
    json::law_object_texts(member, seq![member]);
    let inner = json::members_text(seq![member]);
    let outer = json::object_text(seq![member]);
    assert(inner =~= outer.subrange(1, outer.len() - 1));
    assert(json::quoted(member.0) + seq![':'] + member.1 =~= outer.subrange(1, outer.len() - 1));
}

proof fn lemma_pong_text()
    ensures
        pong_text() == "{\"status\":\"pong\"}"@,
{
    reveal_strlit("status");
    reveal_strlit("pong");
    reveal_strlit("{\"status\":\"pong\"}");
    reveal_strlit("\"");
    json::law_plain_string("status"@);
    json::law_plain_string("pong"@);
    let member = ("status"@, json::quoted("pong"@));
    json::law_object_texts(member, seq![member]);
    assert(pong_text() =~= "{\"status\":\"pong\"}"@);
}

proof fn lemma_info_text(info: ServerInfo)
    ensures
        info_text(info) == "{\"pid\":"@ + text::decimal(info.pid as nat)
            + ",\"server\":\"dev_shm_server\",\"status\":\"ok\",\"version\":"@ + json::quoted(
            info.version@,
        ) + "}"@,
{
    let a = ("pid"@, text::decimal(info.pid as nat));
    let b = ("server"@, json::quoted("dev_shm_server"@));
    let c = ("status"@, json::quoted("ok"@));
    let d = ("version"@, json::quoted(info.version@));
    lemma_one_member(d);
    json::law_object_texts(c, seq![d]);
    assert(seq![c] + seq![d] =~= seq![c, d]);
    json::law_object_texts(b, seq![c, d]);
    assert(seq![b] + seq![c, d] =~= seq![b, c, d]);
    json::law_object_texts(a, seq![b, c, d]);
    assert(seq![a] + seq![b, c, d] =~= seq![a, b, c, d]);
    json::law_object_texts(a, seq![a, b, c, d]);
    lemma_info_pieces();
    lemma_regrouped(
        seq!['{'],
        json::quoted("pid"@) + seq![':'],
        a.1,
        seq![','],
        json::quoted(b.0) + seq![':'] + b.1 + seq![','],
        json::quoted(c.0) + seq![':'] + c.1 + seq![','],
        json::quoted(d.0) + seq![':'],
        d.1,
        seq!['}'],
    );
}

/// The parts of the answer to a question for information that do not vary.
proof fn lemma_info_pieces()
    ensures
        seq!['{'] + (json::quoted("pid"@) + seq![':']) == "{\"pid\":"@,
        seq![','] + (json::quoted("server"@) + seq![':'] + json::quoted("dev_shm_server"@)
            + seq![',']) + (json::quoted("status"@) + seq![':'] + json::quoted("ok"@) + seq![','])
            + (json::quoted("version"@) + seq![':'])
            == ",\"server\":\"dev_shm_server\",\"status\":\"ok\",\"version\":"@,
        seq!['}'] == "}"@,
{
    reveal_strlit("\"");
    reveal_strlit("}");
    assert(seq!['}'] =~= "}"@);
    assert(seq!['{'] + (json::quoted("pid"@) + seq![':']) =~= "{\"pid\":"@) by {
        reveal_strlit("pid");
        reveal_strlit("{\"pid\":");
        json::law_plain_string("pid"@);
    }
    let server = json::quoted("server"@) + seq![':'] + json::quoted("dev_shm_server"@) + seq![','];
    let status = json::quoted("status"@) + seq![':'] + json::quoted("ok"@) + seq![','];
    let version = json::quoted("version"@) + seq![':'];
    assert(server =~= "\"server\":\"dev_shm_server\","@) by {
        reveal_strlit("server");
        reveal_strlit("dev_shm_server");
        reveal_strlit("\"server\":\"dev_shm_server\",");
        json::law_plain_string("server"@);
        json::law_plain_string("dev_shm_server"@);
    }
    assert(status =~= "\"status\":\"ok\","@) by {
        reveal_strlit("status");
        reveal_strlit("ok");
        reveal_strlit("\"status\":\"ok\",");
        json::law_plain_string("status"@);
        json::law_plain_string("ok"@);
    }
    assert(version =~= "\"version\":"@) by {
        reveal_strlit("version");
        reveal_strlit("\"version\":");
        json::law_plain_string("version"@);
    }
    reveal_strlit("\"server\":\"dev_shm_server\",");
    reveal_strlit("\"status\":\"ok\",");
    reveal_strlit("\"version\":");
    reveal_strlit(",\"server\":\"dev_shm_server\",\"status\":\"ok\",\"version\":");
    assert(seq![','] + server + status + version
        =~= ",\"server\":\"dev_shm_server\",\"status\":\"ok\",\"version\":"@);
}

proof fn lemma_regrouped(
    open: Seq<char>,
    a: Seq<char>,
    b: Seq<char>,
    comma: Seq<char>,
    c: Seq<char>,
    d: Seq<char>,
    e: Seq<char>,
    f: Seq<char>,
    close: Seq<char>,
)
    ensures
        open + (a + b + comma + (c + (d + (e + f)))) + close == (open + a) + b + (comma + c + d + e)
            + f + close,
{
    assert(open + (a + b + comma + (c + (d + (e + f)))) + close =~= (open + a) + b + (comma + c + d
        + e) + f + close);
}

/// What command a payload holds: none if it is not UTF-8 or no JSON document, and otherwise what
/// is under "data" in the document, if anything is, and the string under "action", if one is.
pub proof fn law_command_in_payload(payload: Seq<u8>, t: Seq<char>, action: Seq<char>)
    ensures
        !valid_utf8(payload) ==> command_of(payload) is None,
        payload == encode_utf8(t) ==> match json::json_parsed(t) {
            None => command_of(payload) is None,
            Some(document) => {
                let members = json::json_members(document);
                &&& command_of(payload) matches Some(command)
                &&& command.data == if members.contains_key("data"@) {
                    Some(members["data"@])
                } else {
                    None
                }
                &&& command.action == Some(action) <==> members.contains_key("action"@)
                    && members["action"@] == json::quoted(action)
                &&& command.action is None <==> !members.contains_key("action"@) || (forall|
                    s: Seq<char>,
                | #[trigger]
                    json::quoted(s) != members["action"@])
            },
        },
{
    text::law_text_of_bytes(payload, t);
    json::law_string_literal(action);
    if payload == encode_utf8(t) && json::json_parsed(t) is Some {
        let members = json::json_members(json::json_parsed(t).unwrap());
        if members.contains_key("action"@) {
            let m = members["action"@];
            if exists|s: Seq<char>| m == #[trigger] json::quoted(s) {
                let s = choose|s: Seq<char>| m == #[trigger] json::quoted(s);
                json::law_string_literal(s);
                assert(json::json_string(m) == Some(s));
            }
        }
    }
}

/// The longer there is nothing to do, the longer the pauses.
pub proof fn law_backoff(a: u32, b: u32)
    ensures
        pause_after(a) is Spin <==> a < 100,
        pause_after(a) is Sleep <==> a >= 1000,
        a <= b && pause_after(b) is Spin ==> pause_after(a) is Spin,
        a <= b && pause_after(a) is Sleep ==> pause_after(b) is Sleep,
{
}

/// What is done about a message: bytes that are none are reported with the reason, a shutdown
/// stops the server, and everything else is answered.
pub proof fn law_action_for_message(
    msg: MessageView,
    rest: Seq<u8>,
    bytes: Seq<u8>,
    info: ServerInfo,
    action: ServerAction,
)
    ensures
        action_for(bytes, info, action) && protocol::decoded_message(bytes) is Err ==> action
            == ServerAction::Report(protocol::decoded_message(bytes)->Err_0),
        action_for(msg.encoded() + rest, info, action) && msg.payload.len() < 0x1_0000_0000
            && msg.msg_type is Shutdown ==> action is Stop,
        action_for(msg.encoded() + rest, info, action) && msg.payload.len() < 0x1_0000_0000 && !(
        msg.msg_type is Shutdown) ==> {
            &&& action matches ServerAction::Reply { request_id, bytes: reply }
            &&& request_id == msg.request_id
            &&& reply@ == reply_of(msg, command_of(msg.payload), info).encoded()
        },
{
    if msg.payload.len() < 0x1_0000_0000 {
        protocol::law_message_round_trip(msg, rest);
    }
}

/// How the command line is read: options from the front, each with the value that follows it,
/// which the last one of its name keeps; anything else ends the reading.
pub proof fn law_server_options(rest: Seq<Seq<char>>, value: Seq<char>, config: ConfigView)
    ensures
        server_args(Seq::empty(), config) == ServerArgsView::Run(config),
        server_args(seq!["--shm-dir"@, value] + rest, config) == server_args(
            rest,
            ConfigView { shm_dir: value, size: config.size, name: config.name },
        ),
        server_args(seq!["--name"@, value] + rest, config) == server_args(
            rest,
            ConfigView { shm_dir: config.shm_dir, size: config.size, name: value },
        ),
        server_args(seq!["--size"@, value] + rest, config) == match text::usize_of(value) {
            Some(size) => server_args(
                rest,
                ConfigView { shm_dir: config.shm_dir, size, name: config.name },
            ),
            None => ServerArgsView::InvalidSize(value),
        },
        server_args(seq!["--shm-dir"@], config) == ServerArgsView::MissingValue("--shm-dir"@),
        server_args(seq!["--name"@], config) == ServerArgsView::MissingValue("--name"@),
        server_args(seq!["--size"@], config) == ServerArgsView::MissingValue("--size"@),
        server_args(seq!["--help"@] + rest, config) == ServerArgsView::Help,
        server_args(seq!["-h"@] + rest, config) == ServerArgsView::Help,
        value != "--shm-dir"@ && value != "--name"@ && value != "--size"@ && value != "--help"@
            && value != "-h"@ ==> server_args(seq![value] + rest, config)
            == ServerArgsView::UnknownArgument(value),
{
    reveal_strlit("--shm-dir");
    reveal_strlit("--name");
    reveal_strlit("--size");
    reveal_strlit("--help");
    reveal_strlit("-h");
    assert("--name"@[2] == 'n' && "--size"@[2] == 's' && "--help"@[2] == 'h');
    assert("--shm-dir"@.len() == 9 && "--name"@.len() == 6 && "--size"@.len() == 6
        && "--help"@.len() == 6 && "-h"@.len() == 2);
    assert((seq!["--shm-dir"@, value] + rest).skip(2) =~= rest);
    assert((seq!["--name"@, value] + rest).skip(2) =~= rest);
    assert((seq!["--size"@, value] + rest).skip(2) =~= rest);
    assert((seq!["--help"@] + rest)[0] == "--help"@);
    assert((seq!["-h"@] + rest)[0] == "-h"@);
    assert((seq![value] + rest)[0] == value);
}

/// What the server is started with if the command line says nothing.
pub proof fn law_server_defaults(linux: bool)
    ensures
        default_config(linux) == (ConfigView {
            shm_dir: if linux {
                "/dev/shm"@
            } else {
                "/tmp"@
            },
            size: 16777216,
            name: "shm_server"@,
        }),
{
}

/// What a command and a configuration consist of are their fields.
pub proof fn law_server_fields(command: Command, config: Config, t: String)
    ensures
        command@.action == match command.action {
            Some(a) => Some(a@),
            None => None,
        },
        command@.data == match command.data {
            Some(d) => Some(json::json_text(d)),
            None => None,
        },
        config@.shm_dir == config.shm_dir@,
        config@.size == config.size,
        config@.name == config.name@,
        ServerArgs::Run(config)@ == ServerArgsView::Run(config@),
        ServerArgs::Help@ == ServerArgsView::Help,
        ServerArgs::UnknownArgument(t)@ == ServerArgsView::UnknownArgument(t@),
        ServerArgs::MissingValue(t)@ == ServerArgsView::MissingValue(t@),
        ServerArgs::InvalidSize(t)@ == ServerArgsView::InvalidSize(t@),
{
}

// ─── What the operations do ──────────────────────────────────────────────────

/// An echo gives back the data of the request as it is, of whatever kind, and shows null only where
/// the request has none; the answer has the id of the request.
pub proof fn law_echo(
    msg: Message,
    info: ServerInfo,
    reply: Message,
    t: Seq<char>,
    document: Seq<char>,
)
    requires
        call_ensures(handle_request, (&msg, &info), reply),
        msg.payload@ == encode_utf8(t),
        json::json_parsed(t) == Some(document),
        json::json_members(document).contains_key("action"@) ==> json::json_members(
            document,
        )["action"@] == json::quoted("echo"@),
    ensures
        reply.request_id == msg.request_id,
        reply.msg_type is Response,
        json::json_members(document).contains_key("data"@) ==> reply.payload@ == encode_utf8(
            "{\"echo\":"@ + json::json_members(document)["data"@] + ",\"status\":\"ok\"}"@,
        ),
        !json::json_members(document).contains_key("data"@) ==> reply.payload@ == encode_utf8(
            "{\"echo\":null,\"status\":\"ok\"}"@,
        ),
{
    let members = json::json_members(document);
    let named = members.contains_key("action"@);
    law_command_in_payload(msg.payload@, t, "echo"@);
    let data = if members.contains_key("data"@) {
        members["data"@]
    } else {
        Seq::empty()
    };
    law_answers_written_out(msg@, named, data, None, Seq::empty(), info);
}

/// What a request that names another action is answered: a ping with pong, a question for
/// information with what the server says about itself, any other with an error that names it.
pub proof fn law_other_actions(
    msg: Message,
    info: ServerInfo,
    reply: Message,
    t: Seq<char>,
    document: Seq<char>,
    action: Seq<char>,
)
    requires
        call_ensures(handle_request, (&msg, &info), reply),
        msg.payload@ == encode_utf8(t),
        json::json_parsed(t) == Some(document),
        json::json_members(document).contains_key("action"@),
        json::json_members(document)["action"@] == json::quoted(action),
    ensures
        reply.request_id == msg.request_id,
        action == "ping"@ ==> reply.msg_type is Response && reply.payload@ == encode_utf8(
            "{\"status\":\"pong\"}"@,
        ),
        action == "info"@ ==> reply.msg_type is Response && reply.payload@ == encode_utf8(
            "{\"pid\":"@ + text::decimal(info.pid as nat)
                + ",\"server\":\"dev_shm_server\",\"status\":\"ok\",\"version\":"@ + json::quoted(
                info.version@,
            ) + "}"@,
        ),
        action != "ping"@ && action != "info"@ && action != "echo"@ ==> reply.msg_type is Error
            && reply.payload@ == encode_utf8("unknown action: "@ + action),
{
    law_command_in_payload(msg.payload@, t, action);
    let command = command_of(msg.payload@).unwrap();
    law_answers_written_out(msg@, true, Seq::empty(), command.data, action, info);
    law_reply_answers_request(msg@, Some(command), info);
}

/// What is no command is answered with its own bytes.
pub proof fn law_plain_request(msg: Message, info: ServerInfo, reply: Message, t: Seq<char>)
    requires
        call_ensures(handle_request, (&msg, &info), reply),
        !valid_utf8(msg.payload@) || (msg.payload@ == encode_utf8(t) && json::json_parsed(t)
            is None),
    ensures
        reply.request_id == msg.request_id,
        reply.msg_type is Response,
        reply.payload@ == msg.payload@,
{
    law_command_in_payload(msg.payload@, t, Seq::empty());
    law_answers_written_out(msg@, true, Seq::empty(), None, Seq::empty(), info);
}

/// What the server does about a message: it stops at a shutdown and at nothing else, answers any
/// other message under its id, and reports bytes that are no message. Any message ends the idling.
pub proof fn law_on_message(
    server: &mut ServerLoop,
    bytes: &[u8],
    info: ServerInfo,
    action: ServerAction,
    msg: MessageView,
    decoded: Result<Message, ProtocolError>,
)
    requires
        call_ensures(ServerLoop::on_message, (server, bytes, &info), action),
        call_ensures(Message::decode, (bytes,), decoded),
        msg.payload.len() < 0x1_0000_0000,
    ensures
        final(server).idle() == 0,
        action is Stop <==> (decoded matches Ok(m) && m.msg_type is Shutdown),
        decoded matches Err(e) ==> action == ServerAction::Report(e),
        bytes@ == msg.encoded() && msg.msg_type is Shutdown ==> action is Stop,
        bytes@ == msg.encoded() && !(msg.msg_type is Shutdown) ==> (
        action matches ServerAction::Reply { request_id, bytes: reply } && request_id
            == msg.request_id && reply@ == reply_of(msg, command_of(msg.payload), info).encoded()),
{
    protocol::law_message_round_trip(msg, Seq::empty());
    assert(msg.encoded() + Seq::empty() =~= msg.encoded());
}

/// The server spins for the first 99 turns without a request, yields up to the 999th, and sleeps
/// from then on. A new server has had no such turn.
pub proof fn law_on_idle(server: &mut ServerLoop, pause: Pause, fresh: ServerLoop)
    requires
        call_ensures(ServerLoop::new, (), fresh),
        call_ensures(ServerLoop::on_idle, (server,), pause),
    ensures
        old(server).idle() < u32::MAX ==> final(server).idle() == old(server).idle() + 1,
        old(server).idle() == u32::MAX ==> final(server).idle() == u32::MAX,
        pause is Spin <==> old(server).idle() < 99,
        pause is Yield <==> 99 <= old(server).idle() < 999,
        pause is Sleep <==> 999 <= old(server).idle(),
        SLEEP_MICROS == 100,
        fresh.idle() == 0,
{
}

/// Without options the server is started with its defaults.
pub proof fn law_plain_start(args: Vec<String>, linux: bool, asked: ServerArgs)
    requires
        call_ensures(parse_args, (&args, linux), asked),
        args@.len() <= 1,
    ensures
        asked matches ServerArgs::Run(config) && {
            &&& config.shm_dir@ == if linux {
                "/dev/shm"@
            } else {
                "/tmp"@
            }
            &&& config.size == 16777216
            &&& config.name@ == "shm_server"@
        },
{
    assert(text::operands(args@) =~= Seq::empty());
    law_server_defaults(linux);
}

/// An option takes the word that follows it and leaves the other defaults as they are.
pub proof fn law_one_option(args: Vec<String>, linux: bool, asked: ServerArgs)
    requires
        call_ensures(parse_args, (&args, linux), asked),
        args@.len() == 3,
    ensures
        args@[1]@ == "--shm-dir"@ ==> (asked matches ServerArgs::Run(config) && config.shm_dir@
            == args@[2]@ && config.size == 16777216 && config.name@ == "shm_server"@),
        args@[1]@ == "--name"@ ==> (asked matches ServerArgs::Run(config) && config.name@
            == args@[2]@ && config.size == 16777216),
        args@[1]@ == "--size"@ ==> match text::usize_of(args@[2]@) {
            Some(n) => asked matches ServerArgs::Run(config) && config.size == n && config.name@
                == "shm_server"@,
            None => asked matches ServerArgs::InvalidSize(t) && t@ == args@[2]@,
        },
{
    let words = text::operands(args@);
    let none = Seq::<Seq<char>>::empty();
    assert(words =~= seq![args@[1]@, args@[2]@] + none);
    law_server_options(none, args@[2]@, default_config(linux));
    law_server_defaults(linux);
    assert(server_args(none, default_config(linux)) == ServerArgsView::Run(default_config(linux)));
}

/// How a command is answered depends on its action alone: one without an action is an echo.
pub proof fn law_choose_action(action: Option<&str>, chosen: Action)
    requires
        call_ensures(choose_action, (action,), chosen),
    ensures
        action is None ==> chosen is Echo,
        action matches Some(a) ==> {
            &&& chosen is Echo <==> a@ == "echo"@
            &&& chosen is Ping <==> a@ == "ping"@
            &&& chosen is Info <==> a@ == "info"@
        },
{
    reveal_strlit("echo");
    reveal_strlit("ping");
    reveal_strlit("info");
    assert("ping"@[0] != "info"@[0] && "ping"@[0] != "echo"@[0] && "info"@[0] != "echo"@[0]);
}

/// What a payload holds: no command if it is not UTF-8 or no JSON document, and otherwise the data
/// and the action that the document names.
pub proof fn law_read_command(
    payload: &[u8],
    command: Option<Command>,
    t: Seq<char>,
    action: Seq<char>,
)
    requires
        call_ensures(read_command, (payload,), command),
    ensures
        !valid_utf8(payload@) ==> command is None,
        payload@ == encode_utf8(t) ==> (command is None <==> json::json_parsed(t) is None),
        payload@ == encode_utf8(t) ==> (command matches Some(c) ==> {
            let members = json::json_members(json::json_parsed(t).unwrap());
            &&& c.data is Some <==> members.contains_key("data"@)
            &&& c.data matches Some(d) ==> json::json_text(d) == members["data"@]
            &&& members.contains_key("action"@) && members["action"@] == json::quoted(action) ==> (
            c.action matches Some(a) && a@ == action)
            &&& !members.contains_key("action"@) ==> c.action is None
        }),
{
    law_command_in_payload(payload@, t, action);
}

/// The answer to a command with data is an echo of that data where the command names no action or
/// names echo.
pub proof fn law_reply_to_echo(
    msg: Message,
    command: Option<Command>,
    info: ServerInfo,
    reply: Message,
)
    requires
        call_ensures(reply_to, (&msg, &command, &info), reply),
        command matches Some(c) && (c.action matches Some(a) ==> a@ == "echo"@),
    ensures
        reply.request_id == msg.request_id,
        reply.msg_type is Response,
        command.unwrap().data matches Some(d) ==> reply.payload@ == encode_utf8(
            "{\"echo\":"@ + json::json_text(d) + ",\"status\":\"ok\"}"@,
        ),
        command.unwrap().data is None ==> reply.payload@ == encode_utf8(
            "{\"echo\":null,\"status\":\"ok\"}"@,
        ),
{
    let c = command.unwrap()@;
    let data = match c.data {
        Some(d) => d,
        None => Seq::empty(),
    };
    law_answers_written_out(msg@, c.action is Some, data, None, Seq::empty(), info);
}

} // verus!
