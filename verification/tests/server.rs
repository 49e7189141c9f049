use dev_shm_server::protocol::{Message, MessageType, ProtocolError};
use dev_shm_server::server::{
    choose_action, handle_request, parse_args, read_command, reply_to, Action, Command, Pause,
    ServerAction, ServerArgs, ServerInfo, ServerLoop, DEFAULT_SIZE, SLEEP_MICROS,
};
use serde_json::Value;

fn info() -> ServerInfo {
    ServerInfo { version: "0.1.0".to_string(), pid: 4242 }
}

fn answer(payload: &[u8]) -> (MessageType, Vec<u8>) {
    let reply = handle_request(&Message::request(77, payload.to_vec()), &info());
    assert_eq!(reply.request_id, 77);
    (reply.msg_type, reply.payload)
}

fn answered(payload: &str) -> String {
    let (msg_type, bytes) = answer(payload.as_bytes());
    assert_eq!(msg_type, MessageType::Response);
    String::from_utf8(bytes).unwrap()
}

#[test]
fn ping_is_answered_with_pong() {
    assert_eq!(answered("{\"action\":\"ping\"}"), "{\"status\":\"pong\"}");
    // White space and other members do not matter, and the last of two counts.
    assert_eq!(
        answered(" { \"x\" : 1 , \"action\" : \"echo\", \"action\" : \"ping\" } "),
        "{\"status\":\"pong\"}"
    );
}

#[test]
fn echo_gives_the_data_back() {
    assert_eq!(
        answered("{\"action\":\"echo\",\"data\":\"hi\"}"),
        "{\"echo\":\"hi\",\"status\":\"ok\"}"
    );
    assert_eq!(
        answered("{\"action\":\"echo\",\"data\":{\"b\":[1,2.5,null],\"a\":true}}"),
        "{\"echo\":{\"a\":true,\"b\":[1,2.5,null]},\"status\":\"ok\"}"
    );
    assert_eq!(
        answered("{\"data\":\"a \\\"quoted\\\"\\nline\"}"),
        "{\"echo\":\"a \\\"quoted\\\"\\nline\",\"status\":\"ok\"}"
    );
}

#[test]
fn echo_without_data_or_action() {
    let empty = "{\"echo\":null,\"status\":\"ok\"}";
    assert_eq!(answered("{\"action\":\"echo\"}"), empty);
    assert_eq!(answered("{}"), empty);
    // An action that is not a string counts as none, and so does a document without members.
    assert_eq!(answered("{\"action\":7}"), empty);
    assert_eq!(answered("[1,2]"), empty);
    assert_eq!(answered("12"), empty);
}

#[test]
fn info_describes_the_server() {
    assert_eq!(
        answered("{\"action\":\"info\"}"),
        "{\"pid\":4242,\"server\":\"dev_shm_server\",\"status\":\"ok\",\"version\":\"0.1.0\"}"
    );
    let odd = ServerInfo { version: "0.1\"\\".to_string(), pid: 0 };
    let reply = handle_request(&Message::request(1, b"{\"action\":\"info\"}".to_vec()), &odd);
    let text = String::from_utf8(reply.payload).unwrap();
    assert_eq!(
        text,
        "{\"pid\":0,\"server\":\"dev_shm_server\",\"status\":\"ok\",\"version\":\"0.1\\\"\\\\\"}"
    );
    let document: Value = serde_json::from_str(&text).unwrap();
    assert_eq!(document.get("version").and_then(|v| v.as_str()), Some("0.1\"\\"));
}

#[test]
fn an_unknown_action_is_an_error() {
    let (msg_type, bytes) = answer(b"{\"action\":\"fly\"}");
    assert_eq!(msg_type, MessageType::Error);
    assert_eq!(bytes, b"unknown action: fly");
    let (msg_type, bytes) = answer(b"{\"action\":\"\"}");
    assert_eq!(msg_type, MessageType::Error);
    assert_eq!(bytes, b"unknown action: ");
}

#[test]
fn what_is_no_command_is_echoed_raw() {
    for payload in [&b""[..], b"plain words", b"{\"action\":", &[0xff, 0xfe, b'{']] {
        assert_eq!(answer(payload), (MessageType::Response, payload.to_vec()));
    }
}

#[test]
fn commands_are_read() {
    let command = read_command(b"{\"action\":\"ping\",\"data\":[1]}").unwrap();
    assert_eq!(command.action, Some("ping".to_string()));
    assert_eq!(command.data.unwrap().to_string(), "[1]");
    let command = read_command(b"3").unwrap();
    assert_eq!(command.action, None);
    assert!(command.data.is_none());
    assert!(read_command(b"nope").is_none());
    assert!(read_command(&[0x80]).is_none());
}

#[test]
fn actions_are_chosen_by_name() {
    assert_eq!(choose_action(None), Action::Echo);
    assert_eq!(choose_action(Some("echo")), Action::Echo);
    assert_eq!(choose_action(Some("ping")), Action::Ping);
    assert_eq!(choose_action(Some("info")), Action::Info);
    assert_eq!(choose_action(Some("Ping")), Action::Unknown);
}

#[test]
fn a_given_command_is_answered() {
    let msg = Message::request(9, b"ignored".to_vec());
    let command = Some(Command {
        action: Some("echo".to_string()),
        data: Some(Value::from("x")),
    });
    let reply = reply_to(&msg, &command, &info());
    assert_eq!(reply.request_id, 9);
    assert_eq!(reply.payload, b"{\"echo\":\"x\",\"status\":\"ok\"}");
    let reply = reply_to(&msg, &None, &info());
    assert_eq!(reply.payload, b"ignored");
}

#[test]
fn the_loop_answers_stops_and_reports() {
    let mut server = ServerLoop::new();
    let request = Message::request(5, b"{\"action\":\"ping\"}".to_vec());
    match server.on_message(&request.encode(), &info()) {
        ServerAction::Reply { request_id, bytes } => {
            assert_eq!(request_id, 5);
            let reply = Message::decode(&bytes).unwrap();
            assert_eq!(reply.request_id, 5);
            assert_eq!(reply.msg_type, MessageType::Response);
            assert_eq!(reply.payload, b"{\"status\":\"pong\"}");
        }
        _ => panic!("no reply"),
    }
    // A message of any other type is answered like a request.
    assert!(matches!(
        server.on_message(&Message::error(6, "x").encode(), &info()),
        ServerAction::Reply { request_id: 6, .. }
    ));
    assert!(matches!(
        server.on_message(&Message::shutdown().encode(), &info()),
        ServerAction::Stop
    ));
    assert!(matches!(
        server.on_message(b"junk", &info()),
        ServerAction::Report(ProtocolError::TooShort { need: 13, have: 4 })
    ));
}

#[test]
fn the_loop_backs_off() {
    let mut server = ServerLoop::new();
    for _ in 1..100 {
        assert_eq!(server.on_idle(), Pause::Spin);
    }
    for _ in 100..1000 {
        assert_eq!(server.on_idle(), Pause::Yield);
    }
    assert_eq!(server.on_idle(), Pause::Sleep);
    assert_eq!(server.on_idle(), Pause::Sleep);
    assert_eq!(SLEEP_MICROS, 100);
    // A message starts it all over, whatever it is.
    server.on_message(b"junk", &info());
    assert_eq!(server.on_idle(), Pause::Spin);
}

fn args(words: &[&str]) -> ServerArgs {
    let mut all = vec!["shm-server".to_string()];
    all.extend(words.iter().map(|w| w.to_string()));
    parse_args(&all, true)
}

#[test]
fn server_command_line() {
    match args(&[]) {
        ServerArgs::Run(config) => {
            assert_eq!(config.shm_dir, "/dev/shm");
            assert_eq!(config.size, DEFAULT_SIZE);
            assert_eq!(config.size, 16 * 1024 * 1024);
            assert_eq!(config.name, "shm_server");
        }
        _ => panic!("nothing asked for"),
    }
    match args(&["--name", "a", "--shm-dir", "/mnt", "--size", "4096", "--name", "--size"]) {
        ServerArgs::Run(config) => {
            assert_eq!(config.shm_dir, "/mnt");
            assert_eq!(config.size, 4096);
            assert_eq!(config.name, "--size");
        }
        _ => panic!("all options have values"),
    }
    assert!(matches!(args(&["--name", "x", "-h"]), ServerArgs::Help));
    assert!(matches!(args(&["--help"]), ServerArgs::Help));
    assert!(matches!(args(&["run"]), ServerArgs::UnknownArgument(a) if a == "run"));
    assert!(matches!(args(&["--size"]), ServerArgs::MissingValue(a) if a == "--size"));
    assert!(matches!(args(&["--size", "big"]), ServerArgs::InvalidSize(a) if a == "big"));
    // The first thing that ends the reading counts.
    assert!(matches!(args(&["--size", "x", "--help"]), ServerArgs::InvalidSize(_)));

    match parse_args(&Vec::new(), false) {
        ServerArgs::Run(config) => assert_eq!(config.shm_dir, "/tmp"),
        _ => panic!("nothing asked for"),
    }
}
