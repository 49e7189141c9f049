use dev_shm_server::client::{
    action_payload, parse_client_args, parse_command, parse_line, request_file, response_file,
    shown_as, Client, ClientArgs, ClientCommand, ClientError, ClientErrorKind, CommandStep,
    LineCommand, LineStep, ReplyTurn, Shown,
};
use dev_shm_server::protocol::{Message, MessageType, ProtocolError};
use dev_shm_server::ring::{RingBuf, HEADER_SIZE};
use dev_shm_server::server::{handle_request, read_command, ServerInfo};

#[test]
fn payloads_of_actions() {
    assert_eq!(action_payload("ping", None), b"{\"action\":\"ping\"}");
    assert_eq!(
        action_payload("echo", Some("a b")),
        b"{\"action\":\"echo\",\"data\":\"a b\"}"
    );
    assert_eq!(
        action_payload("echo", Some("\"\\\n\u{1}é\u{7f}")),
        "{\"action\":\"echo\",\"data\":\"\\\"\\\\\\n\\u0001é\u{7f}\"}".as_bytes()
    );
}

#[test]
fn the_server_reads_what_the_client_writes() {
    let command = read_command(&action_payload("echo", Some("tab\tand \"quotes\""))).unwrap();
    assert_eq!(command.action, Some("echo".to_string()));
    assert_eq!(command.data.unwrap().as_str(), Some("tab\tand \"quotes\""));

    let info = ServerInfo { version: "1".to_string(), pid: 1 };
    let reply = handle_request(&Message::request(3, action_payload("fly", Some("x"))), &info);
    assert_eq!(reply.msg_type, MessageType::Error);
    assert_eq!(reply.payload, b"unknown action: fly");
    let reply = handle_request(&Message::request(3, action_payload("info", None)), &info);
    assert_eq!(
        reply.payload,
        b"{\"pid\":1,\"server\":\"dev_shm_server\",\"status\":\"ok\",\"version\":\"1\"}"
    );
    let reply = handle_request(&Message::request(3, action_payload("echo", Some("x"))), &info);
    assert_eq!(reply.payload, b"{\"echo\":\"x\",\"status\":\"ok\"}");
}

/// Regions of a server that has just started.
fn regions(size: usize) -> (Vec<u8>, Vec<u8>) {
    let ring = RingBuf::new(size);
    let mut req = vec![0u8; size];
    let mut resp = vec![0u8; size];
    ring.init(&mut req);
    ring.init(&mut resp);
    (req, resp)
}

#[test]
fn a_request_and_its_response() {
    let (mut req, mut resp) = regions(HEADER_SIZE + 1024);
    let mut client = Client::open(&req, &resp);
    let id = client.next_id();
    assert_eq!(id, 1);
    assert_eq!(client.next_id(), 2);

    let msg = Message::request(id, b"hi".to_vec());
    assert!(matches!(client.send(&mut req, &msg), Ok(true)));
    assert!(matches!(client.poll_reply(&mut resp, false), ReplyTurn::Wait));

    let mut buf = Vec::new();
    assert!(client.req_ring().pop(&mut req, &mut buf));
    assert_eq!(Message::decode(&buf).unwrap().payload, b"hi");
    let reply = Message::response(id, b"ho".to_vec());
    assert!(client.resp_ring().push(&mut resp, &reply.encode()));

    match client.poll_reply(&mut resp, true) {
        ReplyTurn::Received(msg) => {
            assert_eq!(msg.request_id, 1);
            assert_eq!(msg.payload, b"ho");
        }
        other => panic!("no reply: {:?}", other),
    }
}

#[test]
fn requests_for_actions_have_fresh_ids() {
    let (req, resp) = regions(HEADER_SIZE + 64);
    let mut client = Client::open(&req, &resp);
    let first = client.action_request("ping", None);
    let second = client.action_request("echo", Some("x"));
    assert_eq!((first.request_id, second.request_id), (1, 2));
    assert_eq!(first.msg_type, MessageType::Request);
    assert_eq!(first.payload, b"{\"action\":\"ping\"}");
    assert_eq!(second.payload, b"{\"action\":\"echo\",\"data\":\"x\"}");
    assert_eq!(client.next_id(), 3);
}

#[test]
fn nothing_is_awaited_after_a_shutdown() {
    let (mut req, resp) = regions(HEADER_SIZE + 1024);
    let client = Client::open(&req, &resp);
    assert!(matches!(client.send(&mut req, &Message::shutdown()), Ok(false)));
}

#[test]
fn requests_that_fail() {
    let (mut req, mut resp) = regions(HEADER_SIZE + 64);
    let client = Client::open(&req, &resp);
    let e = client.send(&mut req, &Message::request(1, vec![0; 48])).unwrap_err();
    assert!(matches!(e, ClientError::RequestRingFull));
    assert_eq!(e.kind(), ClientErrorKind::WouldBlock);
    assert_eq!(e.message(), "request ring full");
    assert!(client.send(&mut req, &Message::request(1, vec![0; 47])).is_ok());

    match client.poll_reply(&mut resp, true) {
        ReplyTurn::Failed(e) => {
            assert_eq!(e.kind(), ClientErrorKind::TimedOut);
            assert_eq!(e.message(), "response timeout");
        }
        other => panic!("unexpected: {:?}", other),
    }

    assert!(client.resp_ring().push(&mut resp, b"junk"));
    match client.poll_reply(&mut resp, false) {
        ReplyTurn::Failed(e) => {
            assert_eq!(e.kind(), ClientErrorKind::InvalidData);
            assert_eq!(e.message(), "decode error: message too short: need 13 bytes, have 4");
            assert!(matches!(
                e,
                ClientError::InvalidResponse(ProtocolError::TooShort { .. })
            ));
        }
        other => panic!("unexpected: {:?}", other),
    }
}

#[test]
fn files_of_a_server() {
    assert_eq!(request_file("shm_server"), "shm_server_req");
    assert_eq!(response_file("shm_server"), "shm_server_resp");
}

#[test]
fn responses_are_shown_by_type() {
    assert_eq!(shown_as(MessageType::Response), Shown::Text);
    assert_eq!(shown_as(MessageType::Error), Shown::Error);
    assert_eq!(shown_as(MessageType::Request), Shown::Unexpected);
    assert_eq!(shown_as(MessageType::Shutdown), Shown::Unexpected);
}

fn client_args(words: &[&str]) -> ClientArgs {
    let mut all = vec!["shm-client".to_string()];
    all.extend(words.iter().map(|w| w.to_string()));
    parse_client_args(&all, true)
}

#[test]
fn client_command_line() {
    match client_args(&[]) {
        ClientArgs::Run { shm_dir, name, command } => {
            assert_eq!(shm_dir, "/dev/shm");
            assert_eq!(name, "shm_server");
            assert!(command.is_empty());
        }
        _ => panic!("nothing asked for"),
    }
    match client_args(&["--name", "n", "--shm-dir", "/d", "echo", "--name", "x"]) {
        ClientArgs::Run { shm_dir, name, command } => {
            assert_eq!(shm_dir, "/d");
            assert_eq!(name, "n");
            assert_eq!(command, vec!["echo", "--name", "x"]);
        }
        _ => panic!("a command was given"),
    }
    assert!(matches!(client_args(&["-h"]), ClientArgs::Help));
    assert!(matches!(client_args(&["--name", "n", "--help"]), ClientArgs::Help));
    assert!(matches!(client_args(&["--name"]), ClientArgs::MissingValue(a) if a == "--name"));
    match parse_client_args(&Vec::new(), false) {
        ClientArgs::Run { shm_dir, .. } => assert_eq!(shm_dir, "/tmp"),
        _ => panic!("nothing asked for"),
    }
}

fn command(words: &[&str]) -> ClientCommand {
    parse_command(&words.iter().map(|w| w.to_string()).collect())
}

#[test]
fn commands_of_the_client() {
    assert!(matches!(command(&[]), ClientCommand::Interactive));
    assert!(matches!(command(&["ping", "ignored"]), ClientCommand::Ping));
    assert!(matches!(command(&["info"]), ClientCommand::Info));
    assert!(matches!(command(&["shutdown"]), ClientCommand::Shutdown));
    assert!(matches!(command(&["echo", "a", "b"]), ClientCommand::Echo(t) if t == "a b"));
    assert!(matches!(command(&["echo"]), ClientCommand::Echo(t) if t.is_empty()));
    assert!(matches!(command(&["send", "x y", "z"]), ClientCommand::Send(t) if t == "x y z"));
    assert!(matches!(command(&["interactive"]), ClientCommand::Interactive));
    assert!(matches!(command(&["fly", "x"]), ClientCommand::Unknown(t) if t == "fly"));
}

#[test]
fn lines_of_the_interactive_mode() {
    assert!(matches!(parse_line("  \n"), LineCommand::Blank));
    assert!(matches!(parse_line("quit\n"), LineCommand::Quit));
    assert!(matches!(parse_line("exit now"), LineCommand::Quit));
    assert!(matches!(parse_line(" help"), LineCommand::Help));
    assert!(matches!(parse_line("ping"), LineCommand::Ping));
    assert!(matches!(parse_line("info"), LineCommand::Info));
    assert!(matches!(parse_line("shutdown"), LineCommand::Shutdown));
    assert!(matches!(parse_line("echo  a  b \n"), LineCommand::Echo(t) if t == " a  b"));
    assert!(matches!(parse_line("echo"), LineCommand::Echo(t) if t.is_empty()));
    assert!(matches!(parse_line("send x"), LineCommand::Unknown(t) if t == "send"));
}

#[test]
fn interactive_mode_sends_and_ends() {
    let (req, resp) = regions(HEADER_SIZE + 64);
    let mut client = Client::open(&req, &resp);
    let lines = [
        "", "help", "ping", "echo a  b", "bogus", "echo", " info \n", "exit", "ping", "shutdown",
    ];
    let mut sent = Vec::new();
    let mut read = 0;
    for line in lines {
        read += 1;
        match client.line_step(line) {
            LineStep::Nothing => assert_eq!(line, ""),
            LineStep::Help => assert_eq!(line, "help"),
            LineStep::Unknown(word) => assert_eq!(word, "bogus"),
            LineStep::Send(msg) => sent.push(msg),
            LineStep::SendAndLeave(_) => panic!("no shutdown was read"),
            LineStep::Leave => break,
        }
    }
    assert_eq!(read, 8);
    let ids: Vec<u64> = sent.iter().map(|m| m.request_id).collect();
    assert_eq!(ids, vec![1, 2, 3, 4]);
    let payloads: Vec<Vec<u8>> = sent.into_iter().map(|m| m.payload).collect();
    assert_eq!(
        payloads,
        vec![
            b"{\"action\":\"ping\"}".to_vec(),
            b"{\"action\":\"echo\",\"data\":\"a  b\"}".to_vec(),
            b"{\"action\":\"echo\",\"data\":\"\"}".to_vec(),
            b"{\"action\":\"info\"}".to_vec(),
        ]
    );

    match client.line_step("shutdown") {
        LineStep::SendAndLeave(msg) => {
            assert_eq!(msg.msg_type, MessageType::Shutdown);
            assert_eq!(msg.encode(), Message::shutdown().encode());
        }
        _ => panic!("the server is to be stopped"),
    }
    assert!(matches!(client.line_step("quit"), LineStep::Leave));
    // Only requests take an id.
    assert_eq!(client.next_id(), 5);
}

#[test]
fn commands_send_their_requests() {
    let (req, resp) = regions(HEADER_SIZE + 64);
    let mut client = Client::open(&req, &resp);
    let words = |w: &[&str]| -> Vec<String> { w.iter().map(|s| s.to_string()).collect() };
    let requests: [(&[&str], &[u8]); 3] = [
        (&["ping"], b"{\"action\":\"ping\"}"),
        (&["echo", "a", "b"], b"{\"action\":\"echo\",\"data\":\"a b\"}"),
        (&["info"], b"{\"action\":\"info\"}"),
    ];
    for (i, (command, payload)) in requests.iter().enumerate() {
        match client.command_step(&words(command)) {
            CommandStep::Action(msg) => {
                assert_eq!(msg.request_id, i as u64 + 1);
                assert_eq!(msg.msg_type, MessageType::Request);
                assert_eq!(&msg.payload, payload);
            }
            _ => panic!("an action was asked for"),
        }
    }
    match client.command_step(&words(&["send", "x", "y"])) {
        CommandStep::Raw(msg) => {
            assert_eq!(msg.request_id, 4);
            assert_eq!(msg.msg_type, MessageType::Request);
            assert_eq!(msg.payload, b"x y");
        }
        _ => panic!("raw bytes were given"),
    }
    match client.command_step(&words(&["shutdown"])) {
        CommandStep::Shutdown(msg) => assert_eq!(msg.msg_type, MessageType::Shutdown),
        _ => panic!("the server is to be stopped"),
    }
    assert!(matches!(client.command_step(&words(&[])), CommandStep::Interactive));
    assert!(matches!(client.command_step(&words(&["fly"])), CommandStep::Unknown(w) if w == "fly"));
    assert_eq!(client.next_id(), 5);
}

#[test]
fn every_kind_of_escape() {
    assert_eq!(
        action_payload("echo", Some("\u{0}\u{8}\t\n\u{b}\u{c}\r\u{1f} \"/\\\u{7f}é")),
        "{\"action\":\"echo\",\"data\":\"\\u0000\\b\\t\\n\\u000b\\f\\r\\u001f \\\"/\\\\\u{7f}é\"}"
            .as_bytes()
    );
}
