use dev_shm_server::channel::ChannelConfig;
use dev_shm_server::names::NameMap;
use dev_shm_server::protocol::Frame;
use dev_shm_server::service::{
    send_response, stream_goes_on, stream_response, CreateChannelRequest, Created, Event, SendRequest,
    ShmTransferService, Step, StreamMessage,
};
use dev_shm_server::status::StatusCode;

fn request(name: &str, shm_dir: &str, ring_size: u64) -> CreateChannelRequest {
    CreateChannelRequest { name: name.to_string(), shm_dir: shm_dir.to_string(), ring_size }
}

fn service_with(name: &str) -> ShmTransferService<u32> {
    let mut service = ShmTransferService::new(true);
    let config = service.plan_channel(&request(name, "", 0));
    assert!(service.create_channel(config, Ok(1)).is_ok());
    service
}

fn created(
    service: &mut ShmTransferService<u32>,
    config: ChannelConfig,
    channel: u32,
) -> Created<u32> {
    match service.create_channel(config, Ok(channel)) {
        Ok(created) => created,
        Err(status) => panic!("not created: {:?}", status),
    }
}

fn send_request(name: &str) -> SendRequest {
    SendRequest { channel_name: name.to_string(), stream_id: 17 }
}

fn stream_message(channel: Option<&[u8]>, end_stream: bool) -> StreamMessage {
    let mut headers = NameMap::new();
    if let Some(name) = channel {
        headers.insert("channel".to_string(), name.to_vec());
    }
    StreamMessage { stream_id: 4, headers, payload_size: 9, end_stream }
}

#[test]
fn channels_are_planned_with_defaults() {
    let service: ShmTransferService<u32> = ShmTransferService::new(true);
    let config = service.plan_channel(&request("a", "", 0));
    assert_eq!(config.name, "a");
    assert_eq!(config.shm_dir, "/dev/shm");
    assert_eq!(config.ring_size, 64 * 1024 * 1024);
    let config = service.plan_channel(&request("a", "/mnt", 4096));
    assert_eq!(config.shm_dir, "/mnt");
    assert_eq!(config.ring_size, 4096);

    let service = service.with_defaults("/var".to_string(), 1024);
    let config = service.plan_channel(&request("b", "", 0));
    assert_eq!(config.shm_dir, "/var");
    assert_eq!(config.ring_size, 1024);

    let elsewhere: ShmTransferService<u32> = ShmTransferService::new(false);
    assert_eq!(elsewhere.plan_channel(&request("a", "", 0)).shm_dir, "/tmp");
}

#[test]
fn a_channel_lives_from_creation_to_destruction() {
    let mut service: ShmTransferService<u32> = ShmTransferService::new(true);
    assert!(service.get_channel("a").is_err());
    let config = service.plan_channel(&request("a", "/mnt", 4096));
    let created = created(&mut service, config, 1);
    assert!(created.earlier.is_none());
    let response = created.response;
    assert_eq!(response.name, "a");
    assert_eq!(response.shm_dir, "/mnt");
    assert_eq!(response.ring_size, 4096);
    assert_eq!(response.client_to_server_path, "/mnt/a_c2s");
    assert_eq!(response.server_to_client_path, "/mnt/a_s2c");
    assert!(service.get_channel("a").is_ok());
    assert_eq!(service.channel("a"), Some(&1));

    assert!(service.destroy_channel("a"));
    assert!(!service.destroy_channel("a"));
    assert_eq!(service.channel("a"), None);
}

#[test]
fn a_name_is_used_again() {
    let mut service: ShmTransferService<u32> = ShmTransferService::new(true);
    let config = service.plan_channel(&request("a", "/tmp", 1 << 20));
    created(&mut service, config, 1);

    // The same files: the earlier channel is not to remove them.
    for (dir, number) in [("/tmp", 2), ("/tmp/", 3)] {
        let config = service.plan_channel(&request("a", dir, 1 << 20));
        assert_eq!(service.channel("a"), Some(&(number - 1)));
        let again = created(&mut service, config, number);
        let earlier = again.earlier.unwrap();
        assert_eq!(earlier.channel, number - 1);
        assert!(earlier.shares_files);
        assert_eq!(again.response.client_to_server_path, "/tmp/a_c2s");
        assert_eq!(again.response.server_to_client_path, "/tmp/a_s2c");
        assert_eq!(service.channel("a"), Some(&number));
    }

    // Other files.
    let config = service.plan_channel(&request("a", "/mnt", 1 << 20));
    let again = created(&mut service, config, 4);
    assert!(!again.earlier.unwrap().shares_files);
    assert_eq!(again.response.client_to_server_path, "/mnt/a_c2s");
    assert_eq!(service.channel("a"), Some(&4));

    // After it was destroyed there is no earlier one.
    assert!(service.destroy_channel("a"));
    let config = service.plan_channel(&request("a", "/mnt", 1 << 20));
    assert!(created(&mut service, config, 5).earlier.is_none());
}

#[test]
fn a_name_stays_in_use_if_no_other_channel_can_be_made() {
    let mut service = service_with("a");
    for dir in ["", "/mnt"] {
        let config = service.plan_channel(&request("a", dir, 0));
        assert!(service.create_channel(config, Err("denied".to_string())).is_err());
        assert_eq!(service.channel("a"), Some(&1));
        assert!(service.send(&send_request("a")).is_ok());
    }
}

#[test]
fn a_channel_that_cannot_be_made() {
    let mut service = service_with("a");
    let config = service.plan_channel(&request("b", "", 0));
    let status = match service.create_channel(config, Err("no space".to_string())) {
        Err(status) => status,
        Ok(_) => panic!("nothing was made"),
    };
    assert_eq!(status.code, StatusCode::Internal);
    assert_eq!(status.message, "failed to create channel: no space");
    assert_eq!(service.channel("b"), None);
    assert_eq!(service.channel("a"), Some(&1));
}

#[test]
fn calls_need_an_open_channel() {
    let service = service_with("a");
    let status = service.get_channel("b").unwrap_err();
    assert_eq!(status.code, StatusCode::NotFound);
    assert_eq!(status.message, "channel 'b' not found");
    match service.send(&send_request("b")) {
        Err(status) => assert_eq!(status.message, "channel 'b' not found"),
        Ok(_) => panic!("the channel is not open"),
    }
}

#[test]
fn a_call_runs_to_its_end() {
    let service = service_with("a");
    let req = send_request("a");
    let mut call = match service.send(&req) {
        Ok(call) => call,
        Err(_) => panic!("the channel is open"),
    };
    match call.step(Event::Received(Frame::new(3).payload(b"in".to_vec()))) {
        Step::Handle(frame) => assert_eq!(frame.payload, b"in"),
        _ => panic!("the handler is next"),
    }
    // What does not belong here is ignored.
    assert!(matches!(call.step(Event::Sent), Step::Ignore));
    match call.step(Event::Handled(Frame::new(3).payload(b"out!".to_vec()))) {
        Step::Send(frame) => assert_eq!(frame.payload, b"out!"),
        _ => panic!("the response is next"),
    }
    let size = match call.step(Event::Sent) {
        Step::Respond(size) => size,
        _ => panic!("the answer is next"),
    };
    let response = send_response(&req, size);
    assert_eq!(response.stream_id, 17);
    assert_eq!(response.status, 0);
    assert_eq!(response.message, "ok");
    assert_eq!(response.response_payload_size, 4);
    assert!(matches!(call.step(Event::Sent), Step::Ignore));
}

#[test]
fn calls_that_fail() {
    let service = service_with("a");
    let mut call = match service.send(&send_request("a")) {
        Ok(call) => call,
        Err(_) => panic!("the channel is open"),
    };
    match call.step(Event::RecvFailed("recv timeout: no data".to_string())) {
        Step::Fail(status) => {
            assert_eq!(status.code, StatusCode::DeadlineExceeded);
            assert_eq!(status.message, "failed to read from shm: recv timeout: no data");
        }
        _ => panic!("the call fails"),
    }

    let mut call = match service.send(&send_request("a")) {
        Ok(call) => call,
        Err(_) => panic!("the channel is open"),
    };
    call.step(Event::Received(Frame::new(1)));
    call.step(Event::Handled(Frame::new(1)));
    match call.step(Event::SendFailed("full".to_string())) {
        Step::Fail(status) => {
            assert_eq!(status.code, StatusCode::Internal);
            assert_eq!(status.message, "failed to write response to shm: full");
        }
        _ => panic!("the call fails"),
    }
}

#[test]
fn messages_of_a_stream() {
    let service = service_with("a");
    let msg = stream_message(Some(b"a"), false);
    let (name, mut exchange) = service.stream(&msg).unwrap();
    assert_eq!(name, "a");
    assert!(matches!(exchange.step(Event::Received(Frame::new(1))), Step::Handle(_)));
    let answer = Frame::new(1).payload(vec![0; 6]);
    assert!(matches!(exchange.step(Event::Handled(answer)), Step::Send(_)));
    // A response that could not be sent is announced all the same.
    match exchange.step(Event::SendFailed("full".to_string())) {
        Step::Respond(size) => {
            let response = stream_response(&msg, size);
            assert_eq!(response.stream_id, 4);
            assert_eq!(response.payload_size, 6);
            assert!(!response.end_stream);
            assert!(!response.headers.contains_key("channel"));
        }
        _ => panic!("the answer is next"),
    }

    let (_, mut exchange) = service.stream(&msg).unwrap();
    assert!(matches!(exchange.step(Event::RecvFailed("x".to_string())), Step::Skip));
}

#[test]
fn messages_that_are_passed_over() {
    let service = service_with("a");
    assert!(service.stream(&stream_message(Some(b"b"), false)).is_none());
    assert!(service.stream(&stream_message(None, false)).is_none());
    assert!(service.stream(&stream_message(Some(&[0xff]), false)).is_none());
    // A message that names no channel, or not in UTF-8, names the empty one.
    let service = service_with("");
    assert_eq!(service.stream(&stream_message(None, false)).unwrap().0, "");
    assert_eq!(service.stream(&stream_message(Some(&[0xff]), false)).unwrap().0, "");
}

#[test]
fn a_stream_ends() {
    assert!(stream_goes_on(&stream_message(None, false), true));
    assert!(!stream_goes_on(&stream_message(None, false), false));
    assert!(!stream_goes_on(&stream_message(None, true), true));
    assert!(stream_response(&stream_message(None, true), 0).end_stream);
}
