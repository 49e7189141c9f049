use dev_shm_server::channel::{region_size, ChannelConfig, RecvTurn, SendTurn, ShmChannel};
use dev_shm_server::ez_bridge::{
    read_count, write_datagrams, CallEvent, CallStep, ControlPlaneMetadata, EzIsolateBridgeShm,
    EzPayloadData, EzPayloadIsolateScope, EzShmClient, InvokeCall, InvokeIsolateRequest,
    InvokeIsolateResponse, IsolateDataScope,
};
use dev_shm_server::names::NameMap;
use dev_shm_server::protocol::Frame;
use dev_shm_server::status::{Status, StatusCode};

const SIZE: usize = 65536;

fn bridge() -> EzIsolateBridgeShm<u32> {
    EzIsolateBridgeShm::new("/mnt".to_string(), SIZE)
}

fn metadata(handles: &[&str], count: Option<&str>) -> ControlPlaneMetadata {
    let mut md = ControlPlaneMetadata::empty();
    md.ipc_message_id = 99;
    md.shared_memory_handles = handles.iter().map(|h| h.to_string()).collect();
    if let Some(n) = count {
        md.metadata_headers.insert("x-shm-datagram-count".to_string(), n.to_string());
    }
    md
}

fn invoke(md: Option<ControlPlaneMetadata>, inline: Option<Vec<Vec<u8>>>) -> InvokeIsolateRequest {
    InvokeIsolateRequest {
        control_plane_metadata: md,
        isolate_input_iscope: Some(EzPayloadIsolateScope {
            datagram_iscopes: vec![IsolateDataScope { scope_type: 3 }],
        }),
        isolate_input: inline.map(|datagrams| EzPayloadData { datagrams }),
    }
}

fn started(req: InvokeIsolateRequest) -> InvokeCall {
    match bridge().invoke_isolate(req) {
        Ok((call, _)) => call,
        Err(status) => panic!("refused: {:?}", status),
    }
}

fn stream_started(req: InvokeIsolateRequest) -> InvokeCall {
    bridge().stream_invoke_isolate(req).unwrap().0
}

fn failed(step: CallStep) -> Status {
    match step {
        CallStep::Fail(status) => status,
        _ => panic!("the call fails"),
    }
}

fn responded(step: CallStep) -> InvokeIsolateResponse {
    match step {
        CallStep::Respond(response) => response,
        _ => panic!("the answer is next"),
    }
}

#[test]
fn datagrams_become_frames() {
    let frames = write_datagrams(&vec![b"one".to_vec(), b"".to_vec(), b"three".to_vec()]);
    assert_eq!(frames.len(), 3);
    for (i, frame) in frames.iter().enumerate() {
        assert_eq!(frame.stream_id, i as u32);
        assert_eq!(frame.is_end_stream(), i == 2);
        assert!(frame.headers.is_empty());
    }
    assert_eq!(frames[0].payload, b"one");
    assert_eq!(frames[2].payload, b"three");
    assert!(write_datagrams(&Vec::new()).is_empty());
}

#[test]
fn the_count_header() {
    assert_eq!(read_count(&metadata(&[], Some("12")).metadata_headers), Some(12));
    assert_eq!(read_count(&metadata(&[], Some("many")).metadata_headers), None);
    assert_eq!(read_count(&NameMap::new()), None);
}

#[test]
fn channels_are_made_once() {
    let mut bridge = bridge();
    let config = bridge.get_or_create_channel("a").unwrap();
    assert_eq!(config.shm_dir, "/mnt");
    assert_eq!(config.name, "a");
    assert_eq!(config.ring_size, SIZE);
    bridge.add_channel("a".to_string(), 5);
    assert!(bridge.get_or_create_channel("a").is_none());
    assert!(bridge.get_or_create_channel("b").is_some());
    assert_eq!(bridge.channel("a"), Some(&5));
    assert_eq!(bridge.channel("b"), None);

    match bridge.invoke_isolate(invoke(Some(metadata(&["a", "b"], None)), None)) {
        Ok((call, config)) => {
            assert_eq!(call.channel_name(), "a");
            assert!(config.is_none());
        }
        Err(_) => panic!("a channel is named"),
    }
    match bridge.invoke_isolate(invoke(Some(metadata(&["b", "a"], None)), None)) {
        Ok((_, config)) => assert_eq!(config.unwrap().name, "b"),
        Err(_) => panic!("a channel is named"),
    }
}

#[test]
fn requests_that_are_refused() {
    let bridge = bridge();
    match bridge.invoke_isolate(invoke(None, None)) {
        Err(status) => {
            assert_eq!(status.code, StatusCode::InvalidArgument);
            assert_eq!(status.message, "missing control_plane_metadata");
        }
        Ok(_) => panic!("there is no metadata"),
    }
    match bridge.invoke_isolate(invoke(Some(metadata(&[], None)), None)) {
        Err(status) => {
            assert_eq!(status.code, StatusCode::InvalidArgument);
            assert_eq!(
                status.message,
                "missing shared_memory_handles — caller must write datagrams \
                 to shm and set the channel name in shared_memory_handles[0]"
            );
        }
        Ok(_) => panic!("no channel is named"),
    }
    assert!(bridge.stream_invoke_isolate(invoke(None, None)).is_none());
    assert!(bridge
        .stream_invoke_isolate(invoke(Some(metadata(&[], None)), None))
        .is_none());
}

#[test]
fn the_handler_sees_the_request() {
    let mut md = metadata(&["a"], None);
    md.requester_spiffe = "spiffe://x".to_string();
    let call = started(invoke(Some(md), None));
    assert_eq!(call.metadata().ipc_message_id, 99);
    assert_eq!(call.metadata().requester_spiffe, "spiffe://x");
    assert_eq!(call.iscope().datagram_iscopes[0].scope_type, 3);

    let mut req = invoke(Some(metadata(&["a"], None)), None);
    req.isolate_input_iscope = None;
    assert!(started(req).iscope().datagram_iscopes.is_empty());
}

#[test]
fn a_call_reads_handles_writes_and_answers() {
    let call = started(invoke(Some(metadata(&["a"], Some("2"))), None));
    let (call, step) = call.step(CallEvent::ChannelReady);
    assert!(matches!(step, CallStep::Receive));
    let (call, step) = call.step(CallEvent::Received(Frame::new(0).payload(b"x".to_vec())));
    assert!(matches!(step, CallStep::Receive));
    // What does not belong here is ignored.
    let (call, step) = call.step(CallEvent::Sent);
    assert!(matches!(step, CallStep::Ignore));
    let (call, step) = call.step(CallEvent::Received(Frame::new(1).payload(b"y".to_vec())));
    match step {
        CallStep::Handle(datagrams) => assert_eq!(datagrams, vec![b"x".to_vec(), b"y".to_vec()]),
        _ => panic!("the handler is next"),
    }
    let (call, step) = call.step(CallEvent::Handled(vec![b"p".to_vec(), b"q".to_vec()]));
    match step {
        CallStep::Send(frame) => {
            assert_eq!((frame.stream_id, &frame.payload[..]), (0, &b"p"[..]));
            assert!(!frame.is_end_stream());
        }
        _ => panic!("the first datagram is next"),
    }
    let (call, step) = call.step(CallEvent::Sent);
    match step {
        CallStep::Send(frame) => {
            assert_eq!((frame.stream_id, &frame.payload[..]), (1, &b"q"[..]));
            assert!(frame.is_end_stream());
        }
        _ => panic!("the second datagram is next"),
    }
    let (call, step) = call.step(CallEvent::Sent);
    let response = responded(step);
    let md = response.control_plane_metadata.unwrap();
    assert_eq!(md.ipc_message_id, 99);
    assert_eq!(md.shared_memory_handles, vec!["a".to_string()]);
    assert_eq!(md.metadata_headers.get("x-shm-datagram-count"), Some(&"2".to_string()));
    assert!(response.isolate_output_iscope.unwrap().datagram_iscopes.is_empty());
    assert!(response.isolate_output.unwrap().datagrams.is_empty());
    let status = response.status.unwrap();
    assert_eq!((status.code, status.message.as_str()), (0, "ok"));
    let (_, step) = call.step(CallEvent::Sent);
    assert!(matches!(step, CallStep::Ignore));
}

#[test]
fn inline_datagrams() {
    // They are used directly unless the headers announce datagrams in the channel.
    let inline = Some(vec![b"in".to_vec()]);
    for call in [
        started(invoke(Some(metadata(&["a"], None)), inline.clone())),
        started(invoke(Some(metadata(&["a"], Some("0"))), inline.clone())),
        started(invoke(Some(metadata(&["a"], Some("many"))), inline.clone())),
        stream_started(invoke(Some(metadata(&["a"], None)), inline.clone())),
        stream_started(invoke(Some(metadata(&["a"], Some("0"))), inline.clone())),
    ] {
        let (call, step) = call.step(CallEvent::ChannelReady);
        match step {
            CallStep::Handle(datagrams) => assert_eq!(datagrams, vec![b"in".to_vec()]),
            _ => panic!("the handler is next"),
        }
        // Without an answer from the handler nothing is written.
        let (_, step) = call.step(CallEvent::Handled(Vec::new()));
        let md = responded(step).control_plane_metadata.unwrap();
        assert_eq!(md.metadata_headers.get("x-shm-datagram-count"), Some(&"0".to_string()));
    }
}

#[test]
fn a_caller_without_shared_memory_is_answered() {
    let md = metadata(&["c"], None);
    let call = started(invoke(Some(md), Some(vec![b"ab".to_vec()])));
    let (call, step) = call.step(CallEvent::ChannelReady);
    let got = match step {
        CallStep::Handle(datagrams) => datagrams,
        _ => panic!("the handler is next"),
    };
    assert_eq!(got, vec![b"ab".to_vec()]);
    let (call, step) = call.step(CallEvent::Handled(got));
    assert!(matches!(step, CallStep::Send(frame) if frame.payload == b"ab"));
    let (_, step) = call.step(CallEvent::Sent);
    let md = responded(step).control_plane_metadata.unwrap();
    assert_eq!(md.metadata_headers.get("x-shm-datagram-count"), Some(&"1".to_string()));
}

#[test]
fn announced_datagrams_come_before_inline_ones() {
    let inline = Some(vec![b"in".to_vec()]);
    for call in [
        started(invoke(Some(metadata(&["a"], Some("1"))), inline.clone())),
        stream_started(invoke(Some(metadata(&["a"], Some("1"))), inline.clone())),
    ] {
        assert!(matches!(call.step(CallEvent::ChannelReady).1, CallStep::Receive));
    }
}

#[test]
fn isolate_calls_that_fail() {
    let req = || invoke(Some(metadata(&["a"], Some("1"))), None);
    let why = || "why".to_string();

    let status = failed(started(req()).step(CallEvent::ChannelFailed(why())).1);
    assert_eq!(status.code, StatusCode::Internal);
    assert_eq!(status.message, "failed to create shm channel: why");

    let (call, _) = started(req()).step(CallEvent::ChannelReady);
    let status = failed(call.step(CallEvent::RecvFailed(why())).1);
    assert_eq!(status.code, StatusCode::DeadlineExceeded);
    assert_eq!(status.message, "failed to read datagram from shm: why");

    let (call, _) = started(req()).step(CallEvent::ChannelReady);
    let (call, _) = call.step(CallEvent::Received(Frame::new(0)));
    let (call, _) = call.step(CallEvent::Handled(vec![vec![1]]));
    let status = failed(call.step(CallEvent::SendFailed(why())).1);
    assert_eq!(status.code, StatusCode::Internal);
    assert_eq!(status.message, "failed to write datagram to shm: why");

    // In a stream they are passed over.
    let step = stream_started(req()).step(CallEvent::ChannelFailed(why())).1;
    assert!(matches!(step, CallStep::Skip));
    let (call, _) = stream_started(req()).step(CallEvent::ChannelReady);
    let (call, step) = call.step(CallEvent::RecvFailed(why()));
    assert!(matches!(step, CallStep::Skip));
    assert!(matches!(call.step(CallEvent::ChannelReady).1, CallStep::Ignore));
}

#[test]
fn the_state_is_passed_through() {
    assert_eq!(bridge().update_isolate_state(-4), -4);
    assert_eq!(bridge().update_isolate_state(2), 2);
}

#[test]
fn datagrams_cross_the_channel_and_come_back() {
    let mut s2c = vec![0u8; region_size(SIZE)];
    let mut c2s = vec![0u8; region_size(SIZE)];
    let config = ChannelConfig {
        shm_dir: "/mnt".to_string(),
        name: "iso".to_string(),
        ring_size: SIZE,
    };
    let server = ShmChannel::create(config, &mut s2c, &mut c2s);
    let client = EzShmClient::open("/mnt".to_string(), "iso", SIZE, &c2s, &s2c);
    assert_eq!(client.channel().name(), "iso");

    let datagrams: Vec<Vec<u8>> = (0..5u8).map(|i| vec![i; i as usize * 100]).collect();
    let mut md = metadata(&["something else"], Some("77"));
    md.metadata_headers.insert("kept".to_string(), "yes".to_string());
    let scope = EzPayloadIsolateScope { datagram_iscopes: Vec::new() };
    let (frames, request) = client.prepare_invoke(md, scope, datagrams.clone());
    let sent_md = request.control_plane_metadata.as_ref().unwrap();
    assert_eq!(sent_md.shared_memory_handles, vec!["iso".to_string()]);
    assert_eq!(sent_md.metadata_headers.get("kept"), Some(&"yes".to_string()));
    assert_eq!(sent_md.metadata_headers.get("x-shm-datagram-count"), Some(&"5".to_string()));
    assert!(request.isolate_input.as_ref().unwrap().datagrams.is_empty());
    for frame in &frames {
        assert!(matches!(client.channel().send(&mut c2s, frame, false), SendTurn::Sent));
    }

    let mut event = CallEvent::ChannelReady;
    let mut call = started(request);
    let response = loop {
        let (next, step) = call.step(event);
        call = next;
        event = match step {
            CallStep::Receive => match server.recv(&mut c2s, false) {
                RecvTurn::Received(frame) => CallEvent::Received(frame),
                other => panic!("no frame: {:?}", other),
            },
            CallStep::Handle(got) => {
                assert_eq!(got, datagrams);
                CallEvent::Handled(got.into_iter().rev().collect())
            }
            CallStep::Send(frame) => match server.send(&mut s2c, &frame, false) {
                SendTurn::Sent => CallEvent::Sent,
                other => panic!("not sent: {:?}", other),
            },
            CallStep::Respond(response) => break response,
            _ => panic!("nothing fails here"),
        };
    };

    let mut reader = client.read_response(&response);
    while !reader.is_complete() {
        match client.channel().recv(&mut s2c, false) {
            RecvTurn::Received(frame) => reader.take_frame(frame),
            other => panic!("no frame: {:?}", other),
        }
    }
    let expected: Vec<Vec<u8>> = datagrams.into_iter().rev().collect();
    assert_eq!(reader.into_datagrams(), expected);
    assert_eq!(server.available(&c2s), 0);
    assert_eq!(client.channel().available(&s2c), 0);
}

#[test]
fn a_response_without_a_count_has_no_datagrams() {
    let s2c = vec![0u8; region_size(SIZE)];
    let c2s = vec![0u8; region_size(SIZE)];
    let client = EzShmClient::open("/mnt".to_string(), "iso", SIZE, &c2s, &s2c);
    for md in [None, Some(metadata(&[], None)), Some(metadata(&[], Some("x")))] {
        let response = InvokeIsolateResponse {
            control_plane_metadata: md,
            isolate_output_iscope: None,
            isolate_output: None,
            status: None,
        };
        let reader = client.read_response(&response);
        assert!(reader.is_complete());
        assert!(reader.into_datagrams().is_empty());
    }
}
