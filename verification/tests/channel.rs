use dev_shm_server::channel::{
    default_shm_dir, region_size, rx_file, tx_file, ChannelConfig, ChannelError, ChannelErrorKind, RecvTurn,
    SendTurn, ShmChannel, DEFAULT_RING_SIZE,
};
use dev_shm_server::protocol::{flags, Frame, ProtocolError};

fn test_config(name: &str) -> ChannelConfig {
    ChannelConfig {
        shm_dir: "/tmp".to_string(),
        name: name.to_string(),
        ring_size: 1024 * 1024, // 1 MiB
    }
}

/// Both sides of a channel over memory of their own.
struct Pair {
    server: ShmChannel,
    client: ShmChannel,
    s2c: Vec<u8>,
    c2s: Vec<u8>,
}

fn pair(name: &str) -> Pair {
    let config = test_config(name);
    let mut s2c = vec![0u8; region_size(config.ring_size)];
    let mut c2s = vec![0u8; region_size(config.ring_size)];
    let server = ShmChannel::create(config.clone(), &mut s2c, &mut c2s);
    let client = ShmChannel::open(config, &c2s, &s2c);
    Pair { server, client, s2c, c2s }
}

fn sent(turn: SendTurn) {
    assert!(matches!(turn, SendTurn::Sent));
}

fn received(turn: RecvTurn) -> Frame {
    match turn {
        RecvTurn::Received(frame) => frame,
        other => panic!("no frame: {:?}", other),
    }
}

#[test]
fn test_channel_create_open_roundtrip() {
    let mut p = pair("test_chan_rt");

    // Client sends, server receives
    let frame = Frame::new(1)
        .header_str(":method", "POST")
        .header_str(":path", "/model/predict")
        .payload(b"tensor data here".to_vec());

    sent(p.client.send(&mut p.c2s, &frame, false));
    let got = received(p.server.recv(&mut p.c2s, false));

    assert_eq!(got.stream_id, 1);
    assert_eq!(got.get_header_str(":method"), Some("POST"));
    assert_eq!(got.get_header_str(":path"), Some("/model/predict"));
    assert_eq!(got.payload, b"tensor data here");

    // Server responds
    let resp = Frame::new(1)
        .flags(flags::END_STREAM)
        .header_str(":status", "200")
        .payload(b"result".to_vec());

    sent(p.server.send(&mut p.s2c, &resp, false));
    let got = received(p.client.recv(&mut p.s2c, false));

    assert!(got.is_end_stream());
    assert_eq!(got.get_header_str(":status"), Some("200"));
    assert_eq!(got.payload, b"result");
}

#[test]
fn test_channel_large_payload() {
    let mut p = pair("test_chan_large");

    let payload = vec![0xAA; 100_000];
    let frame = Frame::new(7)
        .header_str("x-dtype", "float32")
        .header_str("x-shape", "1,3,224,224")
        .payload(payload.clone());

    sent(p.client.send(&mut p.c2s, &frame, false));
    let got = received(p.server.recv(&mut p.c2s, false));

    assert_eq!(got.payload.len(), 100_000);
    assert_eq!(got.payload, payload);
    assert_eq!(got.get_header_str("x-dtype"), Some("float32"));
}

#[test]
fn test_channel_timeout() {
    let mut p = pair("test_chan_timeout");

    // No data: wait while there is time, here 50 turns of a millisecond each, then time out.
    for _ in 0..50 {
        assert!(matches!(p.client.recv(&mut p.s2c, false), RecvTurn::Wait));
    }
    let result = match p.client.recv(&mut p.s2c, true) {
        RecvTurn::Received(frame) => Ok(frame),
        RecvTurn::Failed(e) => Err(e),
        RecvTurn::Wait => panic!("the deadline has passed"),
    };
    assert!(result.is_err());
    assert_eq!(result.unwrap_err().kind(), ChannelErrorKind::TimedOut);
}

#[test]
fn test_channel_multiple_streams() {
    let mut p = pair("test_chan_multi");

    // Send frames on different streams
    for stream_id in 0..10 {
        let frame = Frame::new(stream_id)
            .header_str(":path", &format!("/stream/{}", stream_id))
            .payload(format!("data-{}", stream_id).into_bytes());
        sent(p.client.send(&mut p.c2s, &frame, false));
    }

    // Receive and verify ordering + content
    for stream_id in 0..10 {
        let frame = received(p.server.recv(&mut p.c2s, false));
        assert_eq!(frame.stream_id, stream_id);
        assert_eq!(
            frame.get_header_str(":path"),
            Some(format!("/stream/{}", stream_id).as_str())
        );
        assert_eq!(frame.payload, format!("data-{}", stream_id).as_bytes());
    }
}

#[test]
fn default_configuration() {
    let config = ChannelConfig::for_platform(true);
    assert_eq!(config.shm_dir, "/dev/shm");
    assert_eq!(config.name, "shm_channel");
    assert_eq!(config.ring_size, 64 * 1024 * 1024);
    let elsewhere = ChannelConfig::for_platform(false);
    assert_eq!(elsewhere.shm_dir, "/tmp");
    assert_eq!(elsewhere.ring_size, DEFAULT_RING_SIZE);
    assert_eq!(default_shm_dir(true), "/dev/shm");
}

#[test]
fn each_side_writes_what_the_other_reads() {
    assert_eq!(tx_file("ch", true), "ch_s2c");
    assert_eq!(rx_file("ch", true), "ch_c2s");
    assert_eq!(tx_file("ch", false), "ch_c2s");
    assert_eq!(rx_file("ch", false), "ch_s2c");

    let p = pair("ch");
    assert_eq!(
        p.server.file_paths(),
        ("/tmp/ch_s2c".to_string(), "/tmp/ch_c2s".to_string())
    );
    assert_eq!(p.client.file_paths(), p.server.file_paths());
    assert!(p.server.owns_files());
    assert!(!p.client.owns_files());
    let mut p = p;
    p.server.release_files();
    assert!(!p.server.owns_files());
    assert_eq!(p.server.name(), "ch");
    assert_eq!(p.server.capacity(), p.client.capacity());
    assert_eq!(p.client.name(), "ch");
    assert_eq!(p.client.shm_dir(), "/tmp");
}

#[test]
fn channel_accounting() {
    let mut p = pair("acc");
    // A power of two stays as it is.
    assert_eq!(p.server.capacity(), 1048576);
    assert_eq!(p.client.capacity(), 1048576);
    assert_eq!(p.client.send_free(&p.c2s), 1048576);
    assert_eq!(p.server.available(&p.c2s), 0);
    let frame = Frame::new(3).payload(vec![1, 2, 3]);
    assert!(p.client.try_send(&mut p.c2s, &frame));
    // Length prefix, frame header, payload.
    assert_eq!(p.server.available(&p.c2s), 4 + 14 + 3);
    assert_eq!(p.client.send_free(&p.c2s), 1048576 - 21);
    assert_eq!(p.server.try_recv(&mut p.c2s).unwrap().payload, vec![1, 2, 3]);
    assert!(p.server.try_recv(&mut p.c2s).is_none());
}

#[test]
fn a_full_ring_waits_and_then_fails() {
    let mut p = pair("full");
    let frame = Frame::new(0).payload(vec![0; 1024 * 1024]);
    let before = p.c2s.clone();
    assert!(matches!(p.client.send(&mut p.c2s, &frame, false), SendTurn::Wait));
    match p.client.send(&mut p.c2s, &frame, true) {
        SendTurn::Failed(e) => {
            assert_eq!(e.kind(), ChannelErrorKind::TimedOut);
            assert_eq!(e.message(), "send timeout: ring buffer full");
        }
        other => panic!("sent: {:?}", other),
    }
    assert!(!p.client.try_send(&mut p.c2s, &frame));
    let raw = vec![0u8; 1024 * 1024];
    assert!(matches!(p.client.send_raw(&mut p.c2s, &raw, false), SendTurn::Wait));
    match p.client.send_raw(&mut p.c2s, &raw, true) {
        SendTurn::Failed(e) => assert_eq!(e.message(), "send_raw timeout"),
        other => panic!("sent: {:?}", other),
    }
    assert!(p.c2s == before);
}

#[test]
fn raw_bytes_are_forwarded_as_they_are() {
    let mut p = pair("raw");
    let frame = Frame::new(9).header_str("k", "v").payload(b"body".to_vec());
    sent(p.client.send_raw(&mut p.c2s, &frame.encode(), false));
    let got = received(p.server.recv(&mut p.c2s, false));
    assert_eq!(got.encode(), frame.encode());
}

#[test]
fn what_is_not_a_frame_is_reported_and_taken() {
    let mut p = pair("bad");
    sent(p.client.send_raw(&mut p.c2s, b"junk", false));
    sent(p.client.send_raw(&mut p.c2s, b"more junk", false));
    sent(p.client.send(&mut p.c2s, &Frame::new(5), false));
    match p.server.recv(&mut p.c2s, false) {
        RecvTurn::Failed(e) => {
            assert_eq!(e.kind(), ChannelErrorKind::InvalidData);
            assert_eq!(e.message(), "message too short: need 14 bytes, have 4");
            assert!(matches!(
                e,
                ChannelError::InvalidFrame(ProtocolError::TooShort { need: 14, have: 4 })
            ));
        }
        other => panic!("unexpected: {:?}", other),
    }
    assert!(p.server.try_recv(&mut p.c2s).is_none());
    assert_eq!(received(p.server.recv(&mut p.c2s, false)).stream_id, 5);
    match p.server.recv(&mut p.c2s, true) {
        RecvTurn::Failed(e) => assert_eq!(e.message(), "recv timeout: no data"),
        other => panic!("unexpected: {:?}", other),
    }
}

#[test]
fn ring_sizes_are_rounded_down() {
    assert_eq!(region_size(1024 * 1024), 1024 * 1024 + 128);
    // 100 MiB become 64 MiB.
    assert_eq!(region_size(100 * 1024 * 1024), 64 * 1024 * 1024 + 128);
    assert_eq!(region_size(DEFAULT_RING_SIZE), DEFAULT_RING_SIZE + 128);
    assert_eq!(region_size(2), 130);
    assert_eq!(region_size(usize::MAX), usize::MAX / 2 + 1 + 128);

    for (ring_size, capacity) in [(2, 2), (3, 2), (1000, 512), (1024, 1024), (1025, 1024)] {
        let config = ChannelConfig {
            shm_dir: "/tmp".to_string(),
            name: "r".to_string(),
            ring_size,
        };
        let mut s2c = vec![0u8; region_size(ring_size)];
        let mut c2s = vec![0u8; region_size(ring_size)];
        let server = ShmChannel::create(config.clone(), &mut s2c, &mut c2s);
        let client = ShmChannel::open(config, &c2s, &s2c);
        assert_eq!(server.capacity(), capacity);
        assert_eq!(client.capacity(), capacity);
    }
}
