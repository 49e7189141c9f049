use dev_shm_server::protocol::{
    flags, Frame, Message, MessageType, ProtocolError, FRAME_HEADER_SIZE, FRAME_VERSION,
    MESSAGE_HEADER_SIZE,
};

#[test]
fn test_frame_encode_decode_no_headers() {
    let frame = Frame::new(42).payload(b"hello world".to_vec());
    let encoded = frame.encode();
    let decoded = Frame::decode(&encoded).unwrap();
    assert_eq!(decoded.stream_id, 42);
    assert_eq!(decoded.payload, b"hello world");
    assert!(decoded.headers.is_empty());
}

#[test]
fn test_frame_with_headers() {
    let frame = Frame::new(1)
        .header_str(":method", "POST")
        .header_str(":path", "/inference.Predict/Run")
        .header_str("content-type", "application/octet-stream")
        .header_str("x-tensor-shape", "1,3,224,224")
        .payload(vec![0xAA; 1024]);

    let encoded = frame.encode();
    let decoded = Frame::decode(&encoded).unwrap();

    assert_eq!(decoded.get_header_str(":method"), Some("POST"));
    assert_eq!(decoded.get_header_str(":path"), Some("/inference.Predict/Run"));
    assert_eq!(decoded.get_header_str("content-type"), Some("application/octet-stream"));
    assert_eq!(decoded.get_header_str("x-tensor-shape"), Some("1,3,224,224"));
    assert_eq!(decoded.payload.len(), 1024);
    assert!(decoded.payload.iter().all(|&b| b == 0xAA));
}

#[test]
fn test_frame_flags() {
    let frame = Frame::new(0)
        .flags(flags::END_STREAM | flags::ERROR)
        .header_str(":status", "500")
        .payload(b"internal error".to_vec());

    let encoded = frame.encode();
    let decoded = Frame::decode(&encoded).unwrap();

    assert!(decoded.is_end_stream());
    assert!(decoded.is_error());
    assert!(!decoded.is_control());
}

#[test]
fn test_frame_empty() {
    let frame = Frame::new(0);
    let encoded = frame.encode();
    assert_eq!(encoded.len(), FRAME_HEADER_SIZE);
    let decoded = Frame::decode(&encoded).unwrap();
    assert!(decoded.headers.is_empty());
    assert!(decoded.payload.is_empty());
}

#[test]
fn test_frame_large_payload() {
    let payload = vec![0xBB; 10 * 1024 * 1024]; // 10 MiB
    let frame = Frame::new(999)
        .header_str(":path", "/model/predict")
        .header_str("x-dtype", "float16")
        .payload(payload.clone());

    let encoded = frame.encode();
    let decoded = Frame::decode(&encoded).unwrap();
    assert_eq!(decoded.payload, payload);
    assert_eq!(decoded.stream_id, 999);
}

#[test]
fn test_message_encode_decode() {
    let msg = Message::request(42, b"hello".to_vec());
    let encoded = msg.encode();
    let decoded = Message::decode(&encoded).unwrap();
    assert_eq!(decoded.request_id, 42);
    assert_eq!(decoded.msg_type, MessageType::Request);
    assert_eq!(decoded.payload, b"hello");
}

#[test]
fn test_message_to_frame() {
    let msg = Message::request(7, b"tensor data".to_vec());
    let frame: Frame = msg.into();
    assert_eq!(frame.get_header_str(":type"), Some("request"));
    assert_eq!(frame.payload, b"tensor data");
}

#[test]
fn bytes_of_a_frame() {
    let frame = Frame::new(0x0403_0201)
        .flags(flags::COMPRESSED)
        .header(b"ab".to_vec(), b"c".to_vec())
        .payload(vec![9, 8]);
    let expected = [
        1, 2, 1, 2, 3, 4, 7, 0, 0, 0, 2, 0, 0, 0, 2, 0, b'a', b'b', 1, 0, b'c', 9, 8,
    ];
    assert_eq!(frame.encode(), expected);
    assert_eq!(frame.encoded_size(), expected.len());
    assert_eq!(frame.version, FRAME_VERSION);

    // What follows a frame is not looked at.
    let mut longer = frame.encode();
    longer.extend_from_slice(b"rest");
    let decoded = Frame::decode(&longer).unwrap();
    assert_eq!(decoded.flags, 2);
    assert_eq!(decoded.headers, vec![(b"ab".to_vec(), b"c".to_vec())]);
    assert_eq!(decoded.payload, vec![9, 8]);
}

#[test]
fn headers_of_any_kind_of_bytes() {
    let frame = Frame::new(0)
        .header("text", "wörter")
        .header(b"bytes".to_vec(), vec![1u8, 2])
        .header("mixed".to_string(), [3u8, 4]);
    assert_eq!(
        frame.headers,
        vec![
            (b"text".to_vec(), "wörter".as_bytes().to_vec()),
            (b"bytes".to_vec(), vec![1, 2]),
            (b"mixed".to_vec(), vec![3, 4]),
        ]
    );
}

#[test]
fn frame_overhead() {
    let frame = Frame::new(1).header_str("k", "vv").header_str("", "").payload(vec![0; 5]);
    assert_eq!(frame.encoded_size(), 14 + (2 + 1 + 2 + 2) + 4 + 5);
    assert_eq!(frame.encode().len(), frame.encoded_size());
}

#[test]
fn header_lookup() {
    let frame = Frame::new(1)
        .header_str("a", "first")
        .header_str("a", "second")
        .header(b"bin".to_vec(), vec![0xff, 0xfe]);
    // The first one counts.
    assert_eq!(frame.get_header_str("a"), Some("first"));
    assert_eq!(frame.get_header(b"a"), Some(&b"first"[..]));
    assert_eq!(frame.get_header(b"bin"), Some(&[0xff, 0xfe][..]));
    // Not UTF-8, so no text.
    assert_eq!(frame.get_header_str("bin"), None);
    assert_eq!(frame.get_header(b"none"), None);
    assert_eq!(frame.get_header_str("none"), None);
}

#[test]
fn each_flag_is_seen_alone() {
    assert!(Frame::new(0).flags(flags::END_STREAM).is_end_stream());
    assert!(!Frame::new(0).flags(!flags::END_STREAM).is_end_stream());
    assert!(Frame::new(0).flags(flags::ERROR).is_error());
    assert!(!Frame::new(0).flags(!flags::ERROR).is_error());
    assert!(Frame::new(0).flags(flags::CONTROL).is_control());
    assert!(!Frame::new(0).flags(!flags::CONTROL).is_control());
}

#[test]
fn frames_that_do_not_decode() {
    match Frame::decode(&[1; 13]) {
        Err(ProtocolError::TooShort { need, have }) => {
            assert_eq!((need, have), (14, 13));
        }
        other => panic!("unexpected: {:?}", other),
    }

    let mut wrong_version = Frame::new(0).encode();
    wrong_version[0] = 2;
    let e = Frame::decode(&wrong_version).unwrap_err();
    assert!(matches!(e, ProtocolError::UnsupportedVersion(2)));
    assert_eq!(e.message(), "unsupported frame version: 2");

    let mut cut = Frame::new(0).header_str("k", "v").payload(vec![1, 2, 3]).encode();
    cut.pop();
    let e = Frame::decode(&cut).unwrap_err();
    assert!(matches!(e, ProtocolError::TooShort { need: 23, have: 22 }));
    assert_eq!(e.message(), "message too short: need 23 bytes, have 22");

    // A key length that leads out of the header section.
    let mut bad_key = Frame::new(0).header_str("k", "v").encode();
    bad_key[14] = 5;
    let e = Frame::decode(&bad_key).unwrap_err();
    assert!(matches!(e, ProtocolError::HeaderTruncated));
    assert_eq!(e.message(), "header section truncated");

    // A key that leaves no room for the value's length.
    let mut no_value = Frame::new(0).header_str("k", "v").encode();
    no_value[14] = 3;
    assert!(matches!(
        Frame::decode(&no_value),
        Err(ProtocolError::HeaderTruncated)
    ));

    // A value length that leads out of the header section.
    let mut bad_value = Frame::new(0).header_str("k", "v").encode();
    bad_value[17] = 2;
    assert!(matches!(
        Frame::decode(&bad_value),
        Err(ProtocolError::HeaderTruncated)
    ));
}

#[test]
fn a_short_rest_of_the_header_section_is_passed_over() {
    // Header section of nine bytes: one header of six bytes, three bytes too many.
    let data = [
        1, 0, 0, 0, 0, 0, 9, 0, 0, 0, 1, 0, 0, 0, 1, 0, b'k', 1, 0, b'v', 7, 7, 7, 42,
    ];
    let decoded = Frame::decode(&data).unwrap();
    assert_eq!(decoded.headers, vec![(b"k".to_vec(), b"v".to_vec())]);
    assert_eq!(decoded.payload, vec![42]);
}

#[test]
fn a_key_longer_than_its_length_field_is_not_transmitted() {
    let frame = Frame::new(0).header(vec![b'k'; 65537], b"v".to_vec());
    let encoded = frame.encode();
    assert_eq!(encoded.len(), frame.encoded_size());
    assert_eq!(encoded[14..16], [1, 0]);
}

#[test]
fn bytes_of_a_message() {
    let msg = Message::response(0x0102, vec![5, 6]);
    assert_eq!(
        msg.encode(),
        [2, 1, 0, 0, 0, 0, 0, 0, 2, 2, 0, 0, 0, 5, 6]
    );
    let mut longer = msg.encode();
    longer.push(7);
    assert_eq!(Message::decode(&longer).unwrap().payload, vec![5, 6]);
    assert_eq!(Message::shutdown().encode(), [0, 0, 0, 0, 0, 0, 0, 0, 0xFF, 0, 0, 0, 0]);
    assert_eq!(Message::shutdown().encode().len(), MESSAGE_HEADER_SIZE);
}

#[test]
fn every_message_type_round_trips() {
    let messages = [
        Message::request(1, vec![1]),
        Message::response(2, vec![]),
        Message::error(3, "went wrong: ä"),
        Message::shutdown(),
    ];
    for msg in messages {
        let decoded = Message::decode(&msg.encode()).unwrap();
        assert_eq!(decoded.request_id, msg.request_id);
        assert_eq!(decoded.msg_type, msg.msg_type);
        assert_eq!(decoded.payload, msg.payload);
    }
    assert_eq!(Message::error(3, "ä").payload, "ä".as_bytes());
}

#[test]
fn messages_that_do_not_decode() {
    let e = Message::decode(&[0; 12]).unwrap_err();
    assert!(matches!(e, ProtocolError::TooShort { need: 13, have: 12 }));

    let mut cut = Message::request(1, vec![1, 2, 3]).encode();
    cut.pop();
    let e = Message::decode(&cut).unwrap_err();
    assert!(matches!(e, ProtocolError::TooShort { need: 16, have: 15 }));

    let mut unknown = Message::request(1, vec![]).encode();
    unknown[8] = 4;
    let e = Message::decode(&unknown).unwrap_err();
    assert!(matches!(e, ProtocolError::UnknownType(4)));
    assert_eq!(e.message(), "unknown message type: 4");

    // The length is looked at before the type.
    let mut both = Message::request(1, vec![1]).encode();
    both[8] = 4;
    both.pop();
    assert!(matches!(
        Message::decode(&both),
        Err(ProtocolError::TooShort { need: 14, have: 13 })
    ));

    assert_eq!(
        ProtocolError::Decode("odd bytes".to_string()).message(),
        "decode error: odd bytes"
    );
}

#[test]
fn messages_as_frames() {
    let frame: Frame = Message::shutdown().into();
    assert!(frame.is_control());
    assert!(frame.is_end_stream());
    assert!(!frame.is_error());
    assert_eq!(frame.get_header_str(":type"), Some("shutdown"));
    assert_eq!(frame.get_header(b"request-id"), Some(&[0u8; 8][..]));

    let frame: Frame = Message::error(0x0201, "bad").into();
    assert!(frame.is_error());
    assert!(!frame.is_end_stream());
    assert_eq!(frame.get_header_str(":type"), Some("error"));
    assert_eq!(frame.get_header(b"request-id"), Some(&[1u8, 2, 0, 0, 0, 0, 0, 0][..]));
    assert_eq!(frame.payload, b"bad");

    let frame: Frame = Message::response(1, vec![4]).into();
    assert_eq!(frame.flags, 0);
    assert_eq!(frame.stream_id, 0);
    assert_eq!(frame.get_header_str(":type"), Some("response"));
}
