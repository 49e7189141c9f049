use dev_shm_server::ring::{floor_power, RingBuf, HEADER_SIZE};
use dev_shm_server::wire::{get_u64, set_u64};

/// Build a deterministic payload: each byte is derived from the sequence
/// number and its position, so any corruption is detectable.
fn make_payload(seq: u64, len: usize) -> Vec<u8> {
    let seed = seq.to_le_bytes();
    (0..len)
        .map(|i| seed[i % 8].wrapping_add(i as u8))
        .collect()
}

/// Verify a payload matches what make_payload would produce.
fn verify_payload(seq: u64, data: &[u8]) {
    let expected = make_payload(seq, data.len());
    assert_eq!(
        data,
        &expected[..],
        "DATA CORRUPTION at seq={}: first mismatch at byte {}",
        seq,
        data.iter()
            .zip(expected.iter())
            .position(|(a, b)| a != b)
            .unwrap_or(0)
    );
}

/// A ring over fresh memory, initialized.
fn fresh(size: usize) -> (RingBuf, Vec<u8>) {
    let mut mem = vec![0u8; size];
    let ring = RingBuf::new(size);
    ring.init(&mut mem);
    (ring, mem)
}

#[test]
fn test_push_pop_roundtrip() {
    let (ring, mut mem) = fresh(HEADER_SIZE + 4096);

    let msg = b"hello world";
    assert!(ring.push(&mut mem, msg));

    let mut buf = Vec::new();
    assert!(ring.pop(&mut mem, &mut buf));
    assert_eq!(&buf, msg);
}

#[test]
fn test_multiple_messages_verified() {
    let (ring, mut mem) = fresh(HEADER_SIZE + 4096);

    for i in 0..10 {
        let payload = make_payload(i, 100);
        assert!(ring.push(&mut mem, &payload));
    }

    let mut buf = Vec::new();
    for i in 0..10 {
        assert!(ring.pop(&mut mem, &mut buf));
        verify_payload(i, &buf);
    }
}

#[test]
fn test_full_ring() {
    let (ring, mut mem) = fresh(HEADER_SIZE + 64);
    assert_eq!(ring.capacity(), 64);

    let big = make_payload(42, 50);
    assert!(ring.push(&mut mem, &big));
    assert!(!ring.push(&mut mem, &big));

    let mut buf = Vec::new();
    assert!(ring.pop(&mut mem, &mut buf));
    verify_payload(42, &buf);
}

#[test]
fn test_wrap_around_verified() {
    // Small ring to force wrap-around, verify every byte
    let (ring, mut mem) = fresh(HEADER_SIZE + 64);

    // Advance positions near the end: 2 * (4 + 20) = 48 bytes
    let filler0 = make_payload(0, 20);
    let filler1 = make_payload(1, 20);
    assert!(ring.push(&mut mem, &filler0));
    assert!(ring.push(&mut mem, &filler1));
    let mut buf = Vec::new();
    assert!(ring.pop(&mut mem, &mut buf));
    verify_payload(0, &buf);
    assert!(ring.pop(&mut mem, &mut buf));
    verify_payload(1, &buf);
    // write_pos = read_pos = 48, near 64-byte boundary

    // This message wraps: 4-byte len header starts at offset 48, payload crosses boundary
    let wrap_msg = make_payload(99, 20); // 4 + 20 = 24 bytes, wraps at offset 64
    assert!(ring.push(&mut mem, &wrap_msg));

    assert!(ring.pop(&mut mem, &mut buf));
    verify_payload(99, &buf);
}

#[test]
fn test_wrap_around_length_header_split() {
    // Bring the 4-byte length header close to the wrap boundary
    let (ring, mut mem) = fresh(HEADER_SIZE + 64);

    // 4 + 25 = 29 bytes, two of them = 58
    let a = make_payload(0, 25);
    let b = make_payload(1, 25);
    assert!(ring.push(&mut mem, &a));
    assert!(ring.push(&mut mem, &b));
    let mut buf = Vec::new();
    assert!(ring.pop(&mut mem, &mut buf));
    verify_payload(0, &buf);
    assert!(ring.pop(&mut mem, &mut buf));
    verify_payload(1, &buf);
    // pos = 58

    // Length at 58..62, payload at 62..64. Just fits.
    let c = make_payload(2, 2);
    assert!(ring.push(&mut mem, &c));
    assert!(ring.pop(&mut mem, &mut buf));
    verify_payload(2, &buf);
    // pos = 64

    // Now we're at exactly 64 = 0 mod 64. Push something to verify clean wrap.
    let d = make_payload(3, 30);
    assert!(ring.push(&mut mem, &d));
    assert!(ring.pop(&mut mem, &mut buf));
    verify_payload(3, &buf);
}

#[test]
fn test_sustained_wrap_integrity() {
    // 256-byte ring, thousands of verified messages wrapping many times
    let (ring, mut mem) = fresh(HEADER_SIZE + 256);

    let mut buf = Vec::new();
    let mut next_pop_seq: u64 = 0;

    for i in 0u64..50_000 {
        // Vary payload sizes to hit different wrap alignments
        let payload_len = ((i * 7 + 3) % 50) as usize + 1; // 1..50 bytes
        let payload = make_payload(i, payload_len);

        while !ring.push(&mut mem, &payload) {
            // Must drain to make room — verify what we drain
            assert!(
                ring.pop(&mut mem, &mut buf),
                "ring empty but push failed at seq={}",
                i
            );
            let expected_len = ((next_pop_seq * 7 + 3) % 50) as usize + 1;
            assert_eq!(
                buf.len(),
                expected_len,
                "wrong length at seq={}: got {} expected {}",
                next_pop_seq,
                buf.len(),
                expected_len
            );
            verify_payload(next_pop_seq, &buf);
            next_pop_seq += 1;
        }
    }

    // Drain and verify remaining
    while ring.pop(&mut mem, &mut buf) {
        let expected_len = ((next_pop_seq * 7 + 3) % 50) as usize + 1;
        assert_eq!(buf.len(), expected_len);
        verify_payload(next_pop_seq, &buf);
        next_pop_seq += 1;
    }

    assert_eq!(next_pop_seq, 50_000, "didn't receive all messages");
}

#[test]
fn test_large_payload_integrity() {
    // 1 MiB ring, payloads up to 100 KiB — tests bulk copy correctness
    let (ring, mut mem) = fresh(HEADER_SIZE + 1024 * 1024);

    let mut buf = Vec::new();
    let mut next_pop: u64 = 0;
    let payload_sizes = [1024, 4096, 16384, 65536, 100_000];

    for i in 0u64..500 {
        let psize = payload_sizes[(i as usize) % payload_sizes.len()];
        let payload = make_payload(i, psize);

        while !ring.push(&mut mem, &payload) {
            assert!(ring.pop(&mut mem, &mut buf));
            let exp_size = payload_sizes[(next_pop as usize) % payload_sizes.len()];
            assert_eq!(buf.len(), exp_size, "wrong len at seq={}", next_pop);
            verify_payload(next_pop, &buf);
            next_pop += 1;
        }
    }

    while ring.pop(&mut mem, &mut buf) {
        let exp_size = payload_sizes[(next_pop as usize) % payload_sizes.len()];
        assert_eq!(buf.len(), exp_size);
        verify_payload(next_pop, &buf);
        next_pop += 1;
    }

    assert_eq!(next_pop, 500);
}

#[test]
fn test_power_of_two_rounding() {
    let size = HEADER_SIZE + 100;
    let ring = RingBuf::new(size);
    assert_eq!(ring.capacity(), 64);

    let size = HEADER_SIZE + 512;
    let ring = RingBuf::new(size);
    assert_eq!(ring.capacity(), 512);
}

#[test]
fn rounding_of_extreme_sizes() {
    assert_eq!(RingBuf::new(HEADER_SIZE + 2).capacity(), 2);
    assert_eq!(RingBuf::new(HEADER_SIZE + 3).capacity(), 2);
    assert_eq!(RingBuf::new(HEADER_SIZE + 4).capacity(), 4);
    // A 100 MiB request becomes 64 MiB.
    assert_eq!(RingBuf::new(100 * 1024 * 1024).capacity(), 64 * 1024 * 1024);
    assert_eq!(RingBuf::new(usize::MAX).capacity(), usize::MAX / 2 + 1);
}

#[test]
fn accounting_of_space() {
    let (ring, mut mem) = fresh(HEADER_SIZE + 64);
    assert_eq!(ring.available(&mem), 0);
    assert_eq!(ring.free_space(&mem), 64);

    assert!(ring.push(&mut mem, b"abc"));
    assert_eq!(ring.available(&mem), 7);
    assert_eq!(ring.free_space(&mem), 57);
    assert!(ring.push(&mut mem, b""));
    assert_eq!(ring.available(&mem), 11);
    assert_eq!(ring.free_space(&mem), 53);

    // Exactly what is left can still be pushed, one byte more cannot.
    assert!(!ring.push(&mut mem, &[7u8; 50]));
    assert!(ring.push(&mut mem, &[7u8; 49]));
    assert_eq!(ring.free_space(&mem), 0);

    let mut buf = Vec::new();
    assert!(ring.pop(&mut mem, &mut buf));
    assert_eq!(buf, b"abc");
    assert!(ring.pop(&mut mem, &mut buf));
    assert!(buf.is_empty());
    assert!(ring.pop(&mut mem, &mut buf));
    assert_eq!(buf, vec![7u8; 49]);
    assert_eq!(ring.free_space(&mem), 64);
}

#[test]
fn pop_of_an_empty_ring_changes_nothing() {
    let (ring, mut mem) = fresh(HEADER_SIZE + 64);
    let before = mem.clone();
    let mut buf = vec![1, 2, 3];
    assert!(!ring.pop(&mut mem, &mut buf));
    assert_eq!(buf, vec![1, 2, 3]);
    assert_eq!(mem, before);
}

#[test]
fn layout_of_a_region() {
    let (ring, mut mem) = fresh(HEADER_SIZE + 64);
    assert!(ring.push(&mut mem, b"xyz"));
    assert_eq!(get_u64(&mem, 0), 7);
    assert_eq!(get_u64(&mem, 64), 0);
    assert_eq!(mem[128..135], [3, 0, 0, 0, b'x', b'y', b'z']);

    let mut buf = Vec::new();
    assert!(ring.pop(&mut mem, &mut buf));
    assert_eq!(get_u64(&mem, 0), 7);
    assert_eq!(get_u64(&mem, 64), 7);
}

#[test]
fn messages_cross_the_end_of_the_position_space() {
    let (ring, mut mem) = fresh(HEADER_SIZE + 64);
    set_u64(&mut mem, 0, u64::MAX - 5);
    set_u64(&mut mem, 64, u64::MAX - 5);
    assert!(ring.push(&mut mem, b"wrapping"));
    assert_eq!(get_u64(&mem, 0), 6);
    assert_eq!(ring.available(&mem), 12);

    let mut buf = Vec::new();
    assert!(ring.pop(&mut mem, &mut buf));
    assert_eq!(buf, b"wrapping");
    assert_eq!(get_u64(&mem, 64), 6);
}

#[test]
fn a_message_that_is_not_complete_stays() {
    let (ring, mut mem) = fresh(HEADER_SIZE + 64);
    assert!(ring.push(&mut mem, b"abcdef"));
    // Only nine of the ten bytes count as written.
    set_u64(&mut mem, 0, 9);
    let mut buf = Vec::new();
    assert!(!ring.pop(&mut mem, &mut buf));
    set_u64(&mut mem, 0, 10);
    assert!(ring.pop(&mut mem, &mut buf));
    assert_eq!(buf, b"abcdef");
}

#[test]
fn a_producer_may_know_an_old_read_position() {
    let (ring, mut mem) = fresh(HEADER_SIZE + 64);
    assert!(ring.push(&mut mem, &[1u8; 20]));
    let w = get_u64(&mem, 0);
    let old_r = get_u64(&mem, 64);

    // The consumer moves on; the producer still works with what it loaded.
    let mut buf = Vec::new();
    assert!(ring.pop(&mut mem, &mut buf));
    assert_eq!(ring.push_between(&mut mem, w, old_r, &[2u8; 40]), None);
    assert_eq!(ring.push_between(&mut mem, w, old_r, &[2u8; 36]), Some(64));
    set_u64(&mut mem, 0, 64);
    assert!(ring.pop(&mut mem, &mut buf));
    assert_eq!(buf, vec![2u8; 36]);
}

#[test]
fn a_consumer_may_know_an_old_write_position() {
    let (ring, mut mem) = fresh(HEADER_SIZE + 64);
    assert!(ring.push(&mut mem, b"one"));
    let old_w = get_u64(&mem, 0);
    assert!(ring.push(&mut mem, b"two"));

    let mut buf = Vec::new();
    assert_eq!(ring.pop_between(&mem, old_w, 0, &mut buf), Some(7));
    assert_eq!(buf, b"one");
    assert_eq!(ring.pop_between(&mem, old_w, 7, &mut buf), None);
    assert_eq!(buf, b"one");
    assert_eq!(ring.pop_between(&mem, 14, 7, &mut buf), Some(14));
    assert_eq!(buf, b"two");
}

#[test]
fn a_length_prefix_may_wrap() {
    let (ring, mut mem) = fresh(HEADER_SIZE + 64);
    set_u64(&mut mem, 0, 62);
    set_u64(&mut mem, 64, 62);
    assert!(ring.push(&mut mem, b"split"));
    assert_eq!(mem[128 + 62..128 + 64], [5, 0]);
    assert_eq!(mem[128..128 + 7], [0, 0, b's', b'p', b'l', b'i', b't']);
    let mut buf = Vec::new();
    assert!(ring.pop(&mut mem, &mut buf));
    assert_eq!(buf, b"split");
}

#[test]
fn pushes_and_pops_in_any_order() {
    let (ring, mut mem) = fresh(HEADER_SIZE + 64);
    let mut ins: Vec<Vec<u8>> = Vec::new();
    let mut outs: Vec<Vec<u8>> = Vec::new();
    let mut buf = Vec::new();
    for i in 0..500u64 {
        let payload = make_payload(i, (i * 11 % 30) as usize);
        if i % 7 < 4 && ring.push(&mut mem, &payload) {
            ins.push(payload);
        } else if ring.pop(&mut mem, &mut buf) {
            outs.push(buf.clone());
        }
        // What came out went in first, and the space is accounted for.
        assert!(outs.len() <= ins.len());
        assert_eq!(outs[..], ins[..outs.len()]);
        let held: usize = ins[outs.len()..].iter().map(|m| 4 + m.len()).sum();
        assert_eq!(ring.free_space(&mem), 64 - held);
    }
    assert!(outs.len() > 100);
}

#[test]
fn floor_powers() {
    assert_eq!(floor_power(0), 1);
    assert_eq!(floor_power(1), 1);
    assert_eq!(floor_power(63), 32);
    assert_eq!(floor_power(64), 64);
}
