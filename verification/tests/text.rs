use dev_shm_server::names::NameMap;
use dev_shm_server::text::{
    chars_of, decimal_text, join_path, join_texts, join_words, parse_usize, same_text, split_word,
    text_bytes, trim,
};
use dev_shm_server::wire::{
    get_u16, get_u32, get_u64, put_bytes, put_u16, put_u32, put_u64, same_bytes, set_u64,
    truncate_u16, truncate_u32,
};

#[test]
fn decimal_numbers_round_trip() {
    for n in [0u64, 7, 10, 100, 4096, u32::MAX as u64] {
        assert_eq!(decimal_text(n), n.to_string());
        assert_eq!(parse_usize(&decimal_text(n)), Some(n as usize));
    }
    assert_eq!(decimal_text(u64::MAX), "18446744073709551615");
    assert_eq!(parse_usize(&usize::MAX.to_string()), Some(usize::MAX));
}

#[test]
fn numbers_are_read_as_std_reads_them() {
    let texts = [
        "", "+", "-", "+5", "-5", "-0", "007", "12a", " 12", "12 ", "1_000", "0x10", "٣",
        "99999999999999999999999", "18446744073709551616", "18446744073709551615",
    ];
    for t in texts {
        assert_eq!(parse_usize(t), t.parse::<usize>().ok(), "{:?}", t);
    }
}

#[test]
fn texts_and_bytes() {
    assert_eq!(text_bytes("aé"), "aé".as_bytes());
    assert_eq!(chars_of("aé"), vec!['a', 'é']);
    assert!(same_text("naïve", "naïve"));
    assert!(!same_text("naïve", "naive"));
    assert!(!same_text("a", "ab"));
    assert_eq!(join_texts("ab", ""), "ab");
    assert_eq!(join_texts("ab", "cd"), "abcd");
}

#[test]
fn paths_are_joined_as_std_joins_them() {
    let cases = [
        ("/dev/shm", "x_c2s"), ("/tmp/", "x"), ("", "x"), ("dir", ""), ("dir", "/abs"), ("/", "x"),
    ];
    for (dir, file) in cases {
        let expected = std::path::Path::new(dir).join(file);
        assert_eq!(join_path(dir, file), expected.to_str().unwrap(), "{:?} {:?}", dir, file);
    }
}

#[test]
fn lines_are_trimmed_and_split() {
    for line in ["", "   ", " echo  a b \n", "\tping\r\n", "\u{a0}x\u{3000}", "é é"] {
        assert_eq!(trim(line), line.trim());
    }
    assert_eq!(split_word("echo  a b"), ("echo", " a b"));
    assert_eq!(split_word("ping"), ("ping", ""));
    assert_eq!(split_word(" x"), ("", "x"));
    assert_eq!(split_word("tab\tis no space"), ("tab\tis", "no space"));
}

#[test]
fn words_are_joined_by_spaces() {
    let words = vec!["echo".to_string(), "a".to_string(), "".to_string(), "b c".to_string()];
    assert_eq!(join_words(&words, 1), words[1..].join(" "));
    assert_eq!(join_words(&words, 0), words.join(" "));
    assert_eq!(join_words(&words, 4), "");
    assert_eq!(join_words(&words, 3), "b c");
}

#[test]
fn integers_on_the_wire() {
    let mut buf = Vec::new();
    put_u16(&mut buf, 0x0102);
    put_u32(&mut buf, 0x0304_0506);
    put_u64(&mut buf, 0x0708_090a_0b0c_0d0e);
    put_bytes(&mut buf, b"end");
    assert_eq!(buf[..2], 0x0102u16.to_le_bytes());
    assert_eq!(buf[2..6], 0x0304_0506u32.to_le_bytes());
    assert_eq!(buf[6..14], 0x0708_090a_0b0c_0d0eu64.to_le_bytes());
    assert_eq!(buf[14..], *b"end");
    assert_eq!(get_u16(&buf, 0), 0x0102);
    assert_eq!(get_u32(&buf, 2), 0x0304_0506);
    assert_eq!(get_u64(&buf, 6), 0x0708_090a_0b0c_0d0e);
    set_u64(&mut buf, 6, u64::MAX - 1);
    assert_eq!(get_u64(&buf, 6), u64::MAX - 1);
    assert_eq!(truncate_u16(65537), 1);
    assert_eq!(truncate_u32(70000), 70000);
    assert_eq!(truncate_u32(usize::MAX), u32::MAX);
    assert!(same_bytes(b"ab", b"ab"));
    assert!(!same_bytes(b"ab", b"ac"));
    assert!(!same_bytes(b"ab", b"abc"));
}

#[test]
fn a_map_by_name() {
    let mut map: NameMap<u32> = NameMap::new();
    assert!(!map.contains_key("a"));
    assert_eq!(map.insert("a".to_string(), 1), None);
    assert_eq!(map.insert("b".to_string(), 2), None);
    assert_eq!(map.insert("c".to_string(), 3), None);
    assert_eq!(map.insert("a".to_string(), 4), Some(1));
    assert_eq!(map.get("a"), Some(&4));
    assert_eq!(map.remove("b"), Some(2));
    assert_eq!(map.remove("b"), None);
    assert_eq!(map.get("b"), None);
    assert_eq!(map.get("c"), Some(&3));
    assert!(map.contains_key("a"));
}
