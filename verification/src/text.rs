//! Text: UTF-8, decimal numbers, and the few string operations that the other
//! modules are written with.

use crate::wire;
use vstd::prelude::*;
use vstd::string::*;
use vstd::utf8::*;

verus! {

/// The text that `bytes` are the UTF-8 encoding of, if they are valid UTF-8.
pub open spec fn utf8_text(bytes: Seq<u8>) -> Option<Seq<char>> {
    if valid_utf8(bytes) {
        Some(decode_utf8(bytes))
    } else {
        None
    }
}

/// Calls `std::str::from_utf8`: succeeds exactly on valid UTF-8, and then gives the text
/// that the bytes encode.
#[verifier::external_body]
pub(crate) fn utf8_str(bytes: &[u8]) -> (text: Option<&str>)
    ensures
        match text {
            Some(t) => utf8_text(bytes@) == Some(t@),
            None => utf8_text(bytes@) is None,
        },
{
    std::str::from_utf8(bytes).ok()
}

/// `From` of a value for its own type, in std: gives the value back.
pub assume_specification<T>[ <T as core::convert::From<T>>::from ](t: T) -> (same: T)
    ensures
        same == t,
;

/// `From` of a string for a vector of bytes, in std: gives the UTF-8 bytes of the string.
pub assume_specification<'a>[ <Vec<u8> as core::convert::From<&'a str>>::from ](s: &str) -> (bytes:
    Vec<u8>)
    ensures
        bytes@ == encode_utf8(s@),
;

/// Encoding a text and decoding the bytes gives the text back.
pub proof fn law_utf8_round_trip(text: Seq<char>)
    ensures
        utf8_text(encode_utf8(text)) == Some(text),
{
    encode_utf8_valid_utf8(text);
    encode_utf8_decode_utf8(text);
}

/// The UTF-8 bytes of `text`.
pub fn text_bytes(text: &str) -> (bytes: Vec<u8>)
    ensures
        bytes@ == encode_utf8(text@),
{
    vstd::slice::slice_to_vec(text.as_bytes())
}

/// Whether two texts are equal.
pub fn same_text(a: &str, b: &str) -> (same: bool)
    ensures
        same == (a@ == b@),
{
    proof {
        law_utf8_round_trip(a@);
        law_utf8_round_trip(b@);
    }
    wire::same_bytes(a.as_bytes(), b.as_bytes())
}

/// The characters of `text`.
pub fn chars_of(text: &str) -> (chars: Vec<char>)
    ensures
        chars@ == text@,
{
    let mut chars: Vec<char> = Vec::new();
    for c in it: text.chars()
        invariant
            chars@ == it.seq().take(it.index()),
            it.seq() == text@,
    {
        chars.push(c);
        assert(chars@ =~= it.seq().take(it.index() + 1));
    }
    assert(chars@ =~= text@);
    chars
}

/// The decimal digit for `d`, from 0 to 9.
pub open spec fn digit(d: nat) -> char {
    (48 + d) as char
}

/// The decimal notation of `n`, without leading zeros.
pub open spec fn decimal(n: nat) -> Seq<char>
    decreases n,
{
    if n < 10 {
        seq![digit(n)]
    } else {
        decimal(n / 10).push(digit(n % 10))
    }
}

/// Whether `c` is one of the digits from 0 to 9.
pub open spec fn is_digit(c: char) -> bool {
    '0' <= c <= '9'
}

/// The number that a row of decimal digits denotes.
pub open spec fn digits_value(digits: Seq<char>) -> nat
    decreases digits.len(),
{
    if digits.len() == 0 {
        0
    } else {
        10 * digits_value(digits.drop_last()) + (digits.last() as nat - 48) as nat
    }
}

/// What remains of a number's text when one leading plus sign is dropped.
pub open spec fn unsigned_part(text: Seq<char>) -> Seq<char> {
    if text.len() > 0 && text[0] == '+' {
        text.skip(1)
    } else {
        text
    }
}

/// The number that `text` denotes: decimal digits, at least one, after an optional plus sign.
pub open spec fn number_of(text: Seq<char>) -> Option<nat> {
    let digits = unsigned_part(text);
    if digits.len() > 0 && (forall|i: int| 0 <= i < digits.len() ==> is_digit(#[trigger] digits[i])) {
        Some(digits_value(digits))
    } else {
        None
    }
}

/// The number that `text` denotes, if it is one and fits the machine word.
pub open spec fn usize_of(text: Seq<char>) -> Option<usize> {
    match number_of(text) {
        Some(n) => if n <= usize::MAX {
            Some(n as usize)
        } else {
            None
        },
        None => None,
    }
}

/// The decimal notation of a number reads as that number.
pub proof fn law_decimal_round_trip(n: nat)
    ensures
        number_of(decimal(n)) == Some(n),
{
    lemma_decimal_digits(n);
}

proof fn lemma_decimal_digits(n: nat)
    ensures
        decimal(n).len() > 0,
        forall|i: int| 0 <= i < decimal(n).len() ==> is_digit(#[trigger] decimal(n)[i]),
        digits_value(decimal(n)) == n,
    decreases n,
{
    if n < 10 {
        assert(decimal(n).drop_last() =~= Seq::empty());
        assert(digits_value(Seq::empty()) == 0);
    } else {
        lemma_decimal_digits(n / 10);
        assert(decimal(n).drop_last() =~= decimal(n / 10));
    }
}

/// The digit for `d`.
fn digit_text(d: u64) -> (text: &'static str)
    requires
        d < 10,
    ensures
        text@ == seq![digit(d as nat)],
{
    let text: &'static str = if d == 0 {
        "0"
    } else if d == 1 {
        "1"
    } else if d == 2 {
        "2"
    } else if d == 3 {
        "3"
    } else if d == 4 {
        "4"
    } else if d == 5 {
        "5"
    } else if d == 6 {
        "6"
    } else if d == 7 {
        "7"
    } else if d == 8 {
        "8"
    } else {
        "9"
    };
    proof {
        reveal_strlit("0");
        reveal_strlit("1");
        reveal_strlit("2");
        reveal_strlit("3");
        reveal_strlit("4");
        reveal_strlit("5");
        reveal_strlit("6");
        reveal_strlit("7");
        reveal_strlit("8");
        reveal_strlit("9");
        assert(text@ =~= seq![digit(d as nat)]);
    }
    text
}

/// The decimal notation of `n`.
pub fn decimal_text(n: u64) -> (text: String)
    ensures
        text@ == decimal(n as nat),
    decreases n,
{
    if n < 10 {
        digit_text(n).to_owned()
    } else {
        let mut text = decimal_text(n / 10);
        text.append(digit_text(n % 10));
        assert(text@ =~= decimal(n as nat));
        text
    }
}

/// More digits never denote a smaller number.
proof fn lemma_digits_value_grows(digits: Seq<char>, i: int)
    requires
        0 <= i <= digits.len(),
        forall|k: int| 0 <= k < digits.len() ==> is_digit(#[trigger] digits[k]),
    ensures
        digits_value(digits.take(i)) <= digits_value(digits),
    decreases digits.len() - i,
{
    if i == digits.len() {
        assert(digits.take(i) =~= digits);
    } else {
        lemma_digits_value_grows(digits, i + 1);
        assert(digits.take(i + 1).drop_last() =~= digits.take(i));
    }
}

/// Reads a machine word in decimal notation.
pub fn parse_usize(text: &str) -> (n: Option<usize>)
    ensures
        n == usize_of(text@),
{
    let chars = chars_of(text);
    let start: usize = if chars.len() > 0 && chars[0] == '+' {
        1
    } else {
        0
    };
    let ghost digits = unsigned_part(text@);
    assert(digits =~= chars@.skip(start as int));
    if chars.len() == start {
        return None;
    }
    let mut value: usize = 0;
    let mut i: usize = start;
    while i < chars.len()
        invariant
            start <= i <= chars@.len(),
            chars@ == text@,
            digits == unsigned_part(text@),
            digits == chars@.skip(start as int),
            digits.len() > 0,
            forall|k: int| 0 <= k < i - start ==> is_digit(#[trigger] digits[k]),
            value == digits_value(digits.take(i - start)),
        decreases chars@.len() - i,
    {
        let c = chars[i];
        assert(digits[i - start] == c);
        if c < '0' || c > '9' {
            return None;
        }
        let d: usize = c as usize - 48;
        assert(digits.take(i + 1 - start).drop_last() =~= digits.take(i - start));
        if value > (usize::MAX - d) / 10 {
            proof {
                if number_of(text@) is Some {
                    lemma_digits_value_grows(digits, i + 1 - start);
                }
            }
            return None;
        }
        value = value * 10 + d;
        i += 1;
    }
    assert(digits.take(i - start) =~= digits);
    Some(value)
}

/// Two texts joined.
pub fn join_texts(a: &str, b: &str) -> (text: String)
    ensures
        text@ == a@ + b@,
{
    let mut text = a.to_owned();
    text.append(b);
    text
}

/// The path of `file` in the directory `dir`: an absolute `file` stands for itself, and a
/// separator is put between the two unless `dir` is empty or ends in one.
pub open spec fn joined_path(dir: Seq<char>, file: Seq<char>) -> Seq<char> {
    if file.len() > 0 && file[0] == '/' {
        file
    } else if dir.len() == 0 || dir.last() == '/' {
        dir + file
    } else {
        dir + "/"@ + file
    }
}

/// The path of `file` in the directory `dir`.
pub fn join_path(dir: &str, file: &str) -> (path: String)
    ensures
        path@ == joined_path(dir@, file@),
{
    if file.unicode_len() > 0 && file.get_char(0) == '/' {
        return file.to_owned();
    }
    let n: usize = dir.unicode_len();
    let mut path = dir.to_owned();
    if n > 0 && dir.get_char(n - 1) != '/' {
        path.append("/");
    }
    path.append(file);
    path
}

/// The texts of a list of strings.
pub open spec fn texts(strings: Seq<String>) -> Seq<Seq<char>> {
    Seq::new(strings.len(), |i: int| strings[i]@)
}

/// The texts of a list of strings and one more.
pub proof fn lemma_texts_push(strings: Seq<String>, one: String)
    ensures
        texts(strings.push(one)) == texts(strings).push(one@),
{
    assert(texts(strings.push(one)) =~= texts(strings).push(one@));
}

/// What a command line holds after the program's name.
pub open spec fn operands(args: Seq<String>) -> Seq<Seq<char>> {
    if args.len() == 0 {
        Seq::empty()
    } else {
        texts(args).skip(1)
    }
}

/// Whether `c` has the White_Space property of Unicode.
pub open spec fn is_white(c: char) -> bool {
    ||| '\u{9}' <= c <= '\u{d}'
    ||| c == ' '
    ||| c == '\u{85}'
    ||| c == '\u{a0}'
    ||| c == '\u{1680}'
    ||| '\u{2000}' <= c <= '\u{200a}'
    ||| c == '\u{2028}'
    ||| c == '\u{2029}'
    ||| c == '\u{202f}'
    ||| c == '\u{205f}'
    ||| c == '\u{3000}'
}

/// `s` without the white space at its front.
pub open spec fn trimmed_start(s: Seq<char>) -> Seq<char>
    decreases s.len(),
{
    if s.len() > 0 && is_white(s[0]) {
        trimmed_start(s.drop_first())
    } else {
        s
    }
}

/// `s` without the white space at its end.
pub open spec fn trimmed_end(s: Seq<char>) -> Seq<char>
    decreases s.len(),
{
    if s.len() > 0 && is_white(s.last()) {
        trimmed_end(s.drop_last())
    } else {
        s
    }
}

/// `s` without the white space at its front and its end.
pub open spec fn trimmed(s: Seq<char>) -> Seq<char> {
    trimmed_end(trimmed_start(s))
}

/// Whether `c` has the White_Space property of Unicode.
fn is_white_space(c: char) -> (white: bool)
    ensures
        white == is_white(c),
{
    ('\u{9}' <= c && c <= '\u{d}') || c == ' ' || c == '\u{85}' || c == '\u{a0}' || c == '\u{1680}'
        || ('\u{2000}' <= c && c <= '\u{200a}') || c == '\u{2028}' || c == '\u{2029}' || c
        == '\u{202f}' || c == '\u{205f}' || c == '\u{3000}'
}

/// `text` without the white space at its front and its end.
pub fn trim(text: &str) -> (rest: &str)
    ensures
        rest@ == trimmed(text@),
{
    let chars = chars_of(text);
    let mut from: usize = 0;
    assert(chars@.skip(0) =~= chars@);
    while from < chars.len() && is_white_space(chars[from])
        invariant
            from <= chars@.len(),
            trimmed_start(chars@) == trimmed_start(chars@.skip(from as int)),
        decreases chars@.len() - from,
    {
        assert(chars@.skip(from as int).drop_first() =~= chars@.skip(from + 1));
        from += 1;
    }
    assert(trimmed_start(chars@) == chars@.skip(from as int));
    let mut to: usize = chars.len();
    assert(chars@.subrange(from as int, to as int) =~= chars@.skip(from as int));
    while to > from && is_white_space(chars[to - 1])
        invariant
            from <= to <= chars@.len(),
            trimmed_end(chars@.skip(from as int)) == trimmed_end(
                chars@.subrange(from as int, to as int),
            ),
        decreases to,
    {
        assert(chars@.subrange(from as int, to as int).drop_last() =~= chars@.subrange(
            from as int,
            to - 1,
        ));
        to -= 1;
    }
    text.substring_char(from, to)
}

/// Where the first space in `s` is; the length of `s` if there is none.
pub open spec fn first_space(s: Seq<char>) -> int
    decreases s.len(),
{
    if s.len() == 0 || s[0] == ' ' {
        0
    } else {
        1 + first_space(s.drop_first())
    }
}

/// What precedes the first space in `s`; all of `s` if there is none.
pub open spec fn first_word(s: Seq<char>) -> Seq<char> {
    s.take(first_space(s))
}

/// What follows the first space in `s`; nothing if there is none.
pub open spec fn after_first_word(s: Seq<char>) -> Seq<char> {
    if first_space(s) < s.len() {
        s.skip(first_space(s) + 1)
    } else {
        Seq::empty()
    }
}

proof fn lemma_first_space_bound(s: Seq<char>)
    ensures
        0 <= first_space(s) <= s.len(),
    decreases s.len(),
{
    if s.len() > 0 && s[0] != ' ' {
        lemma_first_space_bound(s.drop_first());
    }
}

/// Splits `text` at its first space.
pub fn split_word(text: &str) -> (parts: (&str, &str))
    ensures
        parts.0@ == first_word(text@),
        parts.1@ == after_first_word(text@),
{
    let chars = chars_of(text);
    let mut i: usize = 0;
    proof {
        lemma_first_space_bound(text@);
        assert(chars@.skip(0) =~= chars@);
    }
    while i < chars.len() && chars[i] != ' '
        invariant
            i <= chars@.len(),
            first_space(chars@) == i + first_space(chars@.skip(i as int)),
        decreases chars@.len() - i,
    {
        assert(chars@.skip(i as int).drop_first() =~= chars@.skip(i + 1));
        i += 1;
    }
    let n: usize = chars.len();
    if i < n {
        (text.substring_char(0, i), text.substring_char(i + 1, n))
    } else {
        (text, text.substring_char(n, n))
    }
}

/// Words joined by spaces.
pub open spec fn joined_words(words: Seq<Seq<char>>) -> Seq<char>
    decreases words.len(),
{
    if words.len() == 0 {
        Seq::empty()
    } else if words.len() == 1 {
        words[0]
    } else {
        joined_words(words.drop_last()) + " "@ + words.last()
    }
}

/// The words from index `from` on, joined by spaces.
pub fn join_words(words: &Vec<String>, from: usize) -> (text: String)
    requires
        from <= words@.len(),
    ensures
        text@ == joined_words(texts(words@).skip(from as int)),
{
    let ghost all = texts(words@).skip(from as int);
    let mut text = String::new();
    let mut i: usize = from;
    assert(all.take(0) =~= Seq::empty());
    while i < words.len()
        invariant
            from <= i <= words@.len(),
            all == texts(words@).skip(from as int),
            text@ == joined_words(all.take(i - from)),
        decreases words@.len() - i,
    {
        assert(all.take(i + 1 - from).drop_last() =~= all.take(i - from));
        assert(all.take(i + 1 - from).last() == words@[i as int]@);
        if i > from {
            text.append(" ");
        }
        text.append(words[i].as_str());
        i += 1;
    }
    assert(all.take(i - from) =~= all);
    text
}

// ─── What the texts and numbers are ──────────────────────────────────────────

/// Bytes stand for a text exactly if they are its UTF-8 encoding, and for none exactly if they
/// are not UTF-8.
pub proof fn law_text_of_bytes(bytes: Seq<u8>, t: Seq<char>)
    ensures
        utf8_text(bytes) == Some(t) <==> encode_utf8(t) == bytes,
        utf8_text(bytes) is None <==> !valid_utf8(bytes),
{
    law_utf8_round_trip(t);
    if valid_utf8(bytes) {
        decode_utf8_encode_utf8(bytes);
    }
}

/// Decimal notation: a number below ten is its digit, and another digit behind a number that
/// is not zero makes it ten times as large and adds the digit.
pub proof fn law_decimal_notation(n: nat, d: nat)
    requires
        d < 10,
    ensures
        decimal(d).len() == 1,
        decimal(d)[0] as nat == '0' as nat + d,
        n > 0 ==> decimal(10 * n + d) == decimal(n).push(decimal(d)[0]),
{
    if n > 0 {
        assert((10 * n + d) / 10 == n);
        assert((10 * n + d) % 10 == d);
    }
}

/// Reading numbers: nothing is read from no digits or from a text with anything but digits; one
/// digit denotes itself, and another digit behind a number makes it ten times as large and adds
/// the digit.
pub proof fn law_number_reading(t: Seq<char>, c: char)
    ensures
        number_of(Seq::empty()) is None,
        '0' <= c <= '9' ==> number_of(seq![c]) == Some((c as nat - '0' as nat) as nat),
        c < '0' || c > '9' ==> number_of(t.push(c)) is None,
        number_of(t) is Some && '0' <= c <= '9' ==> number_of(t.push(c)) == Some(
            (10 * number_of(t).unwrap() + (c as nat - '0' as nat)) as nat,
        ),
        t.len() > 0 && t != seq!['+'] && number_of(t) is None ==> number_of(t.push(c)) is None,
        number_of(seq!['+']) is None,
        '0' <= c <= '9' ==> number_of(seq!['+', c]) == number_of(seq![c]),
{
    let one = seq![c];
    assert(one.drop_last() =~= Seq::empty());
    assert(digits_value(Seq::empty()) == 0);
    assert(digits_value(one) == 10 * digits_value(one.drop_last()) + (c as nat - 48) as nat);
    assert(unsigned_part(seq!['+']) =~= Seq::empty());
    assert(unsigned_part(seq!['+', c]) =~= seq![c]);
    if '0' <= c <= '9' {
        assert(is_digit(one[0]));
        assert(unsigned_part(one) == one);
    }
    let more = t.push(c);
    let digits = unsigned_part(more);
    if t.len() == 0 {
        assert(more =~= one);
        if c == '+' {
            assert(digits =~= Seq::empty());
        } else {
            assert(digits[0] == c);
        }
    } else {
        assert(more[0] == t[0]);
        assert(digits =~= unsigned_part(t).push(c));
        assert(digits.last() == c);
        assert(digits[digits.len() - 1] == c);
        assert(digits.drop_last() =~= unsigned_part(t));
        if number_of(t) is Some && '0' <= c <= '9' {
            assert forall|i: int| 0 <= i < digits.len() implies is_digit(#[trigger] digits[i]) by {
                if i < digits.len() - 1 {
                    assert(digits[i] == unsigned_part(t)[i]);
                }
            }
        }
        if number_of(t) is None && t != seq!['+'] {
            let us = unsigned_part(t);
            if us.len() == 0 {
                assert(t =~= seq!['+']);
            } else {
                let i = choose|i: int| 0 <= i < us.len() && !is_digit(#[trigger] us[i]);
                assert(digits[i] == us[i]);
            }
        }
    }
}

/// A machine word is read from exactly the texts of the numbers that fit it.
pub proof fn law_word_reading(t: Seq<char>, n: usize)
    ensures
        usize_of(t) == Some(n) <==> number_of(t) == Some(n as nat),
        usize_of(t) is None <==> (number_of(t) is None || number_of(t).unwrap() > usize::MAX),
{
}

/// Joining paths: an absolute file is itself, and otherwise exactly one separator more than
/// the directory ends in is put in, none where the directory is empty.
pub proof fn law_paths(dir: Seq<char>, file: Seq<char>)
    ensures
        joined_path(dir, seq!['/'] + file) == seq!['/'] + file,
        (file.len() == 0 || file[0] != '/') ==> {
            &&& joined_path(Seq::empty(), file) == file
            &&& joined_path(dir.push('/'), file) == dir.push('/') + file
            &&& dir.len() > 0 && dir.last() != '/' ==> joined_path(dir, file) == dir.push('/')
                + file
        },
{
    reveal_strlit("/");
    assert((seq!['/'] + file)[0] == '/');
    if file.len() == 0 || file[0] != '/' {
        assert(Seq::<char>::empty() + file =~= file);
        assert(dir.push('/').last() == '/');
        assert(dir + "/"@ + file =~= dir.push('/') + file);
    }
}

/// Trimming takes white space off both ends, all of it and nothing else.
pub proof fn law_trimming(s: Seq<char>) -> (cut: (int, int))
    ensures
        0 <= cut.0 <= cut.1 <= s.len(),
        trimmed(s) == s.subrange(cut.0, cut.1),
        forall|i: int| 0 <= i < cut.0 || cut.1 <= i < s.len() ==> is_white(#[trigger] s[i]),
        trimmed(s).len() > 0 ==> !is_white(trimmed(s)[0]) && !is_white(trimmed(s).last()),
{
    let from = lemma_trimmed_start(s);
    let rest = s.skip(from);
    let to = lemma_trimmed_end(rest);
    assert(rest.take(to) =~= s.subrange(from, from + to));
    assert forall|i: int| 0 <= i < from || from + to <= i < s.len() implies is_white(
        #[trigger] s[i],
    ) by {
        if i >= from + to {
            assert(rest[i - from] == s[i]);
        }
    }
    if to > 0 {
        assert(rest[0] == trimmed(s)[0]);
    }
    (from, from + to)
}

/// White space round a text that has none at its ends is what trimming takes off, and nothing is
/// left of white space alone.
pub proof fn law_trimmed_text(front: Seq<char>, t: Seq<char>, end: Seq<char>)
    requires
        forall|i: int| 0 <= i < front.len() ==> is_white(#[trigger] front[i]),
        forall|i: int| 0 <= i < end.len() ==> is_white(#[trigger] end[i]),
    ensures
        trimmed(front) == Seq::<char>::empty(),
        t.len() > 0 && !is_white(t[0]) && !is_white(t.last()) ==> trimmed(front + t + end) == t,
{
    let (c, d) = law_trimming(front);
    if trimmed(front).len() > 0 {
        assert(trimmed(front)[0] == front[c]);
    }
    assert(trimmed(front) =~= Seq::empty());
    if t.len() > 0 && !is_white(t[0]) && !is_white(t.last()) {
        let s = front + t + end;
        let (a, b) = law_trimming(s);
        let from = front.len() as int;
        let to = from + t.len() as int;
        assert(s[from] == t[0]);
        assert(s[to - 1] == t.last());
        assert(a <= from && b >= to);
        assert(trimmed(s)[0] == s[a]);
        assert(trimmed(s).last() == s[b - 1]);
        if a < from {
            assert(s[a] == front[a]);
        }
        if b > to {
            assert(s[b - 1] == end[b - 1 - to]);
        }
        assert(trimmed(s) =~= t);
    }
}

proof fn lemma_trimmed_start(s: Seq<char>) -> (n: int)
    ensures
        0 <= n <= s.len(),
        trimmed_start(s) == s.skip(n),
        forall|i: int| 0 <= i < n ==> is_white(#[trigger] s[i]),
        n < s.len() ==> !is_white(s[n]),
    decreases s.len(),
{
    if s.len() > 0 && is_white(s[0]) {
        let n = lemma_trimmed_start(s.drop_first());
        assert(s.drop_first().skip(n) =~= s.skip(n + 1));
        assert forall|i: int| 0 <= i < n + 1 implies is_white(#[trigger] s[i]) by {
            if i > 0 {
                assert(s.drop_first()[i - 1] == s[i]);
            }
        }
        if n + 1 < s.len() {
            assert(s.drop_first()[n] == s[n + 1]);
        }
        n + 1
    } else {
        assert(s.skip(0) =~= s);
        0
    }
}

proof fn lemma_trimmed_end(s: Seq<char>) -> (n: int)
    ensures
        0 <= n <= s.len(),
        trimmed_end(s) == s.take(n),
        forall|i: int| n <= i < s.len() ==> is_white(#[trigger] s[i]),
        n > 0 ==> !is_white(s[n - 1]),
    decreases s.len(),
{
    if s.len() > 0 && is_white(s.last()) {
        let n = lemma_trimmed_end(s.drop_last());
        assert(s.drop_last().take(n) =~= s.take(n));
        assert forall|i: int| n <= i < s.len() implies is_white(#[trigger] s[i]) by {
            if i < s.len() - 1 {
                assert(s.drop_last()[i] == s[i]);
            }
        }
        n
    } else {
        assert(s.take(s.len() as int) =~= s);
        s.len() as int
    }
}

/// The white space characters of Unicode, by number.
pub proof fn law_white_space(c: char)
    ensures
        is_white(c) <==> {
            let n = c as u32;
            ||| 9 <= n <= 13
            ||| n == 32
            ||| n == 133
            ||| n == 160
            ||| n == 5760
            ||| 8192 <= n <= 8202
            ||| n == 8232
            ||| n == 8233
            ||| n == 8239
            ||| n == 8287
            ||| n == 12288
        },
{
}

/// Splitting at the first space: a word without a space is all of a text that has none, and
/// otherwise what precedes the first space, with what follows it as the rest.
pub proof fn law_splitting(word: Seq<char>, rest: Seq<char>)
    requires
        !word.contains(' '),
    ensures
        first_word(word) == word,
        after_first_word(word) == Seq::<char>::empty(),
        first_word(word.push(' ') + rest) == word,
        after_first_word(word.push(' ') + rest) == rest,
{
    lemma_first_space(word, Seq::empty());
    assert(word + Seq::empty() =~= word);
    assert(word.take(word.len() as int) =~= word);
    let s = word.push(' ') + rest;
    assert(s =~= word + (seq![' '] + rest));
    lemma_first_space(word, seq![' '] + rest);
    assert(s.take(word.len() as int) =~= word);
    assert(s.skip(word.len() as int + 1) =~= rest);
}

proof fn lemma_first_space(word: Seq<char>, rest: Seq<char>)
    requires
        !word.contains(' '),
        rest.len() > 0 ==> rest[0] == ' ',
    ensures
        first_space(word + rest) == word.len(),
    decreases word.len(),
{
    let s = word + rest;
    if word.len() == 0 {
        assert(s =~= rest);
    } else {
        let w = word.drop_first();
        assert(word.contains(word[0]));
        assert forall|c: char| w.contains(c) implies word.contains(c) by {
            let i = choose|i: int| 0 <= i < w.len() && w[i] == c;
            assert(word[i + 1] == c);
        }
        assert(s[0] == word[0]);
        assert(s.drop_first() =~= w + rest);
        lemma_first_space(w, rest);
    }
}

/// Joining words: nothing for no words, a word alone for one, and a space before each further
/// word.
pub proof fn law_joining(words: Seq<Seq<char>>, word: Seq<char>)
    ensures
        joined_words(Seq::empty()) == Seq::<char>::empty(),
        joined_words(seq![word]) == word,
        words.len() > 0 ==> joined_words(words.push(word)) == joined_words(words).push(' ')
            + word,
{
    if words.len() > 0 {
        reveal_strlit(" ");
        assert(words.push(word).drop_last() =~= words);
        assert(joined_words(words) + " "@ + word =~= joined_words(words).push(' ') + word);
    }
}

/// The operands of a command line are the texts of its strings but the first, in order.
pub proof fn law_operands(program: String, args: Seq<String>)
    ensures
        operands(Seq::empty()) == Seq::<Seq<char>>::empty(),
        operands(seq![program] + args).len() == args.len(),
        forall|i: int|
            0 <= i < args.len() ==> #[trigger] operands(seq![program] + args)[i] == args[i]@,
        texts(args).len() == args.len(),
        forall|i: int| 0 <= i < args.len() ==> #[trigger] texts(args)[i] == args[i]@,
{
}

} // verus!
