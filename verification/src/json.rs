//! JSON documents, as the control protocol uses them.
//!
//! A document is a `serde_json::Value`. What is known of one is its compact text, so the
//! contracts here relate texts to texts: what parsing reads, what a document's members
//! are, what a string literal stands for.

use crate::text;
use serde_json::Value;
use vstd::prelude::*;
use vstd::string::*;

verus! {

/// A JSON document of `serde_json`.
#[verifier::external_type_specification]
#[verifier::external_body]
pub struct ExValue(serde_json::Value);

/// What a document holds: its compact text, which `Display` of `serde_json::Value` prints.
pub uninterp spec fn json_text(document: serde_json::Value) -> Seq<char>;

/// The compact text of the document that `serde_json::from_str` reads from `text`, or
/// nothing if it reports an error.
pub uninterp spec fn json_parsed(text: Seq<char>) -> Option<Seq<char>>;

/// The compact texts of the members of the object with compact text `document`, by key; no
/// members if it is not an object. This is what `serde_json::Value::get` looks up.
pub uninterp spec fn json_members(document: Seq<char>) -> Map<Seq<char>, Seq<char>>;

/// The hexadecimal digit for a number below sixteen.
pub open spec fn hex_digit(d: nat) -> char {
    if d < 10 {
        ('0' as nat + d) as char
    } else {
        ('a' as nat + (d - 10)) as char
    }
}

/// A character inside a string literal: quotation mark, backslash and control characters
/// are escaped, the last by a letter where there is one and by number otherwise.
pub open spec fn escaped_char(c: char) -> Seq<char> {
    if c == '"' || c == '\\' {
        seq!['\\', c]
    } else if c == '\u{8}' {
        seq!['\\', 'b']
    } else if c == '\u{9}' {
        seq!['\\', 't']
    } else if c == '\u{A}' {
        seq!['\\', 'n']
    } else if c == '\u{C}' {
        seq!['\\', 'f']
    } else if c == '\u{D}' {
        seq!['\\', 'r']
    } else if ' ' > c {
        seq!['\\', 'u', '0', '0', hex_digit(c as nat / 16), hex_digit(c as nat % 16)]
    } else {
        seq![c]
    }
}

/// The characters of `s` inside a string literal.
pub open spec fn escaped(s: Seq<char>) -> Seq<char>
    decreases s.len(),
{
    if s.len() == 0 {
        Seq::empty()
    } else {
        escaped_char(s[0]) + escaped(s.drop_first())
    }
}

/// The compact text of the string `s` as a document: a string literal.
pub open spec fn quoted(s: Seq<char>) -> Seq<char> {
    "\""@ + escaped(s) + "\""@
}

/// The string that the document with compact text `document` stands for, if it is a string
/// literal.
pub open spec fn json_string(document: Seq<char>) -> Option<Seq<char>> {
    if exists|s: Seq<char>| document == #[trigger] quoted(s) {
        Some(choose|s: Seq<char>| document == #[trigger] quoted(s))
    } else {
        None
    }
}

/// A string literal stands for one string.
pub proof fn law_string_literal(s: Seq<char>)
    ensures
        json_string(quoted(s)) == Some(s),
{
    let t = choose|t: Seq<char>| quoted(s) == #[trigger] quoted(t);
    assert(quoted(s) == quoted(t));
    reveal_strlit("\"");
    assert(escaped(s) =~= quoted(s).subrange(1, quoted(s).len() - 1));
    assert(escaped(t) =~= quoted(t).subrange(1, quoted(t).len() - 1));
    lemma_escaped_injective(s, t);
}

/// Different strings are escaped differently.
proof fn lemma_escaped_injective(s: Seq<char>, t: Seq<char>)
    requires
        escaped(s) == escaped(t),
    ensures
        s == t,
    decreases s.len(),
{
    if s.len() == 0 {
        if t.len() > 0 {
            assert(escaped(t).len() >= escaped_char(t[0]).len());
        }
        assert(s =~= t);
    } else if t.len() == 0 {
        assert(escaped(s).len() >= escaped_char(s[0]).len());
    } else {
        let (a, b) = (escaped_char(s[0]), escaped_char(t[0]));
        let (ra, rb) = (escaped(s.drop_first()), escaped(t.drop_first()));
        lemma_escape_front(s[0], t[0], ra, rb);
        assert(ra =~= (a + ra).skip(a.len() as int));
        assert(rb =~= (b + rb).skip(b.len() as int));
        lemma_escaped_injective(s.drop_first(), t.drop_first());
        assert(s =~= seq![s[0]] + s.drop_first());
        assert(t =~= seq![t[0]] + t.drop_first());
    }
}

/// What starts with the escapes of two characters starts with one character.
proof fn lemma_escape_front(c: char, d: char, rest_c: Seq<char>, rest_d: Seq<char>)
    requires
        escaped_char(c) + rest_c == escaped_char(d) + rest_d,
    ensures
        c == d,
{
    let x = escaped_char(c) + rest_c;
    let y = escaped_char(d) + rest_d;
    assert(x[0] == escaped_char(c)[0]);
    assert(y[0] == escaped_char(d)[0]);
    if escaped_char(c).len() > 1 && escaped_char(d).len() > 1 {
        assert(x[1] == escaped_char(c)[1]);
        assert(y[1] == escaped_char(d)[1]);
        if escaped_char(c).len() > 2 && escaped_char(d).len() > 2 {
            assert(x[4] == escaped_char(c)[4]);
            assert(y[4] == escaped_char(d)[4]);
            assert(x[5] == escaped_char(c)[5]);
            assert(y[5] == escaped_char(d)[5]);
        }
    }
}

/// Whether no character of `s` needs an escape: no control character, no quotation mark and
/// no backslash.
pub open spec fn needs_no_escape(s: Seq<char>) -> bool {
    forall|i: int|
        0 <= i < s.len() ==> #[trigger] s[i] >= ' ' && s[i] != '"' && s[i] != '\\'
}

/// A string in which no character needs an escape stands in its literal as it is.
pub proof fn law_plain_string(s: Seq<char>)
    requires
        needs_no_escape(s),
    ensures
        quoted(s) == "\""@ + s + "\""@,
{
    lemma_plain(s);
}

proof fn lemma_plain(s: Seq<char>)
    requires
        needs_no_escape(s),
    ensures
        escaped(s) == s,
    decreases s.len(),
{
    if s.len() == 0 {
        assert(escaped(s) =~= s);
    } else {
        let rest = s.drop_first();
        assert forall|i: int| 0 <= i < rest.len() implies #[trigger] rest[i] >= ' ' && rest[i]
            != '"' && rest[i] != '\\' by {
            assert(rest[i] == s[i + 1]);
        }
        lemma_plain(rest);
        assert(s[0] >= ' ' && s[0] != '"' && s[0] != '\\');
        assert(seq![s[0]] + rest =~= s);
    }
}

/// The members of an object, separated by commas.
pub open spec fn members_text(members: Seq<(Seq<char>, Seq<char>)>) -> Seq<char>
    decreases members.len(),
{
    if members.len() == 0 {
        Seq::empty()
    } else if members.len() == 1 {
        quoted(members[0].0) + ":"@ + members[0].1
    } else {
        quoted(members[0].0) + ":"@ + members[0].1 + ","@ + members_text(members.drop_first())
    }
}

/// The compact text of an object with the given keys and compact texts of values.
pub open spec fn object_text(members: Seq<(Seq<char>, Seq<char>)>) -> Seq<char> {
    "{"@ + members_text(members) + "}"@
}

/// Whether text `a` comes before text `b` in the order of their characters.
pub open spec fn before(a: Seq<char>, b: Seq<char>) -> bool
    decreases a.len(),
{
    if b.len() == 0 {
        false
    } else if a.len() == 0 {
        true
    } else if a[0] == b[0] {
        before(a.drop_first(), b.drop_first())
    } else {
        a[0] < b[0]
    }
}

/// Whether the keys ascend, so that none occurs twice.
pub open spec fn ascending(members: Seq<(Seq<char>, Seq<char>)>) -> bool {
    forall|i: int, j: int|
        0 <= i < j < members.len() ==> before((#[trigger] members[i]).0, (#[trigger] members[j]).0)
}

/// Whether every value is a string.
pub open spec fn all_strings(members: Seq<(Seq<char>, Seq<char>)>) -> bool {
    forall|i: int|
        0 <= i < members.len() ==> exists|s: Seq<char>|
            (#[trigger] members[i]).1 == #[trigger] quoted(s)
}

/// The values by key.
pub open spec fn members_map(members: Seq<(Seq<char>, Seq<char>)>) -> Map<Seq<char>, Seq<char>>
    decreases members.len(),
{
    if members.len() == 0 {
        Map::empty()
    } else {
        members_map(members.drop_last()).insert(members.last().0, members.last().1)
    }
}

/// Keys and compact texts of a list of members.
pub open spec fn member_texts(members: Seq<(String, serde_json::Value)>) -> Seq<
    (Seq<char>, Seq<char>),
> {
    Seq::new(members.len(), |i: int| (members[i].0@, json_text(members[i].1)))
}

/// Calls `serde_json::from_str`: reads a document, or nothing where that reports an error.
#[verifier::external_body]
pub(crate) fn parse_value(text: &str) -> (document: Option<Value>)
    ensures
        match document {
            Some(d) => json_parsed(text@) == Some(json_text(d)),
            None => json_parsed(text@) is None,
        },
{
    serde_json::from_str::<Value>(text).ok()
}

/// Calls `serde_json::Value::get` with a string: the member of an object with that key;
/// nothing if there is none or the document is not an object.
#[verifier::external_body]
pub(crate) fn member<'a>(document: &'a Value, key: &str) -> (value: Option<&'a Value>)
    ensures
        match value {
            Some(v) => {
                &&& json_members(json_text(*document)).contains_key(key@)
                &&& json_members(json_text(*document))[key@] == json_text(*v)
            },
            None => !json_members(json_text(*document)).contains_key(key@),
        },
{
    document.get(key)
}

/// Calls `serde_json::Value::as_str`: the string that a document is, if it is a string. Of all
/// documents, strings alone are printed as string literals.
#[verifier::external_body]
pub(crate) fn as_string(document: &Value) -> (s: Option<&str>)
    ensures
        match s {
            Some(t) => json_text(*document) == quoted(t@),
            None => forall|t: Seq<char>| json_text(*document) != #[trigger] quoted(t),
        },
{
    document.as_str()
}

/// Calls `clone` of `serde_json::Value`: a document with the same text.
#[verifier::external_body]
pub(crate) fn clone_value(document: &Value) -> (copy: Value)
    ensures
        json_text(copy) == json_text(*document),
{
    document.clone()
}

/// Calls `serde_json::Value::from` with a string: the document that is that string. It is
/// printed as a string literal.
#[verifier::external_body]
pub(crate) fn string_value(s: &str) -> (document: Value)
    ensures
        json_text(document) == quoted(s@),
{
    Value::from(s)
}

/// Calls `serde_json::Value::from` with a number: the document that is that number, printed
/// in decimal notation.
#[verifier::external_body]
pub(crate) fn number_value(n: u32) -> (document: Value)
    ensures
        json_text(document) == text::decimal(n as nat),
{
    Value::from(n)
}

/// Gives `serde_json::Value::Null`, the document that is printed as the word null.
#[verifier::external_body]
pub(crate) fn null_value() -> (document: Value)
    ensures
        json_text(document) == "null"@,
{
    Value::Null
}

/// Collects members into a `serde_json::Map` and gives the object with it. The map is ordered
/// by key, so members with ascending keys are printed in the order given.
#[verifier::external_body]
pub(crate) fn object_value(members: Vec<(String, Value)>) -> (document: Value)
    requires
        ascending(member_texts(members@)),
    ensures
        json_text(document) == object_text(member_texts(members@)),
{
    Value::Object(members.into_iter().collect())
}

/// Calls `to_string` of `serde_json::Value`: the compact text of a document. The text of an
/// object whose values are strings is read back as that object.
#[verifier::external_body]
pub(crate) fn value_text(document: &Value) -> (t: String)
    ensures
        t@ == json_text(*document),
        forall|members: Seq<(Seq<char>, Seq<char>)>|
            t@ == #[trigger] object_text(members) && ascending(members) && all_strings(members)
                ==> json_parsed(t@) == Some(t@) && json_members(t@) == members_map(members),
{
    document.to_string()
}

// ─── What texts are ──────────────────────────────────────────────────────────

/// How characters stand in a string literal, one after the other: quotation mark and backslash
/// behind a backslash, five control characters by a letter, the other control characters by four
/// hexadecimal digits, and all others as they are.
pub proof fn law_escapes(s: Seq<char>, c: char)
    ensures
        escaped(Seq::empty()) == Seq::<char>::empty(),
        escaped(seq![c] + s) == escaped(seq![c]) + escaped(s),
        escaped(seq!['"']) == seq!['\\', '"'],
        escaped(seq!['\\']) == seq!['\\', '\\'],
        escaped(seq!['\u{8}']) == seq!['\\', 'b'],
        escaped(seq!['\u{9}']) == seq!['\\', 't'],
        escaped(seq!['\u{A}']) == seq!['\\', 'n'],
        escaped(seq!['\u{C}']) == seq!['\\', 'f'],
        escaped(seq!['\u{D}']) == seq!['\\', 'r'],
        c as u32 >= 32 && c != '"' && c != '\\' ==> escaped(seq![c]) == seq![c],
        (c as u32) < 32 && c as u32 != 8 && c as u32 != 9 && c as u32 != 10 && c as u32 != 12
            && c as u32 != 13 ==> {
            let e = escaped(seq![c]);
            let low = c as u32 % 16;
            &&& e.len() == 6
            &&& e.take(4) == seq!['\\', 'u', '0', '0']
            &&& e[4] == if (c as u32) < 16 {
                '0'
            } else {
                '1'
            }
            &&& low < 10 ==> e[5] as u32 == '0' as u32 + low
            &&& low >= 10 ==> e[5] as u32 == 'a' as u32 + low - 10
        },
        quoted(s) == seq!['"'] + escaped(s) + seq!['"'],
{
    lemma_escaped_one('"');
    lemma_escaped_one('\\');
    lemma_escaped_one('\u{8}');
    lemma_escaped_one('\u{9}');
    lemma_escaped_one('\u{A}');
    lemma_escaped_one('\u{C}');
    lemma_escaped_one('\u{D}');
    lemma_escaped_one(c);
    assert((seq![c] + s).drop_first() =~= s);
    reveal_strlit("\"");
    assert("\""@ =~= seq!['"']);
    if (c as u32) < 32 {
        let e = escaped_char(c);
        if e.len() == 6 {
            assert(e.take(4) =~= seq!['\\', 'u', '0', '0']);
        }
    }
}

proof fn lemma_escaped_one(c: char)
    ensures
        escaped(seq![c]) == escaped_char(c),
{
    assert(seq![c].drop_first() =~= Seq::empty());
    assert(escaped(Seq::empty()) =~= Seq::empty());
    assert(escaped_char(c) + Seq::empty() =~= escaped_char(c));
}

/// The text of an object: braces round its members, a colon between a key and its value, and
/// commas between members.
pub proof fn law_object_texts(
    first: (Seq<char>, Seq<char>),
    members: Seq<(Seq<char>, Seq<char>)>,
)
    ensures
        object_text(seq![first]) == seq!['{'] + quoted(first.0) + seq![':'] + first.1 + seq!['}'],
        object_text(members) == seq!['{'] + members_text(members) + seq!['}'],
        members.len() > 0 ==> members_text(seq![first] + members) == quoted(first.0) + seq![':']
            + first.1 + seq![','] + members_text(members),
{
    reveal_strlit("{");
    reveal_strlit("}");
    reveal_strlit(":");
    reveal_strlit(",");
    assert("{"@ =~= seq!['{']);
    assert("}"@ =~= seq!['}']);
    assert(":"@ =~= seq![':']);
    assert(","@ =~= seq![',']);
    let all = seq![first] + members;
    assert(all.drop_first() =~= members);
    assert(all[0] == first);
    assert(seq![first][0] == first);
    assert(object_text(seq![first]) =~= seq!['{'] + quoted(first.0) + seq![':'] + first.1
        + seq!['}']);
}

} // verus!
