//! Little-endian integers as they appear in frames, messages and ring headers.

use vstd::prelude::*;

verus! {

/// The two bytes of `x`, least significant first.
pub open spec fn le16(x: u16) -> Seq<u8> {
    seq![(x % 256) as u8, (x / 256) as u8]
}

/// The four bytes of `x`, least significant first.
pub open spec fn le32(x: u32) -> Seq<u8> {
    seq![
        (x % 256) as u8,
        (x / 256 % 256) as u8,
        (x / 65536 % 256) as u8,
        (x / 16777216) as u8,
    ]
}

/// The eight bytes of `x`, least significant first.
pub open spec fn le64(x: u64) -> Seq<u8> {
    le32((x % 4294967296) as u32) + le32((x / 4294967296) as u32)
}

/// The number whose little-endian bytes are the first two of `s`.
pub open spec fn from_le16(s: Seq<u8>) -> u16 {
    (s[0] + 256 * s[1]) as u16
}

/// The number whose little-endian bytes are the first four of `s`.
pub open spec fn from_le32(s: Seq<u8>) -> u32 {
    (s[0] + 256 * s[1] + 65536 * s[2] + 16777216 * s[3]) as u32
}

/// The number whose little-endian bytes are the first eight of `s`.
pub open spec fn from_le64(s: Seq<u8>) -> u64 {
    (from_le32(s) + 4294967296 * from_le32(s.skip(4))) as u64
}

/// The low sixteen bits of a length, which is what a sixteen-bit length field keeps of it.
pub open spec fn low16(n: nat) -> u16 {
    (n % 65536) as u16
}

/// The low thirty-two bits of a length, which is what a thirty-two-bit length field keeps of it.
pub open spec fn low32(n: nat) -> u32 {
    (n % 4294967296) as u32
}

/// Reading back the two bytes of a number gives the number, whatever follows them.
pub proof fn law_u16_round_trip(x: u16, rest: Seq<u8>)
    ensures
        le16(x).len() == 2,
        from_le16(le16(x)) == x,
        from_le16(le16(x) + rest) == x,
{
}

/// Reading back the four bytes of a number gives the number, whatever follows them.
pub proof fn law_u32_round_trip(x: u32, rest: Seq<u8>)
    ensures
        le32(x).len() == 4,
        from_le32(le32(x)) == x,
        from_le32(le32(x) + rest) == x,
{
}

/// Reading back the eight bytes of a number gives the number, whatever follows them.
pub proof fn law_u64_round_trip(x: u64, rest: Seq<u8>)
    ensures
        le64(x).len() == 8,
        from_le64(le64(x)) == x,
        from_le64(le64(x) + rest) == x,
{
    let lo = (x % 4294967296) as u32;
    let hi = (x / 4294967296) as u32;
    let s = le64(x) + rest;
    assert(s =~= le32(lo) + (le32(hi) + rest));
    assert(s.skip(4) =~= le32(hi) + rest);
    law_u32_round_trip(lo, le32(hi) + rest);
    law_u32_round_trip(hi, rest);
    law_u32_round_trip(lo, le32(hi));
    assert(le64(x).skip(4) =~= le32(hi));
}

/// Appends the bytes of `x`.
pub fn put_u16(buf: &mut Vec<u8>, x: u16)
    ensures
        final(buf)@ == old(buf)@ + le16(x),
{
    buf.push((x % 256) as u8);
    buf.push((x / 256) as u8);
    assert(buf@ =~= old(buf)@ + le16(x));
}

/// Appends the bytes of `x`.
pub fn put_u32(buf: &mut Vec<u8>, x: u32)
    ensures
        final(buf)@ == old(buf)@ + le32(x),
{
    buf.push((x % 256) as u8);
    buf.push((x / 256 % 256) as u8);
    buf.push((x / 65536 % 256) as u8);
    buf.push((x / 16777216) as u8);
    assert(buf@ =~= old(buf)@ + le32(x));
}

/// Appends the bytes of `x`.
pub fn put_u64(buf: &mut Vec<u8>, x: u64)
    ensures
        final(buf)@ == old(buf)@ + le64(x),
{
    put_u32(buf, (x % 4294967296) as u32);
    put_u32(buf, (x / 4294967296) as u32);
    assert(buf@ =~= old(buf)@ + le64(x));
}

/// Appends `data`.
pub fn put_bytes(buf: &mut Vec<u8>, data: &[u8])
    ensures
        final(buf)@ == old(buf)@ + data@,
{
    buf.extend_from_slice(data);
    assert(buf@ =~= old(buf)@ + data@);
}

/// The number at byte `at`.
pub fn get_u16(data: &[u8], at: usize) -> (x: u16)
    requires
        at + 2 <= data@.len(),
    ensures
        x == from_le16(data@.skip(at as int)),
{
    let b0: u16 = data[at] as u16;
    let b1: u16 = data[at + 1] as u16;
    b0 + 256 * b1
}

/// The number at byte `at`.
pub fn get_u32(data: &[u8], at: usize) -> (x: u32)
    requires
        at + 4 <= data@.len(),
    ensures
        x == from_le32(data@.skip(at as int)),
{
    let b0: u32 = data[at] as u32;
    let b1: u32 = data[at + 1] as u32;
    let b2: u32 = data[at + 2] as u32;
    let b3: u32 = data[at + 3] as u32;
    b0 + 256 * b1 + 65536 * b2 + 16777216 * b3
}

/// The number at byte `at`.
pub fn get_u64(data: &[u8], at: usize) -> (x: u64)
    requires
        at + 8 <= data@.len(),
    ensures
        x == from_le64(data@.skip(at as int)),
{
    assert(data@.len() == data.len());
    let lo: u64 = get_u32(data, at) as u64;
    let hi: u64 = get_u32(data, at + 4) as u64;
    assert(data@.skip(at as int).skip(4) =~= data@.skip(at + 4));
    lo + 4294967296 * hi
}

/// Writes the bytes of `x` at byte `at`.
pub fn set_u64(data: &mut [u8], at: usize, x: u64)
    requires
        at + 8 <= old(data)@.len(),
    ensures
        final(data)@ == old(data)@.take(at as int) + le64(x) + old(data)@.skip(at + 8),
{
    let lo: u32 = (x % 4294967296) as u32;
    let hi: u32 = (x / 4294967296) as u32;
    data[at] = (lo % 256) as u8;
    data[at + 1] = (lo / 256 % 256) as u8;
    data[at + 2] = (lo / 65536 % 256) as u8;
    data[at + 3] = (lo / 16777216) as u8;
    data[at + 4] = (hi % 256) as u8;
    data[at + 5] = (hi / 256 % 256) as u8;
    data[at + 6] = (hi / 65536 % 256) as u8;
    data[at + 7] = (hi / 16777216) as u8;
    assert(data@ =~= old(data)@.take(at as int) + le64(x) + old(data)@.skip(at + 8));
}

/// The low sixteen bits of `n`.
pub fn truncate_u16(n: usize) -> (x: u16)
    ensures
        x == low16(n as nat),
{
    (n % 65536) as u16
}

/// The low thirty-two bits of `n`.
pub fn truncate_u32(n: usize) -> (x: u32)
    ensures
        x == low32(n as nat),
{
    (n as u64 % 4294967296) as u32
}

/// Whether two byte strings are equal.
pub fn same_bytes(a: &[u8], b: &[u8]) -> (same: bool)
    ensures
        same == (a@ == b@),
{
    if a.len() != b.len() {
        return false;
    }
    let mut i: usize = 0;
    while i < a.len()
        invariant
            i <= a@.len() == b@.len(),
            forall|k: int| 0 <= k < i ==> a@[k] == b@[k],
        decreases a@.len() - i,
    {
        if a[i] != b[i] {
            return false;
        }
        i += 1;
    }
    assert(a@ =~= b@);
    true
}

// ─── What the bytes and numbers are ──────────────────────────────────────────

/// Two bytes denote a number in base 256, the least significant first, and every number is
/// written that way.
pub proof fn law_two_bytes(x: u16, s: Seq<u8>)
    requires
        s.len() >= 2,
    ensures
        from_le16(s) == s[0] + 0x100 * s[1],
        le16(x).len() == 2,
        x == le16(x)[0] + 0x100 * le16(x)[1],
{
}

/// Four bytes denote a number in base 256, the least significant first, and every number is
/// written that way.
pub proof fn law_four_bytes(x: u32, s: Seq<u8>)
    requires
        s.len() >= 4,
    ensures
        from_le32(s) == s[0] + 0x100 * s[1] + 0x1_0000 * s[2] + 0x100_0000 * s[3],
        le32(x).len() == 4,
        x == le32(x)[0] + 0x100 * le32(x)[1] + 0x1_0000 * le32(x)[2] + 0x100_0000 * le32(x)[3],
{
}

/// Eight bytes denote a number in base 256, the least significant first, and every number is
/// written that way.
pub proof fn law_eight_bytes(x: u64, s: Seq<u8>)
    requires
        s.len() >= 8,
    ensures
        from_le64(s) == s[0] + 0x100 * s[1] + 0x1_0000 * s[2] + 0x100_0000 * s[3]
            + 0x1_0000_0000 * s[4] + 0x100_0000_0000 * s[5] + 0x1_0000_0000_0000 * s[6]
            + 0x100_0000_0000_0000 * s[7],
        le64(x).len() == 8,
        x == le64(x)[0] + 0x100 * le64(x)[1] + 0x1_0000 * le64(x)[2] + 0x100_0000 * le64(x)[3]
            + 0x1_0000_0000 * le64(x)[4] + 0x100_0000_0000 * le64(x)[5] + 0x1_0000_0000_0000
            * le64(x)[6] + 0x100_0000_0000_0000 * le64(x)[7],
{
    law_four_bytes(0, s);
    law_four_bytes(0, s.skip(4));
    law_four_bytes((x % 4294967296) as u32, s);
    law_four_bytes((x / 4294967296) as u32, s);
}

/// A length field keeps a length that fits it, and lengths that differ by the size of the
/// field's range look the same in it.
pub proof fn law_length_fields(n: nat)
    ensures
        n < 0x1_0000 ==> low16(n) == n,
        low16(n + 0x1_0000) == low16(n),
        n < 0x1_0000_0000 ==> low32(n) == n,
        low32(n + 0x1_0000_0000) == low32(n),
{
}

} // verus!
