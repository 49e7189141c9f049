//! Single-producer, single-consumer ring buffer that lives in a memory region
//! shared by two parties.
//!
//! Region layout:
//! ```text
//! ┌─────────────────────────────────────────────────┐
//! │ Header (128 bytes, cache-line padded)            │
//! │   write_pos: u64 LE   (offset 0)                 │
//! │   padding             (56 bytes)                 │
//! │   read_pos:  u64 LE   (offset 64)                │
//! │   padding             (56 bytes)                 │
//! ├─────────────────────────────────────────────────┤
//! │ Data ring (capacity bytes, a power of 2)         │
//! │   Messages are length-prefixed (4-byte LE)       │
//! │   [len: u32][payload: len bytes][len][payload]   │
//! └─────────────────────────────────────────────────┘
//! ```
//!
//! Positions count the bytes ever written and ever read, modulo 2^64. The byte
//! at position `p` is kept in cell `p mod capacity` of the data ring; since the
//! capacity is a power of 2 this is a bit mask, and it stays right when a
//! position wraps.

use crate::wire;
use vstd::arithmetic::div_mod::*;
use vstd::arithmetic::mul::*;
use vstd::arithmetic::power2::*;
use vstd::bits::*;
use vstd::prelude::*;

verus! {

/// Bytes of a region that precede the data ring.
pub const HEADER_SIZE: usize = 128;

/// Distance in bytes between the two positions in the header.
pub const CACHE_LINE: usize = 64;

/// View into a ring buffer that lives in a region. It does not own the memory:
/// every operation is handed the region.
pub struct RingBuf {
    /// Always a power of 2.
    capacity: usize,
    /// `capacity - 1`, used as bit mask.
    mask: usize,
}

/// Whether `n` is a power of two.
pub open spec fn is_power_of_two(n: nat) -> bool {
    exists|k: nat| n == pow2(k)
}

/// The largest power of two that is not above `n`, for `n` from 1 on.
pub open spec fn floor_pow2(n: nat) -> nat
    decreases n,
{
    if n <= 1 {
        1
    } else {
        2 * floor_pow2(n / 2)
    }
}

/// The largest power of two that is not above `n`, for `n` from 1 on.
pub fn floor_power(n: usize) -> (power: usize)
    ensures
        power == floor_pow2(n as nat),
        power >= 1,
        is_power_of_two(power as nat),
        n >= 1 ==> power <= n < 2 * power,
{
    let mut power: usize = 1;
    let mut rest: usize = n;
    let ghost mut k: nat = 0;
    proof {
        lemma2_to64();
    }
    if n == 0 {
        return power;
    }
    while rest > 1
        invariant
            rest >= 1,
            power >= 1,
            power == pow2(k),
            power * floor_pow2(rest as nat) == floor_pow2(n as nat),
            power * rest <= n,
        decreases rest,
    {
        proof {
            let half = rest as int / 2;
            lemma_pow2_unfold(k + 1);
            assert(power * 2 <= power * rest) by (nonlinear_arith)
                requires
                    rest >= 2,
                    power >= 1,
            ;
            assert((power * 2) * floor_pow2(half as nat) == power * (2 * floor_pow2(half as nat)))
                by (nonlinear_arith);
            assert((power * 2) * half <= power * rest) by (nonlinear_arith)
                requires
                    2 * half <= rest,
                    power >= 1,
            ;
            k = k + 1;
        }
        power = power * 2;
        rest = rest / 2;
    }
    proof {
        assert(floor_pow2(1) == 1);
        law_floor_pow2(n as nat);
    }
    power
}

/// The position of the next byte to write, as the header holds it.
pub open spec fn write_pos(region: Seq<u8>) -> u64 {
    wire::from_le64(region)
}

/// The position of the next byte to read, as the header holds it.
pub open spec fn read_pos(region: Seq<u8>) -> u64 {
    wire::from_le64(region.skip(CACHE_LINE as int))
}

/// How many bytes position `w` is ahead of position `r`.
pub open spec fn distance(w: u64, r: u64) -> nat {
    if w >= r {
        (w - r) as nat
    } else {
        (w - r + 0x1_0000_0000_0000_0000) as nat
    }
}

/// The position `n` bytes after `pos`.
pub open spec fn advance(pos: u64, n: nat) -> u64 {
    ((pos + n) % 0x1_0000_0000_0000_0000) as u64
}

/// A message as the ring holds it: its length in four bytes, then its bytes.
pub open spec fn framed(message: Seq<u8>) -> Seq<u8> {
    wire::le32(wire::low32(message.len())) + message
}

/// The bytes of several messages, the first one first.
pub open spec fn flat(messages: Seq<Seq<u8>>) -> Seq<u8>
    decreases messages.len(),
{
    if messages.len() == 0 {
        Seq::empty()
    } else {
        framed(messages[0]) + flat(messages.drop_first())
    }
}

/// The message at the front of `bytes`, if it is there in full.
pub open spec fn first_message(bytes: Seq<u8>) -> Option<Seq<u8>> {
    if bytes.len() < 4 || bytes.len() < 4 + wire::from_le32(bytes) {
        None
    } else {
        Some(bytes.subrange(4, 4 + wire::from_le32(bytes)))
    }
}

impl RingBuf {
    /// Usable data capacity in bytes.
    pub closed spec fn cap(&self) -> nat {
        self.capacity as nat
    }

    pub closed spec fn bit_mask(&self) -> nat {
        self.mask as nat
    }

    /// The capacity is a power of two from 2 on, and the mask selects its low bits.
    pub open spec fn wf(&self) -> bool {
        &&& 2 <= self.cap() <= usize::MAX
        &&& is_power_of_two(self.cap())
        &&& self.bit_mask() == self.cap() - 1
    }

    /// Whether `region` is large enough for this ring.
    pub open spec fn fits(&self, region: Seq<u8>) -> bool {
        HEADER_SIZE + self.cap() <= region.len()
    }

    /// Whether `region` holds this ring, with no more unread bytes than the ring can hold.
    pub open spec fn consistent(&self, region: Seq<u8>) -> bool {
        &&& self.fits(region)
        &&& distance(write_pos(region), read_pos(region)) <= self.cap()
    }

    /// The `n` bytes from position `from` on.
    pub open spec fn stream(&self, region: Seq<u8>, from: u64, n: nat) -> Seq<u8> {
        Seq::new(n, |i: int| region[HEADER_SIZE + (from + i) % (self.cap() as int)])
    }

    /// The bytes that were written and not yet read, the oldest first.
    pub open spec fn unread(&self, region: Seq<u8>) -> Seq<u8> {
        self.stream(region, read_pos(region), distance(write_pos(region), read_pos(region)))
    }

    /// Whether the unread bytes are exactly `messages`, the oldest first.
    pub open spec fn holds(&self, region: Seq<u8>, messages: Seq<Seq<u8>>) -> bool {
        &&& self.consistent(region)
        &&& self.unread(region) == flat(messages)
    }

    /// `region` after `data` was written at position `pos`: data byte `i` is in
    /// the cell of position `pos + i`, and nothing else changed.
    #[verifier::opaque]
    spec fn written(&self, region: Seq<u8>, pos: u64, data: Seq<u8>) -> Seq<u8> {
        Seq::new(
            region.len(),
            |j: int|
                {
                    let i = (j - HEADER_SIZE - pos) % (self.cap() as int);
                    if HEADER_SIZE <= j < HEADER_SIZE + self.cap() && i < data.len() {
                        data[i]
                    } else {
                        region[j]
                    }
                },
        )
    }

    /// Whether a message of `len` bytes fits beside what is unread.
    pub open spec fn has_room(&self, region: Seq<u8>, len: nat) -> bool {
        4 + len <= self.cap() - self.unread(region).len()
    }

    /// Whether `after` is `before` with `message` put behind the unread bytes: the write
    /// position and cells of the data ring changed, nothing else.
    pub open spec fn appended(&self, before: Seq<u8>, after: Seq<u8>, message: Seq<u8>) -> bool {
        &&& after.len() == before.len()
        &&& self.consistent(after)
        &&& self.unread(after) == self.unread(before) + framed(message)
        &&& write_pos(after) == advance(write_pos(before), 4 + message.len())
        &&& read_pos(after) == read_pos(before)
        &&& forall|i: int|
            8 <= i < HEADER_SIZE || HEADER_SIZE + self.cap() <= i < before.len() ==> after[i]
                == before[i]
    }

    /// Whether `after` is `before` with `message` taken from the front of the unread bytes:
    /// the read position changed, nothing else.
    pub open spec fn taken(&self, before: Seq<u8>, after: Seq<u8>, message: Seq<u8>) -> bool {
        &&& after.len() == before.len()
        &&& self.consistent(after)
        &&& self.unread(after) == self.unread(before).skip(4 + message.len() as int)
        &&& write_pos(after) == write_pos(before)
        &&& read_pos(after) == advance(read_pos(before), 4 + message.len())
        &&& forall|i: int| 0 <= i < 64 || 72 <= i < before.len() ==> after[i] == before[i]
    }

    /// Ring over a region of `total_size` bytes. The data capacity is rounded
    /// down to the largest power of 2 that fits after the header.
    pub fn new(total_size: usize) -> (ring: RingBuf)
        requires
            total_size >= HEADER_SIZE + 2,
        ensures
            ring.wf(),
            ring.cap() == floor_pow2((total_size - HEADER_SIZE) as nat),
            ring.cap() <= total_size - HEADER_SIZE < 2 * ring.cap(),
    {
        let capacity: usize = floor_power(total_size - HEADER_SIZE);
        RingBuf { capacity, mask: capacity - 1 }
    }

    /// Usable data capacity in bytes.
    pub fn capacity(&self) -> (n: usize)
        ensures
            n == self.cap(),
    {
        self.capacity
    }

    /// Initializes the header: both positions become zero, nothing is unread.
    pub fn init(&self, region: &mut [u8])
        requires
            self.wf(),
            self.fits(old(region)@),
        ensures
            final(region)@.len() == old(region)@.len(),
            write_pos(final(region)@) == 0,
            read_pos(final(region)@) == 0,
            self.holds(final(region)@, Seq::empty()),
            forall|i: int|
                8 <= i < 64 || 72 <= i < old(region)@.len() ==> final(region)@[i] == old(
                    region,
                )@[i],
    {
        store_write_pos(region, 0);
        store_read_pos(region, 0);
        assert(self.unread(region@) =~= Seq::empty());
    }

    /// Available bytes for reading.
    pub fn available(&self, region: &[u8]) -> (n: usize)
        requires
            self.fits(region@),
        ensures
            n == distance(write_pos(region@), read_pos(region@)) as usize,
            self.consistent(region@) ==> n == self.unread(region@).len(),
    {
        let w: u64 = load_write_pos(region);
        let r: u64 = load_read_pos(region);
        w.wrapping_sub(r) as usize
    }

    /// Free space for writing.
    pub fn free_space(&self, region: &[u8]) -> (n: usize)
        requires
            self.consistent(region@),
        ensures
            n == self.cap() - self.unread(region@).len(),
    {
        self.capacity - self.available(region)
    }

    /// Writes a length-prefixed message. Returns false if not enough space.
    pub fn push(&self, region: &mut [u8], data: &[u8]) -> (done: bool)
        requires
            self.wf(),
            self.consistent(old(region)@),
        ensures
            done == self.has_room(old(region)@, data@.len()),
            done <==> 4 + data@.len() <= self.cap() - self.unread(old(region)@).len(),
            !done ==> final(region)@ == old(region)@,
            done ==> self.appended(old(region)@, final(region)@, data@),
            done ==> self.unread(final(region)@) == self.unread(old(region)@) + framed(data@),
            final(region)@.len() == old(region)@.len(),
            read_pos(final(region)@) == read_pos(old(region)@),
            forall|i: int|
                8 <= i < 128 || 128 + self.cap() <= i < old(region)@.len() ==> final(region)@[i]
                    == old(region)@[i],
    {
        let w: u64 = load_write_pos(region);
        let r: u64 = load_read_pos(region);
        match self.push_between(region, w, r, data) {
            None => false,
            Some(new_w) => {
                let ghost middle = region@;
                proof {
                    lemma_same_header(old(region)@, middle);
                }
                store_write_pos(region, new_w);
                proof {
                    let n = 4 + data@.len();
                    lemma_distance_advance(w, r, n);
                    self.lemma_stream_frame(middle, region@, r, distance(w, r));
                    self.lemma_stream_frame(middle, region@, w, n);
                    self.lemma_stream_split(region@, r, distance(w, r), n);
                    lemma_advance_distance(w, r);
                }
                true
            },
        }
    }

    /// Reads the next length-prefixed message. Returns false if there is none.
    pub fn pop(&self, region: &mut [u8], buf: &mut Vec<u8>) -> (done: bool)
        requires
            self.wf(),
            self.consistent(old(region)@),
        ensures
            done == (first_message(self.unread(old(region)@)) is Some),
            !done ==> final(region)@ == old(region)@ && final(buf)@ == old(buf)@,
            done ==> first_message(self.unread(old(region)@)) == Some(final(buf)@),
            done ==> self.taken(old(region)@, final(region)@, final(buf)@),
            done ==> self.unread(old(region)@) == framed(final(buf)@) + self.unread(
                final(region)@,
            ),
            final(region)@.len() == old(region)@.len(),
            write_pos(final(region)@) == write_pos(old(region)@),
            forall|i: int|
                0 <= i < 64 || 72 <= i < old(region)@.len() ==> final(region)@[i] == old(
                    region,
                )@[i],
    {
        let w: u64 = load_write_pos(region);
        let r: u64 = load_read_pos(region);
        match self.pop_between(region, w, r, buf) {
            None => false,
            Some(new_r) => {
                store_read_pos(region, new_r);
                proof {
                    let n = 4 + buf@.len();
                    lemma_distance_retreat(w, r, n);
                    lemma_advance_mod_cap(self, r, n);
                    self.lemma_stream_frame(old(region)@, region@, new_r, (distance(w, r) - n) as nat);
                    self.lemma_stream_skip(old(region)@, r, distance(w, r), n);
                    law_message_at_front(self.unread(old(region)@), buf@);
                    assert(self.unread(old(region)@) =~= framed(buf@) + self.unread(region@));
                }
                true
            },
        }
    }

    /// Writes a length-prefixed message between the positions `w` and `r` that the
    /// caller loaded, and leaves the header alone. Returns the new write position,
    /// or nothing if there is not enough space.
    ///
    /// Only cells outside `r..w` change, so a producer may use a read position that
    /// the consumer has meanwhile moved on from.
    pub fn push_between(&self, region: &mut [u8], w: u64, r: u64, data: &[u8]) -> (new_w: Option<u64>)
        requires
            self.wf(),
            self.fits(old(region)@),
            distance(w, r) <= self.cap(),
        ensures
            new_w == if 4 + data@.len() <= self.cap() - distance(w, r) {
                Some(advance(w, 4 + data@.len()))
            } else {
                None::<u64>
            },
            new_w is None ==> final(region)@ == old(region)@,
            final(region)@.len() == old(region)@.len(),
            forall|i: int|
                0 <= i < HEADER_SIZE || HEADER_SIZE + self.cap() <= i < old(region)@.len()
                    ==> final(region)@[i] == old(region)@[i],
            self.stream(final(region)@, r, distance(w, r)) == self.stream(
                old(region)@,
                r,
                distance(w, r),
            ),
            new_w is Some ==> self.stream(final(region)@, w, 4 + data@.len()) == framed(data@),
    {
        let free: usize = self.capacity - w.wrapping_sub(r) as usize;
        if free < 4 || data.len() > free - 4 {
            return None;
        }
        self.write_framed(region, w, data);
        proof {
            self.lemma_written_reads_back(old(region)@, w, framed(data@));
            self.lemma_written_spares_unread(old(region)@, w, r, framed(data@));
            self.lemma_written_spares_rest(old(region)@, w, framed(data@));
        }
        Some(w.wrapping_add(4 + data.len() as u64))
    }

    /// Reads the message at position `r`, of the bytes up to position `w` that the
    /// caller loaded, and leaves the header alone. Returns the new read position,
    /// or nothing if no message is there in full.
    pub fn pop_between(&self, region: &[u8], w: u64, r: u64, buf: &mut Vec<u8>) -> (new_r: Option<u64>)
        requires
            self.wf(),
            self.fits(region@),
            distance(w, r) <= self.cap(),
        ensures
            match first_message(self.stream(region@, r, distance(w, r))) {
                Some(message) => {
                    &&& new_r == Some(advance(r, 4 + message.len()))
                    &&& final(buf)@ == message
                },
                None => new_r is None && final(buf)@ == old(buf)@,
            },
    {
        let available: usize = w.wrapping_sub(r) as usize;
        if available < 4 {
            return None;
        }
        let mut len_bytes: Vec<u8> = Vec::new();
        self.copy_out(region, r, 4, &mut len_bytes);
        assert(len_bytes@.skip(0) =~= len_bytes@);
        let len: u32 = wire::get_u32(len_bytes.as_slice(), 0);
        let ghost bytes = self.stream(region@, r, distance(w, r));
        assert(len == wire::from_le32(bytes));
        if ((available - 4) as u64) < len as u64 {
            return None;
        }
        let payload_pos: u64 = r.wrapping_add(4);
        self.copy_out(region, payload_pos, len as usize, buf);
        proof {
            lemma_advance_mod_cap(self, r, 4);
            self.lemma_stream_skip(region@, r, distance(w, r), 4);
            assert(buf@ =~= bytes.subrange(4, 4 + len));
        }
        Some(r.wrapping_add(4 + len as u64))
    }

    /// Cell of the data ring that position `pos` falls on.
    fn offset(&self, pos: u64) -> (cell: usize)
        requires
            self.wf(),
        ensures
            cell == (pos as int) % (self.cap() as int),
            cell < self.cap(),
    {
        let mask: u64 = self.mask as u64;
        proof {
            let k = choose|k: nat| self.cap() == pow2(k);
            lemma2_to64_rest();
            if k >= 64 {
                if k > 64 {
                    lemma_pow2_strictly_increases(64, k);
                }
            }
            lemma_u64_low_bits_mask_is_mod(pos, k);
            assert(mask == low_bits_mask(k));
        }
        (pos & mask) as usize
    }

    /// Copies `data` into the ring at position `pos`, in at most two runs.
    fn copy_in(&self, region: &mut [u8], pos: u64, data: &[u8])
        requires
            self.wf(),
            self.fits(old(region)@),
            data@.len() <= self.cap(),
        ensures
            final(region)@ == self.written(old(region)@, pos, data@),
    {
        let offset: usize = self.offset(pos);
        let first: usize = self.capacity - offset;
        assert(region@.len() == region.len());
        if data.len() <= first {
            copy_run(region, HEADER_SIZE + offset, data, 0, data.len());
        } else {
            copy_run(region, HEADER_SIZE + offset, data, 0, first);
            copy_run(region, HEADER_SIZE, data, first, data.len());
        }
        proof {
            let cap = self.cap() as int;
            reveal(RingBuf::written);
            assert forall|j: int| 0 <= j < region@.len() implies region@[j] == self.written(
                old(region)@,
                pos,
                data@,
            )[j] by {
                if HEADER_SIZE <= j < HEADER_SIZE + cap {
                    lemma_cell_distance(pos as int, j - HEADER_SIZE, cap);
                    assert(j - HEADER_SIZE - pos == (j - HEADER_SIZE) - pos);
                }
            }
            assert(region@ =~= self.written(old(region)@, pos, data@));
        }
    }

    /// Writes the length of `data` in four bytes, then `data`, at position `pos`.
    fn write_framed(&self, region: &mut [u8], pos: u64, data: &[u8])
        requires
            self.wf(),
            self.fits(old(region)@),
            4 + data@.len() <= self.cap(),
        ensures
            final(region)@ == self.written(old(region)@, pos, framed(data@)),
    {
        let mut len_bytes: Vec<u8> = Vec::new();
        wire::put_u32(&mut len_bytes, wire::truncate_u32(data.len()));
        assert(len_bytes@ =~= wire::le32(wire::low32(data@.len())));
        self.copy_in(region, pos, len_bytes.as_slice());
        proof {
            self.lemma_written_spares_rest(old(region)@, pos, len_bytes@);
        }
        self.copy_in(region, pos.wrapping_add(4), data);
        proof {
            self.lemma_written_twice(old(region)@, pos, len_bytes@, data@);
        }
    }

    /// Replaces `buf` by the `len` bytes at position `pos`, read in at most two runs.
    fn copy_out(&self, region: &[u8], pos: u64, len: usize, buf: &mut Vec<u8>)
        requires
            self.wf(),
            self.fits(region@),
            len <= self.cap(),
        ensures
            final(buf)@ == self.stream(region@, pos, len as nat),
    {
        let offset: usize = self.offset(pos);
        let first: usize = self.capacity - offset;
        assert(region@.len() == region.len());
        buf.clear();
        if len <= first {
            wire::put_bytes(buf, &region[HEADER_SIZE + offset..HEADER_SIZE + offset + len]);
        } else {
            wire::put_bytes(buf, &region[HEADER_SIZE + offset..HEADER_SIZE + self.capacity]);
            wire::put_bytes(buf, &region[HEADER_SIZE..HEADER_SIZE + (len - first)]);
        }
        proof {
            let cap = self.cap() as int;
            assert forall|i: int| 0 <= i < len implies buf@[i] == self.stream(
                region@,
                pos,
                len as nat,
            )[i] by {
                lemma_cell_ahead(pos as int, i, cap);
            }
            assert(buf@ =~= self.stream(region@, pos, len as nat));
        }
    }
}

/// The write position in the header.
fn load_write_pos(region: &[u8]) -> (w: u64)
    requires
        HEADER_SIZE <= region@.len(),
    ensures
        w == write_pos(region@),
{
    assert(region@.skip(0) =~= region@);
    wire::get_u64(region, 0)
}

/// The read position in the header.
fn load_read_pos(region: &[u8]) -> (r: u64)
    requires
        HEADER_SIZE <= region@.len(),
    ensures
        r == read_pos(region@),
{
    wire::get_u64(region, CACHE_LINE)
}

/// Puts a write position into the header.
fn store_write_pos(region: &mut [u8], w: u64)
    requires
        HEADER_SIZE <= old(region)@.len(),
    ensures
        final(region)@.len() == old(region)@.len(),
        forall|i: int| 8 <= i < old(region)@.len() ==> final(region)@[i] == old(region)@[i],
        write_pos(final(region)@) == w,
        read_pos(final(region)@) == read_pos(old(region)@),
{
    wire::set_u64(region, 0, w);
    proof {
        wire::law_u64_round_trip(w, old(region)@.skip(8));
        assert(old(region)@.take(0) + wire::le64(w) + old(region)@.skip(8) =~= wire::le64(w)
            + old(region)@.skip(8));
        assert(region@.skip(CACHE_LINE as int) =~= old(region)@.skip(CACHE_LINE as int));
    }
}

/// Puts a read position into the header.
fn store_read_pos(region: &mut [u8], r: u64)
    requires
        HEADER_SIZE <= old(region)@.len(),
    ensures
        final(region)@.len() == old(region)@.len(),
        forall|i: int|
            0 <= i < 64 || 72 <= i < old(region)@.len() ==> final(region)@[i] == old(region)@[i],
        write_pos(final(region)@) == write_pos(old(region)@),
        read_pos(final(region)@) == r,
{
    wire::set_u64(region, CACHE_LINE, r);
    proof {
        wire::law_u64_round_trip(r, old(region)@.skip(72));
        assert(region@.skip(64) =~= wire::le64(r) + old(region)@.skip(72));
        assert(region@.skip(4)[0] == region@[4]);
        assert(write_pos(region@) == write_pos(old(region)@));
    }
}

/// Copies `data[from..to]` to `region[at..]`.
fn copy_run(region: &mut [u8], at: usize, data: &[u8], from: usize, to: usize)
    requires
        from <= to <= data@.len(),
        at + (to - from) <= old(region)@.len(),
    ensures
        final(region)@ == old(region)@.take(at as int) + data@.subrange(from as int, to as int)
            + old(region)@.skip(at + (to - from)),
{
    let mut i: usize = from;
    assert(region@.len() == region.len());
    while i < to
        invariant
            from <= i <= to <= data@.len(),
            at + (to - from) <= region@.len(),
            region@.len() == old(region)@.len(),
            old(region)@.len() <= usize::MAX,
            region@ == old(region)@.take(at as int) + data@.subrange(from as int, i as int)
                + old(region)@.skip(at + (i - from)),
        decreases to - i,
    {
        region[at + (i - from)] = data[i];
        i += 1;
        assert(region@ =~= old(region)@.take(at as int) + data@.subrange(from as int, i as int)
            + old(region)@.skip(at + (i - from)));
    }
}

impl RingBuf {
    /// Two regions with the same data ring hold the same bytes at every position.
    proof fn lemma_stream_frame(&self, a: Seq<u8>, b: Seq<u8>, from: u64, n: nat)
        requires
            self.wf(),
            self.fits(a),
            a.len() == b.len(),
            forall|j: int| HEADER_SIZE <= j < HEADER_SIZE + self.cap() ==> a[j] == b[j],
        ensures
            self.stream(a, from, n) == self.stream(b, from, n),
    {
        let cap = self.cap() as int;
        assert forall|i: int| 0 <= i < n implies self.stream(a, from, n)[i] == self.stream(
            b,
            from,
            n,
        )[i] by {
            lemma_mod_bound(from + i, cap);
        }
        assert(self.stream(a, from, n) =~= self.stream(b, from, n));
    }

    /// The bytes from `r` on, split at the position `d` bytes later.
    proof fn lemma_stream_split(&self, region: Seq<u8>, r: u64, d: nat, n: nat)
        requires
            self.wf(),
        ensures
            self.stream(region, r, d + n) == self.stream(region, r, d) + self.stream(
                region,
                advance(r, d),
                n,
            ),
    {
        let cap = self.cap() as int;
        lemma_advance_mod_cap(self, r, d);
        assert forall|i: int| 0 <= i < n implies self.stream(region, advance(r, d), n)[i]
            == self.stream(region, r, d + n)[d + i] by {
            lemma_add_mod_noop(advance(r, d) as int, i, cap);
            lemma_add_mod_noop(r + d, i, cap);
        }
        assert(self.stream(region, r, d + n) =~= self.stream(region, r, d) + self.stream(
            region,
            advance(r, d),
            n,
        ));
    }

    /// The bytes from `r` on without the first `n` of them.
    proof fn lemma_stream_skip(&self, region: Seq<u8>, r: u64, d: nat, n: nat)
        requires
            self.wf(),
            n <= d,
        ensures
            self.stream(region, advance(r, n), (d - n) as nat) == self.stream(region, r, d).skip(
                n as int,
            ),
    {
        self.lemma_stream_split(region, r, n, (d - n) as nat);
        assert(self.stream(region, r, d).skip(n as int) =~= self.stream(
            region,
            advance(r, n),
            (d - n) as nat,
        ));
    }

    /// Writing two byte strings one after the other is writing them joined.
    proof fn lemma_written_twice(&self, region: Seq<u8>, w: u64, a: Seq<u8>, b: Seq<u8>)
        requires
            self.wf(),
            self.fits(region),
            a.len() + b.len() <= self.cap(),
        ensures
            self.written(self.written(region, w, a), advance(w, a.len()), b) == self.written(
                region,
                w,
                a + b,
            ),
    {
        reveal(RingBuf::written);
        let cap = self.cap() as int;
        let v = advance(w, a.len());
        lemma_advance_mod_cap(self, w, a.len());
        let lhs = self.written(self.written(region, w, a), v, b);
        let rhs = self.written(region, w, a + b);
        assert forall|j: int| 0 <= j < region.len() implies lhs[j] == rhs[j] by {
            if HEADER_SIZE <= j < HEADER_SIZE + cap {
                let x = j - HEADER_SIZE;
                assert(j - HEADER_SIZE - w == x - w);
                assert(j - HEADER_SIZE - v == x - v);
                lemma_cell_distance(w as int, x, cap);
                lemma_cell_distance(v as int, x, cap);
                if a.len() < cap {
                    lemma_cell_ahead(w as int, a.len() as int, cap);
                } else {
                    lemma_mod_add_multiples_vanish(w as int, cap);
                }
            }
        }
        assert(lhs =~= rhs);
    }

    /// What was written at a position is found there.
    proof fn lemma_written_reads_back(&self, region: Seq<u8>, w: u64, data: Seq<u8>)
        requires
            self.wf(),
            self.fits(region),
            data.len() <= self.cap(),
        ensures
            self.stream(self.written(region, w, data), w, data.len()) == data,
    {
        reveal(RingBuf::written);
        let cap = self.cap() as int;
        let s = self.stream(self.written(region, w, data), w, data.len());
        assert forall|i: int| 0 <= i < data.len() implies s[i] == data[i] by {
            let x = (w + i) % cap;
            lemma_mod_bound(w + i, cap);
            lemma_cell_ahead(w as int, i, cap);
            lemma_cell_distance(w as int, x, cap);
            lemma_mod_bound(w as int, cap);
            assert(HEADER_SIZE + x - HEADER_SIZE - w == x - w);
        }
        assert(s =~= data);
    }

    /// A write changes the data ring only.
    proof fn lemma_written_spares_rest(&self, region: Seq<u8>, w: u64, data: Seq<u8>)
        requires
            self.fits(region),
        ensures
            self.written(region, w, data).len() == region.len(),
            forall|i: int|
                0 <= i < HEADER_SIZE || HEADER_SIZE + self.cap() <= i < region.len()
                    ==> self.written(region, w, data)[i] == region[i],
    {
        reveal(RingBuf::written);
    }

    /// A write into free space leaves the unread bytes as they are.
    proof fn lemma_written_spares_unread(&self, region: Seq<u8>, w: u64, r: u64, data: Seq<u8>)
        requires
            self.wf(),
            self.fits(region),
            distance(w, r) + data.len() <= self.cap(),
        ensures
            self.stream(self.written(region, w, data), r, distance(w, r)) == self.stream(
                region,
                r,
                distance(w, r),
            ),
    {
        reveal(RingBuf::written);
        let cap = self.cap() as int;
        let d = distance(w, r);
        lemma_advance_distance(w, r);
        lemma_advance_mod_cap(self, r, d);
        let s = self.stream(self.written(region, w, data), r, d);
        assert forall|i: int| 0 <= i < d implies s[i] == self.stream(region, r, d)[i] by {
            let x = (r + i) % cap;
            lemma_mod_bound(r + i, cap);
            lemma_mod_bound(r as int, cap);
            lemma_mod_bound(w as int, cap);
            lemma_cell_ahead(r as int, i, cap);
            lemma_cell_distance(w as int, x, cap);
            if d < cap {
                lemma_cell_ahead(r as int, d as int, cap);
            } else {
                lemma_mod_add_multiples_vanish(r as int, cap);
            }
            assert(HEADER_SIZE + x - HEADER_SIZE - w == x - w);
        }
        assert(s =~= self.stream(region, r, d));
    }
}

/// Advancing by the distance leads from the read to the write position.
proof fn lemma_advance_distance(w: u64, r: u64)
    ensures
        advance(r, distance(w, r)) == w,
{
}

/// Moving the write position forward by `n` makes the distance larger by `n`.
proof fn lemma_distance_advance(w: u64, r: u64, n: nat)
    requires
        distance(w, r) + n < 0x1_0000_0000_0000_0000,
    ensures
        distance(advance(w, n), r) == distance(w, r) + n,
{
}

/// Moving the read position forward by `n` makes the distance smaller by `n`.
proof fn lemma_distance_retreat(w: u64, r: u64, n: nat)
    requires
        n <= distance(w, r),
    ensures
        distance(w, advance(r, n)) == distance(w, r) - n,
{
}

/// A position that wrapped is still on the cell that it would be on had it not wrapped.
proof fn lemma_advance_mod_cap(ring: &RingBuf, pos: u64, n: nat)
    requires
        ring.wf(),
    ensures
        (advance(pos, n) as int) % (ring.cap() as int) == (pos + n) % (ring.cap() as int),
{
    let cap = ring.cap() as int;
    let k = choose|k: nat| ring.cap() == pow2(k);
    lemma2_to64_rest();
    if k >= 64 && k > 64 {
        lemma_pow2_strictly_increases(64, k);
    }
    lemma_pow2_adds(k, (64 - k) as nat);
    lemma_pow2_pos((64 - k) as nat);
    lemma_mod_mod(pos + n, cap, pow2((64 - k) as nat) as int);
}

/// Regions with equal headers have equal positions.
proof fn lemma_same_header(a: Seq<u8>, b: Seq<u8>)
    requires
        a.len() == b.len(),
        a.len() >= HEADER_SIZE,
        forall|i: int| 0 <= i < HEADER_SIZE ==> a[i] == b[i],
    ensures
        write_pos(a) == write_pos(b),
        read_pos(a) == read_pos(b),
{
}

/// The cell of the position `i` bytes after `pos`, by the cell of `pos`.
proof fn lemma_cell_ahead(pos: int, i: int, cap: int)
    requires
        0 < cap,
        0 <= i < cap,
    ensures
        (pos + i) % cap == if pos % cap + i < cap {
            pos % cap + i
        } else {
            pos % cap + i - cap
        },
{
    lemma_fundamental_div_mod(pos, cap);
    let q = pos / cap;
    let off = pos % cap;
    if off + i < cap {
        assert(pos + i == q * cap + (off + i)) by (nonlinear_arith)
            requires
                pos == cap * q + off,
        ;
        lemma_fundamental_div_mod_converse(pos + i, cap, q, off + i);
    } else {
        assert(pos + i == (q + 1) * cap + (off + i - cap)) by (nonlinear_arith)
            requires
                pos == cap * q + off,
        ;
        lemma_fundamental_div_mod_converse(pos + i, cap, q + 1, off + i - cap);
    }
}

/// How far cell `x` is ahead of position `pos` round the ring, by the cell of `pos`.
proof fn lemma_cell_distance(pos: int, x: int, cap: int)
    requires
        0 < cap,
        0 <= x < cap,
    ensures
        (x - pos) % cap == if x >= pos % cap {
            x - pos % cap
        } else {
            x - pos % cap + cap
        },
{
    lemma_fundamental_div_mod(pos, cap);
    let q = pos / cap;
    let off = pos % cap;
    if x >= off {
        assert(x - pos == (-q) * cap + (x - off)) by (nonlinear_arith)
            requires
                pos == cap * q + off,
        ;
        lemma_fundamental_div_mod_converse(x - pos, cap, -q, x - off);
    } else {
        assert(x - pos == (-q - 1) * cap + (x - off + cap)) by (nonlinear_arith)
            requires
                pos == cap * q + off,
        ;
        lemma_fundamental_div_mod_converse(x - pos, cap, -q - 1, x - off + cap);
    }
}

/// Rounding down keeps more than half: the capacity is a power of two, it fits,
/// and twice as much would not fit.
pub proof fn law_floor_pow2(n: nat)
    requires
        n >= 1,
    ensures
        is_power_of_two(floor_pow2(n)),
        floor_pow2(n) <= n < 2 * floor_pow2(n),
    decreases n,
{
    if n <= 1 {
        lemma2_to64();
        assert(floor_pow2(n) == pow2(0));
    } else {
        law_floor_pow2(n / 2);
        let k = choose|k: nat| floor_pow2(n / 2) == pow2(k);
        lemma_pow2_unfold(k + 1);
        assert(floor_pow2(n) == pow2(k + 1));
    }
}

/// A power of two in a machine word leaves room for the header above it.
pub proof fn lemma_power_leaves_room(power: usize)
    requires
        is_power_of_two(power as nat),
    ensures
        power + HEADER_SIZE <= usize::MAX,
{
    let k = choose|k: nat| power == pow2(k);
    lemma2_to64();
    lemma2_to64_rest();
    let bits = usize::BITS as nat;
    if k >= bits {
        if k > bits {
            lemma_pow2_strictly_increases(bits, k);
        }
    } else if k < bits - 1 {
        lemma_pow2_strictly_increases(k, (bits - 1) as nat);
    }
}

/// A power of two is not rounded.
pub proof fn law_power_of_two_is_kept(n: nat)
    requires
        is_power_of_two(n),
    ensures
        floor_pow2(n) == n,
{
    let k = choose|k: nat| n == pow2(k);
    lemma_floor_of_power(k);
}

proof fn lemma_floor_of_power(k: nat)
    ensures
        floor_pow2(pow2(k)) == pow2(k),
    decreases k,
{
    if k == 0 {
        lemma2_to64();
    } else {
        lemma_pow2_unfold(k);
        lemma_pow2_pos((k - 1) as nat);
        lemma_floor_of_power((k - 1) as nat);
    }
}

/// Two rings of one capacity are the same ring: what one end of a region writes, the
/// other end finds.
pub proof fn law_ring_by_capacity(a: RingBuf, b: RingBuf)
    requires
        a.wf(),
        b.wf(),
        a.cap() == b.cap(),
    ensures
        a == b,
{
}

/// The bytes of a list of messages and one more are the bytes of the list, then those
/// of the one more.
pub proof fn law_flat_push(messages: Seq<Seq<u8>>, message: Seq<u8>)
    ensures
        flat(messages.push(message)) == flat(messages) + framed(message),
    decreases messages.len(),
{
    if messages.len() == 0 {
        assert(messages.push(message).drop_first() =~= Seq::<Seq<u8>>::empty());
        assert(flat(Seq::<Seq<u8>>::empty()) =~= Seq::<u8>::empty());
        assert(flat(messages.push(message)) =~= flat(messages) + framed(message));
    } else {
        law_flat_push(messages.drop_first(), message);
        assert(messages.push(message).drop_first() =~= messages.drop_first().push(message));
        assert(flat(messages.push(message)) =~= flat(messages) + framed(message));
    }
}

/// The front of the bytes of a list of messages is its first message, and what follows
/// are the bytes of the others. The length prefix has four bytes, so this speaks of a
/// first message shorter than 2^32 bytes.
pub proof fn law_flat_first(messages: Seq<Seq<u8>>)
    requires
        messages.len() > 0,
        messages[0].len() < 0x1_0000_0000,
    ensures
        first_message(flat(messages)) == Some(messages[0]),
        flat(messages).skip(4 + messages[0].len() as int) == flat(messages.drop_first()),
{
    let m = messages[0];
    let rest = flat(messages.drop_first());
    let len = wire::low32(m.len());
    assert(flat(messages) =~= wire::le32(len) + (m + rest));
    wire::law_u32_round_trip(len, m + rest);
    assert(flat(messages).subrange(4, 4 + len) =~= m);
    assert(flat(messages).skip(4 + m.len() as int) =~= rest);
}

/// First in, first out, the producer's half: a push that succeeds puts its message
/// behind those that the ring held.
pub proof fn law_push_appends(
    ring: RingBuf,
    before: Seq<u8>,
    after: Seq<u8>,
    messages: Seq<Seq<u8>>,
    message: Seq<u8>,
)
    requires
        ring.holds(before, messages),
        ring.appended(before, after, message),
    ensures
        ring.holds(after, messages.push(message)),
{
    law_flat_push(messages, message);
}

/// First in, first out, the consumer's half: while the ring holds a message, a pop
/// finds the oldest one, and once it was taken the ring holds the others.
pub proof fn law_pop_takes_oldest(
    ring: RingBuf,
    before: Seq<u8>,
    after: Seq<u8>,
    messages: Seq<Seq<u8>>,
)
    requires
        ring.holds(before, messages),
        messages.len() > 0,
        messages[0].len() < 0x1_0000_0000,
    ensures
        first_message(ring.unread(before)) == Some(messages[0]),
        ring.taken(before, after, messages[0]) ==> ring.holds(after, messages.drop_first()),
{
    law_flat_first(messages);
}

/// Whether the regions are those of a ring before and after each of a list of pushes.
pub open spec fn pushed_one_by_one(
    ring: RingBuf,
    regions: Seq<Seq<u8>>,
    messages: Seq<Seq<u8>>,
) -> bool {
    &&& regions.len() == messages.len() + 1
    &&& forall|i: int|
        0 <= i < messages.len() ==> ring.appended(
            regions[i],
            regions[i + 1],
            #[trigger] messages[i],
        )
}

/// Whether the regions are those of a ring before and after each of a list of pops that
/// found the given messages.
pub open spec fn popped_one_by_one(
    ring: RingBuf,
    regions: Seq<Seq<u8>>,
    messages: Seq<Seq<u8>>,
) -> bool {
    &&& regions.len() == messages.len() + 1
    &&& forall|i: int|
        0 <= i < messages.len() ==> first_message(ring.unread(regions[i])) == Some(
            #[trigger] messages[i],
        ) && ring.taken(regions[i], regions[i + 1], messages[i])
}

/// Messages that are pushed one after the other are held in that order, behind those that
/// the ring held before.
pub proof fn law_pushes_queue_up(
    ring: RingBuf,
    regions: Seq<Seq<u8>>,
    held: Seq<Seq<u8>>,
    messages: Seq<Seq<u8>>,
)
    requires
        pushed_one_by_one(ring, regions, messages),
        ring.holds(regions[0], held),
    ensures
        ring.holds(regions.last(), held + messages),
    decreases messages.len(),
{
    if messages.len() == 0 {
        assert(held + messages =~= held);
    } else {
        let n = messages.len() - 1;
        let earlier = regions.drop_last();
        let others = messages.drop_last();
        assert forall|i: int| 0 <= i < n implies ring.appended(
            earlier[i],
            earlier[i + 1],
            #[trigger] others[i],
        ) by {
            assert(others[i] == messages[i]);
        }
        law_pushes_queue_up(ring, earlier, held, others);
        assert(earlier.last() == regions[n]);
        assert(ring.appended(regions[n], regions[n + 1], messages[n]));
        law_push_appends(ring, regions[n], regions[n + 1], held + others, messages[n]);
        assert((held + others).push(messages[n]) =~= held + messages);
    }
}

/// As many pops as the ring holds messages find exactly those messages, byte for byte and in
/// their order, and leave the ring empty. This speaks of messages shorter than 2^32 bytes.
pub proof fn law_pops_drain(
    ring: RingBuf,
    regions: Seq<Seq<u8>>,
    held: Seq<Seq<u8>>,
    found: Seq<Seq<u8>>,
)
    requires
        popped_one_by_one(ring, regions, found),
        ring.holds(regions[0], held),
        found.len() == held.len(),
        forall|i: int| 0 <= i < held.len() ==> (#[trigger] held[i]).len() < 0x1_0000_0000,
    ensures
        found == held,
        ring.holds(regions.last(), Seq::empty()),
{
    assert forall|i: int| 0 <= i < found.len() implies pop_found(
        ring,
        regions[i],
        regions[i + 1],
        #[trigger] found[i],
    ) by {
        reveal(pop_found);
    }
    assert(queue_is(ring, regions[0], held)) by {
        reveal(queue_is);
    }
    lemma_drain(ring, regions, held, found);
    reveal(queue_is);
}

/// `holds`, for proofs that do not look into it.
#[verifier::opaque]
spec fn queue_is(ring: RingBuf, region: Seq<u8>, messages: Seq<Seq<u8>>) -> bool {
    ring.holds(region, messages)
}

/// One pop that found a message, for proofs that do not look into it.
#[verifier::opaque]
spec fn pop_found(ring: RingBuf, before: Seq<u8>, after: Seq<u8>, message: Seq<u8>) -> bool {
    &&& first_message(ring.unread(before)) == Some(message)
    &&& ring.taken(before, after, message)
}

/// One pop finds the front of the queue and leaves the rest.
proof fn lemma_pop_found(
    ring: RingBuf,
    before: Seq<u8>,
    after: Seq<u8>,
    held: Seq<Seq<u8>>,
    message: Seq<u8>,
)
    requires
        queue_is(ring, before, held),
        pop_found(ring, before, after, message),
        held.len() > 0,
        held[0].len() < 0x1_0000_0000,
    ensures
        message == held[0],
        queue_is(ring, after, held.drop_first()),
{
    reveal(queue_is);
    reveal(pop_found);
    law_pop_takes_oldest(ring, before, after, held);
}

proof fn lemma_drain(
    ring: RingBuf,
    regions: Seq<Seq<u8>>,
    held: Seq<Seq<u8>>,
    found: Seq<Seq<u8>>,
)
    requires
        regions.len() == found.len() + 1,
        found.len() == held.len(),
        queue_is(ring, regions[0], held),
        forall|i: int|
            0 <= i < found.len() ==> pop_found(
                ring,
                regions[i],
                regions[i + 1],
                #[trigger] found[i],
            ),
        forall|i: int| 0 <= i < held.len() ==> (#[trigger] held[i]).len() < 0x1_0000_0000,
    ensures
        found == held,
        queue_is(ring, regions.last(), Seq::empty()),
    decreases held.len(),
{
    if held.len() == 0 {
        assert(found =~= held);
        assert(held =~= Seq::empty());
    } else {
        let later = regions.drop_first();
        let rest = found.drop_first();
        let others = held.drop_first();
        assert(pop_found(ring, regions[0], regions[1], found[0]));
        lemma_pop_found(ring, regions[0], regions[1], held, found[0]);
        assert forall|i: int| 0 <= i < rest.len() implies pop_found(
            ring,
            later[i],
            later[i + 1],
            #[trigger] rest[i],
        ) by {
            assert(rest[i] == found[i + 1]);
        }
        assert forall|i: int| 0 <= i < others.len() implies (#[trigger] others[i]).len()
            < 0x1_0000_0000 by {
            assert(others[i] == held[i + 1]);
        }
        lemma_drain(ring, later, others, rest);
        assert(found =~= seq![found[0]] + rest);
        assert(held =~= seq![held[0]] + others);
    }
}

/// What is done to a ring: a push of a message, or a pop that found one.
pub enum RingOp {
    Push(Seq<u8>),
    Pop(Seq<u8>),
}

/// The messages that were pushed, in order.
pub open spec fn pushed(ops: Seq<RingOp>) -> Seq<Seq<u8>>
    decreases ops.len(),
{
    if ops.len() == 0 {
        Seq::empty()
    } else {
        match ops.last() {
            RingOp::Push(m) => pushed(ops.drop_last()).push(m),
            RingOp::Pop(_) => pushed(ops.drop_last()),
        }
    }
}

/// The messages that were popped, in order.
pub open spec fn popped(ops: Seq<RingOp>) -> Seq<Seq<u8>>
    decreases ops.len(),
{
    if ops.len() == 0 {
        Seq::empty()
    } else {
        match ops.last() {
            RingOp::Push(_) => popped(ops.drop_last()),
            RingOp::Pop(m) => popped(ops.drop_last()).push(m),
        }
    }
}

/// Whether `after` is the region that an operation makes of `before`.
pub open spec fn performed_one(ring: RingBuf, before: Seq<u8>, after: Seq<u8>, op: RingOp) -> bool {
    match op {
        RingOp::Push(m) => ring.appended(before, after, m),
        RingOp::Pop(m) => first_message(ring.unread(before)) == Some(m) && ring.taken(
            before,
            after,
            m,
        ),
    }
}

/// Whether the regions are those of a ring before and after each of a list of operations.
pub open spec fn performed(ring: RingBuf, regions: Seq<Seq<u8>>, ops: Seq<RingOp>) -> bool {
    &&& regions.len() == ops.len() + 1
    &&& forall|i: int|
        0 <= i < ops.len() ==> performed_one(ring, regions[i], regions[i + 1], #[trigger] ops[i])
}

/// Whatever the order of pushes and pops, a ring that was empty has given out the first of
/// the messages that were pushed, byte for byte and in order, and holds the others; its free
/// space is what these leave of its capacity. This speaks of messages shorter than 2^32 bytes.
pub proof fn law_any_interleaving(ring: RingBuf, regions: Seq<Seq<u8>>, ops: Seq<RingOp>)
    requires
        performed(ring, regions, ops),
        ring.holds(regions[0], Seq::empty()),
        forall|i: int|
            0 <= i < pushed(ops).len() ==> (#[trigger] pushed(ops)[i]).len() < 0x1_0000_0000,
    ensures
        popped(ops).len() <= pushed(ops).len(),
        popped(ops) == pushed(ops).take(popped(ops).len() as int),
        ring.holds(regions.last(), pushed(ops).skip(popped(ops).len() as int)),
        ring.unread(regions.last()).len() == flat_size(
            pushed(ops).skip(popped(ops).len() as int),
        ),
        flat_size(pushed(ops).skip(popped(ops).len() as int)) <= ring.cap(),
{
    assert forall|i: int| 0 <= i < ops.len() implies op_done(
        ring,
        regions[i],
        regions[i + 1],
        #[trigger] ops[i],
    ) by {
        reveal(op_done);
    }
    assert(queue_is(ring, regions[0], Seq::empty())) by {
        reveal(queue_is);
    }
    lemma_interleaving(ring, regions, ops);
    assert(ring.holds(regions.last(), pushed(ops).skip(popped(ops).len() as int))) by {
        reveal(queue_is);
    }
    law_free_space(ring, regions.last(), pushed(ops).skip(popped(ops).len() as int));
}

/// `performed_one`, for proofs that do not look into it.
#[verifier::opaque]
spec fn op_done(ring: RingBuf, before: Seq<u8>, after: Seq<u8>, op: RingOp) -> bool {
    performed_one(ring, before, after, op)
}

/// One operation on a queue: a push puts its message at the end, and a pop is of the front.
proof fn lemma_op_done(
    ring: RingBuf,
    before: Seq<u8>,
    after: Seq<u8>,
    held: Seq<Seq<u8>>,
    op: RingOp,
)
    requires
        queue_is(ring, before, held),
        op_done(ring, before, after, op),
        held.len() > 0 ==> held[0].len() < 0x1_0000_0000,
    ensures
        match op {
            RingOp::Push(m) => queue_is(ring, after, held.push(m)),
            RingOp::Pop(m) => held.len() > 0 && m == held[0] && queue_is(
                ring,
                after,
                held.drop_first(),
            ),
        },
{
    reveal(queue_is);
    reveal(op_done);
    match op {
        RingOp::Push(m) => {
            law_push_appends(ring, before, after, held, m);
        },
        RingOp::Pop(m) => {
            if held.len() == 0 {
                assert(held =~= Seq::empty());
                law_pop_of_empty(ring, before);
            } else {
                law_pop_takes_oldest(ring, before, after, held);
            }
        },
    }
}

proof fn lemma_interleaving(ring: RingBuf, regions: Seq<Seq<u8>>, ops: Seq<RingOp>)
    requires
        regions.len() == ops.len() + 1,
        queue_is(ring, regions[0], Seq::empty()),
        forall|i: int|
            0 <= i < ops.len() ==> op_done(ring, regions[i], regions[i + 1], #[trigger] ops[i]),
        forall|i: int|
            0 <= i < pushed(ops).len() ==> (#[trigger] pushed(ops)[i]).len() < 0x1_0000_0000,
    ensures
        popped(ops).len() <= pushed(ops).len(),
        popped(ops) == pushed(ops).take(popped(ops).len() as int),
        queue_is(ring, regions.last(), pushed(ops).skip(popped(ops).len() as int)),
    decreases ops.len(),
{
    if ops.len() == 0 {
        assert(popped(ops) =~= pushed(ops).take(0));
        assert(pushed(ops).skip(0) =~= Seq::empty());
    } else {
        let n = ops.len() - 1;
        let earlier = ops.drop_last();
        let until = regions.drop_last();
        let op = ops[n];
        let ins = pushed(earlier);
        let outs = popped(earlier);
        assert forall|i: int| 0 <= i < earlier.len() implies op_done(
            ring,
            until[i],
            until[i + 1],
            #[trigger] earlier[i],
        ) by {
            assert(earlier[i] == ops[i]);
        }
        assert forall|i: int| 0 <= i < ins.len() implies (#[trigger] ins[i]).len()
            < 0x1_0000_0000 by {
            assert(pushed(ops)[i] == ins[i]);
        }
        lemma_interleaving(ring, until, earlier);
        let held = ins.skip(outs.len() as int);
        if held.len() > 0 {
            assert(held[0] == ins[outs.len() as int]);
        }
        assert(op_done(ring, regions[n], regions[n + 1], op));
        lemma_op_done(ring, regions[n], regions[n + 1], held, op);
        match op {
            RingOp::Push(m) => {
                assert(ins.push(m).take(outs.len() as int) =~= outs);
                assert(ins.push(m).skip(outs.len() as int) =~= held.push(m));
            },
            RingOp::Pop(m) => {
                assert(ins.take(outs.len() as int + 1) =~= outs.push(m));
                assert(ins.skip(outs.len() as int + 1) =~= held.drop_first());
            },
        }
    }
}

/// A pop finds nothing in a ring that holds no message.
pub proof fn law_pop_of_empty(ring: RingBuf, region: Seq<u8>)
    requires
        ring.holds(region, Seq::empty()),
    ensures
        ring.unread(region).len() == 0,
        first_message(ring.unread(region)) is None,
{
}

/// The bytes that a list of messages takes in a ring: four more than each message has.
pub open spec fn flat_size(messages: Seq<Seq<u8>>) -> nat
    decreases messages.len(),
{
    if messages.len() == 0 {
        0
    } else {
        4 + messages[0].len() + flat_size(messages.drop_first())
    }
}

/// The free space of a ring is its capacity less four bytes and the payload of each
/// message it holds; it is never negative.
pub proof fn law_free_space(ring: RingBuf, region: Seq<u8>, messages: Seq<Seq<u8>>)
    requires
        ring.holds(region, messages),
    ensures
        ring.unread(region).len() == flat_size(messages),
        flat_size(messages) <= ring.cap(),
{
    lemma_flat_len(messages);
}

proof fn lemma_flat_len(messages: Seq<Seq<u8>>)
    ensures
        flat(messages).len() == flat_size(messages),
    decreases messages.len(),
{
    if messages.len() > 0 {
        lemma_flat_len(messages.drop_first());
    }
}

/// A producer may use a read position `seen` that the consumer has moved on from by
/// `moved` bytes: a write that spares the bytes from `seen` on spares what is really unread.
pub proof fn law_stale_read_position(
    ring: RingBuf,
    before: Seq<u8>,
    after: Seq<u8>,
    w: u64,
    seen: u64,
    moved: nat,
)
    requires
        ring.wf(),
        moved <= distance(w, seen),
        ring.stream(after, seen, distance(w, seen)) == ring.stream(
            before,
            seen,
            distance(w, seen),
        ),
    ensures
        distance(w, advance(seen, moved)) == distance(w, seen) - moved,
        ring.stream(after, advance(seen, moved), distance(w, advance(seen, moved))) == ring.stream(
            before,
            advance(seen, moved),
            distance(w, advance(seen, moved)),
        ),
{
    let d = distance(w, seen);
    lemma_distance_retreat(w, seen, moved);
    ring.lemma_stream_skip(before, seen, d, moved);
    ring.lemma_stream_skip(after, seen, d, moved);
}

/// A consumer may use a write position that the producer has moved on from: a message
/// that is there in full among the bytes seen is the message at the front of all of them.
pub proof fn law_stale_write_position(bytes: Seq<u8>, seen: nat)
    requires
        seen <= bytes.len(),
        first_message(bytes.take(seen as int)) is Some,
    ensures
        first_message(bytes) == first_message(bytes.take(seen as int)),
{
    let front = bytes.take(seen as int);
    assert(wire::from_le32(front) == wire::from_le32(bytes));
    let n = wire::from_le32(bytes);
    assert(front.subrange(4, 4 + n) =~= bytes.subrange(4, 4 + n));
}

// ─── What a ring is ──────────────────────────────────────────────────────────

/// A message is at the front of some bytes exactly if they start with its length in four
/// bytes, least significant first, and then its bytes.
pub proof fn law_message_at_front(bytes: Seq<u8>, message: Seq<u8>)
    ensures
        first_message(bytes) == Some(message) <==> {
            &&& bytes.len() >= 4 + message.len()
            &&& message.len() == bytes[0] + 0x100 * bytes[1] + 0x1_0000 * bytes[2] + 0x100_0000
                * bytes[3]
            &&& bytes.subrange(4, 4 + message.len() as int) == message
        },
        first_message(bytes) == Some(message) ==> bytes == framed(message) + bytes.skip(
            4 + message.len() as int,
        ),
{
    if bytes.len() >= 4 {
        wire::law_four_bytes(0, bytes);
        if first_message(bytes) == Some(message) {
            let n = wire::from_le32(bytes);
            assert(message.len() == n);
            wire::law_four_bytes(n, bytes);
            assert(wire::low32(message.len()) == n);
            lemma_le32_of(bytes);
            assert(bytes =~= framed(message) + bytes.skip(4 + message.len() as int));
        }
    }
}

/// The bytes of the number that four bytes denote are those four.
proof fn lemma_le32_of(bytes: Seq<u8>)
    requires
        bytes.len() >= 4,
    ensures
        wire::le32(wire::from_le32(bytes)) == bytes.take(4),
{
    let (a, b, c, d) = (bytes[0] as int, bytes[1] as int, bytes[2] as int, bytes[3] as int);
    let n = wire::from_le32(bytes) as int;
    assert(n == a + 256 * b + 65536 * c + 16777216 * d);
    assert(n % 256 == a && n / 256 == b + 256 * c + 65536 * d);
    assert(n / 256 % 256 == b);
    assert(n / 65536 == c + 256 * d);
    assert(n / 65536 % 256 == c);
    assert(n / 16777216 == d);
    assert(wire::le32(n as u32) =~= bytes.take(4));
}

/// No message is at the front of some bytes exactly if the length prefix or a part of what it
/// announces is missing.
pub proof fn law_no_message_at_front(bytes: Seq<u8>)
    ensures
        first_message(bytes) is None <==> (bytes.len() < 4 || bytes.len() < 4 + bytes[0] + 0x100
            * bytes[1] + 0x1_0000 * bytes[2] + 0x100_0000 * bytes[3]),
{
    if bytes.len() >= 4 {
        wire::law_four_bytes(0, bytes);
    }
}

/// A message in a ring is its length in four bytes, least significant first, and its bytes.
pub proof fn law_framed(message: Seq<u8>)
    ensures
        framed(message).len() == 4 + message.len(),
        framed(message).skip(4) == message,
        message.len() < 0x1_0000_0000 ==> message.len() == framed(message)[0] + 0x100 * framed(
            message,
        )[1] + 0x1_0000 * framed(message)[2] + 0x100_0000 * framed(message)[3],
{
    let n = wire::low32(message.len());
    wire::law_four_bytes(n, seq![0u8, 0u8, 0u8, 0u8]);
    let f = framed(message);
    assert(f[0] == wire::le32(n)[0] && f[1] == wire::le32(n)[1] && f[2] == wire::le32(n)[2] && f[3]
        == wire::le32(n)[3]);
    assert(f.skip(4) =~= message);
}

/// A push finds room exactly if four bytes more than the message has are at most the capacity
/// less what is unread. So a ring that holds nothing takes every message of up to four bytes
/// less than its capacity, and one that holds messages takes exactly what they leave.
pub proof fn law_push_succeeds_when_it_fits(
    ring: RingBuf,
    region: Seq<u8>,
    messages: Seq<Seq<u8>>,
    len: nat,
)
    ensures
        ring.has_room(region, len) <==> 4 + len + ring.unread(region).len() <= ring.cap(),
        ring.holds(region, Seq::empty()) ==> (ring.has_room(region, len) <==> len + 4
            <= ring.cap()),
        ring.holds(region, messages) ==> (ring.has_room(region, len) <==> len + 4 + flat(
            messages,
        ).len() <= ring.cap()),
{
}

/// The bytes that messages take in a ring: four more than each has.
pub proof fn law_space_of_messages(messages: Seq<Seq<u8>>, message: Seq<u8>)
    ensures
        flat(Seq::empty()).len() == 0,
        flat(messages.push(message)).len() == flat(messages).len() + 4 + message.len(),
        flat(messages.push(message)).skip(flat(messages).len() as int + 4) == message,
{
    law_flat_push(messages, message);
    law_framed(message);
    let f = flat(messages);
    assert((f + framed(message)).skip(f.len() as int + 4) =~= framed(message).skip(4));
}

/// A position is ahead of another by a number of bytes exactly if that many steps lead from
/// the other to it, where the step after 2^64 - 1 leads to 0.
pub proof fn law_positions(r: u64, w: u64, n: nat)
    ensures
        advance(r, 0) == r,
        advance(r, n + 1) == if advance(r, n) == u64::MAX {
            0
        } else {
            (advance(r, n) + 1) as u64
        },
        distance(w, r) < 0x1_0000_0000_0000_0000,
        advance(r, distance(w, r)) == w,
        n < 0x1_0000_0000_0000_0000 ==> distance(advance(r, n), r) == n,
{
}

/// Where things are in a region: the write position in bytes 0 to 8, the read position in
/// bytes 64 to 72, both least significant byte first, and unread byte `i` in cell
/// `read position + i`, modulo the capacity, of the data ring that starts at byte 128.
pub proof fn law_region_layout(ring: RingBuf, region: Seq<u8>, i: int)
    requires
        region.len() >= 128,
    ensures
        write_pos(region) == region[0] + 0x100 * region[1] + 0x1_0000 * region[2] + 0x100_0000
            * region[3] + 0x1_0000_0000 * region[4] + 0x100_0000_0000 * region[5]
            + 0x1_0000_0000_0000 * region[6] + 0x100_0000_0000_0000 * region[7],
        read_pos(region) == region[64] + 0x100 * region[65] + 0x1_0000 * region[66] + 0x100_0000
            * region[67] + 0x1_0000_0000 * region[68] + 0x100_0000_0000 * region[69]
            + 0x1_0000_0000_0000 * region[70] + 0x100_0000_0000_0000 * region[71],
        ring.unread(region).len() == distance(write_pos(region), read_pos(region)),
        0 <= i < ring.unread(region).len() ==> ring.unread(region)[i] == region[128 + (read_pos(
            region,
        ) + i) % (ring.cap() as int)],
{
    wire::law_eight_bytes(0, region);
    wire::law_eight_bytes(0, region.skip(64));
}

/// The bytes from a position on are those in the cells that follow its own, round and round.
pub proof fn law_bytes_from_a_position(ring: RingBuf, region: Seq<u8>, from: u64, n: nat, i: int)
    ensures
        ring.stream(region, from, n).len() == n,
        0 <= i < n ==> ring.stream(region, from, n)[i] == region[128 + (from + i) % (
        ring.cap() as int)],
{
}

/// A ring works in every region that has room for its header and its cells, as long as no more
/// bytes are unread than it has cells, and it holds messages exactly if the unread bytes are
/// theirs.
pub proof fn law_consistent_regions(ring: RingBuf, region: Seq<u8>, messages: Seq<Seq<u8>>)
    ensures
        ring.fits(region) <==> 128 + ring.cap() <= region.len(),
        ring.consistent(region) <==> 128 + ring.cap() <= region.len() && distance(
            write_pos(region),
            read_pos(region),
        ) <= ring.cap(),
        ring.holds(region, messages) <==> ring.consistent(region) && ring.unread(region) == flat(
            messages,
        ),
        ring.wf() <==> 2 <= ring.cap() <= usize::MAX && (exists|k: nat|
            ring.cap() == #[trigger] pow2(k)) && ring.bit_mask() == ring.cap() - 1,
{
}

/// What a push and a pop change: the unread bytes grow by the message at their end or lose it
/// at their front, the position of the other side stays, and so does every byte that is neither
/// a position of this side nor a cell that it may write.
pub proof fn law_changes(ring: RingBuf, before: Seq<u8>, after: Seq<u8>, message: Seq<u8>, i: int)
    ensures
        ring.appended(before, after, message) ==> {
            &&& after.len() == before.len()
            &&& ring.unread(after) == ring.unread(before) + framed(message)
            &&& read_pos(after) == read_pos(before)
            &&& write_pos(after) == advance(write_pos(before), 4 + message.len())
            &&& ring.consistent(after)
            &&& 8 <= i < 128 || 128 + ring.cap() <= i < before.len() ==> after[i] == before[i]
        },
        ring.taken(before, after, message) ==> {
            &&& after.len() == before.len()
            &&& ring.unread(after) == ring.unread(before).skip(4 + message.len() as int)
            &&& write_pos(after) == write_pos(before)
            &&& read_pos(after) == advance(read_pos(before), 4 + message.len())
            &&& ring.consistent(after)
            &&& 0 <= i < 64 || 72 <= i < before.len() ==> after[i] == before[i]
        },
{
}

// ─── What the operations do ──────────────────────────────────────────────────

/// A push succeeds exactly if the message and its length fit beside what is unread, so a ring that
/// holds nothing takes every message up to four bytes below its capacity. A message that was pushed
/// comes after the others, and a push that fails changes nothing.
pub proof fn law_push(
    ring: RingBuf,
    region: &mut [u8],
    data: &[u8],
    done: bool,
    messages: Seq<Seq<u8>>,
)
    requires
        call_ensures(RingBuf::push, (&ring, region, data), done),
        ring.wf(),
        ring.holds(old(region)@, messages),
    ensures
        done <==> flat_size(messages) + 4 + data@.len() <= ring.cap(),
        messages.len() == 0 && data@.len() + 4 <= ring.cap() ==> done,
        done ==> ring.holds(final(region)@, messages.push(data@)),
        !done ==> final(region)@ == old(region)@,
{
    law_free_space(ring, old(region)@, messages);
    law_flat_push(messages, data@);
}

/// A pop gives the oldest message and leaves the others, in their order; it gives nothing and
/// changes nothing where the ring holds no message. This speaks of messages shorter than 2^32 bytes.
pub proof fn law_pop(
    ring: RingBuf,
    region: &mut [u8],
    buf: &mut Vec<u8>,
    done: bool,
    messages: Seq<Seq<u8>>,
)
    requires
        call_ensures(RingBuf::pop, (&ring, region, buf), done),
        ring.wf(),
        ring.holds(old(region)@, messages),
        messages.len() > 0 ==> messages[0].len() < 0x1_0000_0000,
    ensures
        done <==> messages.len() > 0,
        done ==> final(buf)@ == messages[0],
        done ==> ring.holds(final(region)@, messages.drop_first()),
        !done ==> final(region)@ == old(region)@ && final(buf)@ == old(buf)@,
{
    if messages.len() > 0 {
        law_pop_takes_oldest(ring, old(region)@, final(region)@, messages);
    } else {
        assert(messages =~= Seq::empty());
        law_pop_of_empty(ring, old(region)@);
    }
}

/// A new ring takes the largest power of two that fits behind the 128 bytes of the header, and
/// holds nothing once it was initialized. What can be read and what is free add up to the capacity.
pub proof fn law_new_ring(
    total_size: usize,
    ring: RingBuf,
    region: &mut [u8],
    capacity: usize,
    readable: usize,
    free: usize,
)
    requires
        call_ensures(RingBuf::new, (total_size,), ring),
        call_ensures(RingBuf::capacity, (&ring,), capacity),
        call_ensures(RingBuf::init, (&ring, region), ()),
        call_ensures(RingBuf::available, (&ring, &*final(region)), readable),
        call_ensures(RingBuf::free_space, (&ring, &*final(region)), free),
        total_size >= 130,
    ensures
        is_power_of_two(capacity as nat),
        capacity + 128 <= total_size < 2 * capacity + 128,
        ring.holds(final(region)@, Seq::empty()),
        readable == 0,
        free == capacity,
{
    law_pop_of_empty(ring, final(region)@);
}

/// A push between positions that were loaded before succeeds exactly if the message and its length
/// fit beside what is between them. The bytes between them stay, the message follows them, and
/// nothing outside the data of the ring changes.
pub proof fn law_push_between(
    ring: RingBuf,
    region: &mut [u8],
    w: u64,
    r: u64,
    data: &[u8],
    new_w: Option<u64>,
    i: int,
)
    requires
        call_ensures(RingBuf::push_between, (&ring, region, w, r, data), new_w),
    ensures
        new_w is Some <==> distance(w, r) + 4 + data@.len() <= ring.cap(),
        new_w matches Some(n) ==> n == (w + 4 + data@.len()) % 0x1_0000_0000_0000_0000,
        new_w is None ==> final(region)@ == old(region)@,
        new_w is Some ==> ring.stream(final(region)@, w, 4 + data@.len()) == framed(data@),
        ring.stream(final(region)@, r, distance(w, r)) == ring.stream(
            old(region)@,
            r,
            distance(w, r),
        ),
        final(region)@.len() == old(region)@.len(),
        0 <= i < 128 || 128 + ring.cap() <= i < old(region)@.len() ==> final(region)@[i]
            == old(region)@[i],
{
}

/// A pop between positions that were loaded before gives the message at the front of what is
/// between them, if it is there in full.
pub proof fn law_pop_between(
    ring: RingBuf,
    region: &[u8],
    w: u64,
    r: u64,
    buf: &mut Vec<u8>,
    new_r: Option<u64>,
    message: Seq<u8>,
    rest: Seq<u8>,
)
    requires
        call_ensures(RingBuf::pop_between, (&ring, region, w, r, buf), new_r),
        message.len() < 0x1_0000_0000,
    ensures
        ring.stream(region@, r, distance(w, r)) == framed(message) + rest ==> {
            &&& new_r matches Some(n)
            &&& n == (r + 4 + message.len()) % 0x1_0000_0000_0000_0000
            &&& final(buf)@ == message
        },
        distance(w, r) < 4 ==> new_r is None && final(buf)@ == old(buf)@,
{
    let bytes = ring.stream(region@, r, distance(w, r));
    assert(bytes.len() == distance(w, r));
    if bytes == framed(message) + rest {
        law_framed(message);
        law_message_at_front(bytes, message);
        assert(bytes.subrange(4, 4 + message.len() as int) =~= framed(message).skip(4));
    }
    law_no_message_at_front(bytes);
}

} // verus!
