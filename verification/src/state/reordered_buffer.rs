use crate::state::ring_buffer::{
    counter_modulus, ring_read, ring_written, RingBuffer, StateError,
};
use vstd::arithmetic::power2::{lemma2_to64, lemma_pow2_unfold, pow2};
use vstd::prelude::*;

verus! {

/// The number at which a sequence number wraps round to zero.
pub open spec fn seq_modulus() -> int {
    0x1_0000_0000
}

/// Results from inserting into `ReorderedBuffer`
#[derive(Debug, Clone, Copy, PartialEq, Eq, Structural)]
pub enum InsertionResult {
    /// Successfully inserted all the data (`written` should always be the same as the length of the input).
    Inserted { written: usize, available: usize },
    /// Inserted some of the data (recorded in `written`) but the buffer is out of space.
    OutOfMemory { written: usize, available: usize },
}

/// Where a connection's byte stream stands.
#[derive(Debug, Clone, Copy, PartialEq, Eq, Structural)]
pub enum State {
    /// No sequence number yet.
    Closed,
    /// Every byte received lies before the tail.
    Connected,
    /// The stream is taken as out of order: bytes may wait beyond a gap
    /// after the tail, and writes at the tail are reported as such.
    ConnectedOutOfOrder,
}

/// A run of bytes received beyond the tail: where it starts and how long it
/// is.
#[derive(Debug, Clone, Copy)]
struct Segment {
    seq: u32,
    length: usize,
}

/// How far the sequence number `seq` lies after `tail`, modulo the sequence
/// space.
pub open spec fn seq_offset(seq: u32, tail: u32) -> int {
    if seq >= tail {
        seq - tail
    } else {
        seq - tail + seq_modulus()
    }
}

/// The sequence number just after `len` bytes that start at `seq`.
pub open spec fn seq_end(seq: u32, len: nat) -> int {
    (seq + len) % seq_modulus()
}

/// The end of a run, computed with the length cut to 32 bits and a
/// wrapping addition, is `seq_end`; where it lies after a start before
/// it, the run reaches that far, and where it is the start, the run spans
/// whole turns of the sequence space.
proof fn lemma_seq_end(seq: u32, len: nat, len32: u32, end: u32)
    requires
        len32 == (len as int) % seq_modulus(),
        end == (seq + len32) % seq_modulus(),
    ensures
        end == seq_end(seq, len),
        seq + len32 < seq_modulus() ==> end == seq + len32,
        seq + len32 >= seq_modulus() ==> end == seq + len32 - seq_modulus(),
        len32 <= len,
{
    vstd::arithmetic::div_mod::lemma_add_mod_noop(seq as int, len as int, seq_modulus());
    vstd::arithmetic::div_mod::lemma_mod_twice(seq as int, seq_modulus());
    vstd::arithmetic::div_mod::lemma_small_mod(seq as nat, seq_modulus() as nat);
    if seq + len32 < seq_modulus() {
        vstd::arithmetic::div_mod::lemma_small_mod((seq + len32) as nat, seq_modulus() as nat);
    } else {
        vstd::arithmetic::div_mod::lemma_small_mod((seq + len32 - seq_modulus()) as nat, seq_modulus() as nat);
        vstd::arithmetic::div_mod::lemma_mod_multiples_vanish(1, seq + len32 - seq_modulus(), seq_modulus());
    }
    vstd::arithmetic::div_mod::lemma_mod_decreases(len, seq_modulus() as nat);
    assert((len as int) % seq_modulus() == len % (seq_modulus() as nat));
}

/// The offset of a segment's start from the tail.
spec fn start_offset(s: Segment, tail: u32) -> int {
    seq_offset(s.seq, tail)
}

/// Offset `o` from the tail lies in one of the segments.
spec fn covered(segs: Seq<Segment>, tail: u32, o: int) -> bool {
    exists|i: int|
        #![trigger segs[i]]
        0 <= i < segs.len() && start_offset(segs[i], tail) <= o < start_offset(segs[i], tail)
            + segs[i].length
}

/// The bytes known at offsets from the tail once `d` is written at it: `d`
/// first, and beyond it what was known before.
pub open spec fn known_after(future: Map<int, u8>, d: Seq<u8>) -> Map<int, u8> {
    Map::new(
        |o: int| (0 <= o < d.len()) || future.contains_key(o),
        |o: int|
            if 0 <= o < d.len() {
                d[o]
            } else {
                future[o]
            },
    )
}

/// The bytes known beyond the tail once `d` is written `off` bytes after
/// it.
pub open spec fn known_ahead(future: Map<int, u8>, off: int, d: Seq<u8>) -> Map<int, u8> {
    Map::new(
        |o: int| (off <= o < off + d.len()) || future.contains_key(o),
        |o: int|
            if off <= o < off + d.len() {
                d[o - off]
            } else {
                future[o]
            },
    )
}

/// `r` is the length of the run of known bytes from offset 0: all before it
/// are known, it is not.
pub open spec fn is_run(known: Map<int, u8>, r: int) -> bool {
    &&& 0 <= r
    &&& forall|o: int| 0 <= o < r ==> #[trigger] known.contains_key(o)
    &&& !known.contains_key(r)
}

/// The length of the run of known bytes from offset 0.
pub open spec fn run_of(known: Map<int, u8>) -> int {
    choose|r: int| is_run(known, r)
}

/// The run of known bytes from offset 0.
pub open spec fn run_bytes(known: Map<int, u8>, r: nat) -> Seq<u8> {
    Seq::new(r, |o: int| known[o])
}

/// The known bytes beyond a run of `r`, with the offsets counted from its
/// end.
pub open spec fn after_run(known: Map<int, u8>, r: int) -> Map<int, u8> {
    Map::new(|o: int| o > 0 && known.contains_key(o + r), |o: int| known[o + r])
}

/// A list of the segments received beyond the tail.
struct SegmentList {
    storage: Vec<Segment>,
}

impl SegmentList {
    /// Create a segment list expecting that we will need no more than
    /// `length` segments.
    fn new(length: usize) -> (r: SegmentList)
        ensures
            r.storage@.len() == 0,
    {
        SegmentList { storage: Vec::with_capacity(length) }
    }

    /// Records a segment.
    fn insert_segment(&mut self, seq: u32, len: usize)
        ensures
            final(self).storage@ == old(self).storage@.push(Segment { seq, length: len }),
    {
        self.storage.push(Segment { seq, length: len });
    }

    /// Clear the list.
    fn clear(&mut self)
        ensures
            final(self).storage@.len() == 0,
    {
        self.storage.clear();
    }

    /// No segment is recorded.
    fn is_empty(&self) -> (r: bool)
        ensures
            r == (self.storage@.len() == 0),
    {
        self.storage.len() == 0
    }
}

/// `r` is the smallest power of two at least `v`.
pub open spec fn is_rounded_power_of_two(v: int, r: int) -> bool {
    exists|k: nat| #[trigger] pow2(k) == r && v <= r && (k == 0 || pow2((k - 1) as nat) < v)
}

/// The smallest power of two at least `v`; zero for zero.
pub fn round_to_power_of_2(v: usize) -> (r: usize)
    requires
        v <= 0x4000_0000,
    ensures
        v == 0 ==> r == 0,
        v > 0 ==> is_rounded_power_of_two(v as int, r as int),
{
    if v == 0 {
        return 0;
    }
    let mut p: usize = 1;
    let ghost mut k: nat = 0;
    proof {
        lemma2_to64();
    }
    while p < v
        invariant
            0 < v <= 0x4000_0000,
            p == pow2(k),
            1 <= p < 2 * v,
            k == 0 || pow2((k - 1) as nat) < v,
        decreases 0x8000_0000 - p,
    {
        proof {
            lemma_pow2_unfold(k + 1);
        }
        p = p * 2;
        proof {
            k = k + 1;
        }
    }
    p
}

/// Offset `o` from the tail lies in the segment `s`.
spec fn covers_one(s: Segment, tail: u32, o: int) -> bool {
    start_offset(s, tail) <= o < start_offset(s, tail) + s.length
}

/// Taking one segment out of the list leaves what the others cover.
proof fn lemma_covered_remove(segs: Seq<Segment>, tail: u32, i: int, o: int)
    requires
        0 <= i < segs.len(),
    ensures
        covered(segs, tail, o) == (covers_one(segs[i], tail, o) || covered(segs.remove(i), tail, o)),
{
    let rest = segs.remove(i);
    if covered(segs, tail, o) {
        let j = choose|j: int|
            #![trigger segs[j]]
            0 <= j < segs.len() && start_offset(segs[j], tail) <= o < start_offset(segs[j], tail)
                + segs[j].length;
        if j < i {
            assert(rest[j] == segs[j]);
        } else if j > i {
            assert(rest[j - 1] == segs[j]);
        }
    }
    if covered(rest, tail, o) {
        let j = choose|j: int|
            #![trigger rest[j]]
            0 <= j < rest.len() && start_offset(rest[j], tail) <= o < start_offset(rest[j], tail)
                + rest[j].length;
        if j < i {
            assert(rest[j] == segs[j]);
        } else {
            assert(rest[j] == segs[j + 1]);
        }
    }
    if covers_one(segs[i], tail, o) {
        assert(segs[i] == segs[i]);
    }
}

/// A segment added to the list adds what it covers.
proof fn lemma_covered_push(segs: Seq<Segment>, tail: u32, s: Segment, o: int)
    ensures
        covered(segs.push(s), tail, o) == (covered(segs, tail, o) || covers_one(s, tail, o)),
{
    let all = segs.push(s);
    if covered(segs, tail, o) {
        let j = choose|j: int|
            #![trigger segs[j]]
            0 <= j < segs.len() && start_offset(segs[j], tail) <= o < start_offset(segs[j], tail)
                + segs[j].length;
        assert(all[j] == segs[j]);
    }
    if covered(all, tail, o) {
        let j = choose|j: int|
            #![trigger all[j]]
            0 <= j < all.len() && start_offset(all[j], tail) <= o < start_offset(all[j], tail)
                + all[j].length;
        if j < segs.len() {
            assert(all[j] == segs[j]);
        }
    }
    if covers_one(s, tail, o) {
        assert(all[segs.len() as int] == s);
    }
}

/// Moving the tail on by `a` brings every sequence number after it `a`
/// closer.
proof fn lemma_seq_offset_shift(x: u32, t: u32, a: int)
    requires
        0 <= a < seq_offset(x, t),
    ensures
        seq_offset(x, ((t + a) % seq_modulus()) as u32) == seq_offset(x, t) - a,
{
    if t + a < seq_modulus() {
        vstd::arithmetic::div_mod::lemma_small_mod((t + a) as nat, seq_modulus() as nat);
    } else {
        vstd::arithmetic::div_mod::lemma_small_mod((t + a - seq_modulus()) as nat, seq_modulus() as nat);
        vstd::arithmetic::div_mod::lemma_mod_multiples_vanish(1, t + a - seq_modulus(), seq_modulus());
    }
}

/// A slot `x` after the start of a write, beyond the bytes written, keeps
/// its byte.
proof fn lemma_written_keeps(s: Seq<u8>, t: int, d: Seq<u8>, x: int)
    requires
        0 < s.len(),
        d.len() <= x < s.len(),
    ensures
        ring_written(s, t % (s.len() as int), d)[(t + x) % (s.len() as int)] == s[(t + x) % (s.len() as int)],
{
    let n = s.len() as int;
    let p = (t + x) % n;
    vstd::arithmetic::div_mod::lemma_fundamental_div_mod(t + x, n);
    vstd::arithmetic::div_mod::lemma_fundamental_div_mod(t, n);
    vstd::arithmetic::div_mod::lemma_sub_mod_noop(t + x, t, n);
    vstd::arithmetic::div_mod::lemma_mod_twice(t, n);
    vstd::arithmetic::div_mod::lemma_small_mod(x as nat, n as nat);
    assert((p - t % n) % n == ((t + x) % n - t % n) % n);
    assert(((t + x) % n - (t % n) % n) % n == x % n) by {
        vstd::arithmetic::div_mod::lemma_sub_mod_noop(t + x, t % n, n);
        vstd::arithmetic::div_mod::lemma_sub_mod_noop(t + x, t, n);
        vstd::arithmetic::div_mod::lemma_mod_twice(t, n);
        assert((t + x - t % n) % n == ((t + x) % n - (t % n) % n) % n);
        assert((t + x - t) % n == ((t + x) % n - t % n) % n);
    }
}

/// The byte a ring write leaves in the slot `x` after its start: one of
/// the written bytes where `x` falls among them, the old byte otherwise.
proof fn lemma_written_slot(s: Seq<u8>, t: int, d: Seq<u8>, x: int)
    requires
        0 < s.len(),
    ensures
        ring_written(s, t % (s.len() as int), d)[(t + x) % (s.len() as int)] == if x % (
        s.len() as int) < d.len() {
            d[x % (s.len() as int)]
        } else {
            s[(t + x) % (s.len() as int)]
        },
{
    let n = s.len() as int;
    vstd::arithmetic::div_mod::lemma_fundamental_div_mod(t + x, n);
    vstd::arithmetic::div_mod::lemma_fundamental_div_mod(t, n);
    assert(((t + x) % n - (t % n) % n) % n == x % n) by {
        vstd::arithmetic::div_mod::lemma_sub_mod_noop(t + x, t % n, n);
        vstd::arithmetic::div_mod::lemma_sub_mod_noop(t + x, t, n);
        vstd::arithmetic::div_mod::lemma_mod_twice(t, n);
        assert((t + x - t % n) % n == ((t + x) % n - (t % n) % n) % n);
        assert((t + x - t) % n == ((t + x) % n - t % n) % n);
    }
    vstd::arithmetic::div_mod::lemma_mod_twice(t, n);
}

/// The run of known bytes from offset 0 is one length only.
proof fn lemma_run_unique(known: Map<int, u8>, a: int, b: int)
    requires
        is_run(known, a),
        is_run(known, b),
    ensures
        a == b,
{
    if a < b {
        assert(known.contains_key(a));
    } else if b < a {
        assert(known.contains_key(b));
    }
}

/// A structure for storing data that might be received out of order. This
/// allows data to be inserted in any order, but then allows ordered read
/// from data.
pub struct ReorderedBuffer {
    data: RingBuffer,
    segment_list: SegmentList,
    buffer_size: usize,
    state: State,
    head_seq: u32,
    tail_seq: u32,
}

impl ReorderedBuffer {
    /// The ring that holds the bytes.
    pub closed spec fn spec_ring(&self) -> RingBuffer {
        self.data
    }

    /// Where the stream stands.
    pub closed spec fn spec_state(&self) -> State {
        self.state
    }

    /// The sequence number of the next byte to read.
    pub closed spec fn spec_head_seq(&self) -> u32 {
        self.head_seq
    }

    /// The sequence number of the first byte not received in order.
    pub closed spec fn spec_tail_seq(&self) -> u32 {
        self.tail_seq
    }

    /// The size the buffer was made for.
    pub closed spec fn spec_buffer_size(&self) -> nat {
        self.buffer_size as nat
    }

    /// The bytes received in order and not read yet.
    pub open spec fn spec_contents(&self) -> Seq<u8> {
        self.spec_ring().spec_contents()
    }

    /// The room for more bytes beyond the tail.
    pub open spec fn spec_room(&self) -> nat {
        self.spec_ring().spec_room()
    }

    /// The bytes received beyond a gap after the tail, by their offset from
    /// the tail.
    pub closed spec fn spec_future(&self) -> Map<int, u8> {
        Map::new(
            |o: int| covered(self.segment_list.storage@, self.tail_seq, o),
            |o: int|
                self.data.spec_storage()[(self.data.spec_tail() + o) % (self.data.spec_size() as int)],
        )
    }

    /// The parts agree: the ring holds the bytes, each segment lies beyond
    /// the tail and inside the room, and no segment waits while the stream is in order.
    pub closed spec fn inv(&self) -> bool {
        &&& self.data.inv()
        &&& self.data.spec_available() < self.data.spec_size()
        &&& self.data.spec_size() <= 0x4000_0000
        &&& self.data.spec_size() == self.buffer_size
        &&& forall|i: int|
            0 <= i < self.segment_list.storage@.len() ==> {
                let s = #[trigger] self.segment_list.storage@[i];
                &&& 1 <= start_offset(s, self.tail_seq)
                &&& 1 <= s.length
                &&& start_offset(s, self.tail_seq) + s.length <= self.data.spec_room()
            }
        &&& self.state == State::Closed ==> self.segment_list.storage@.len() == 0
            && self.data.spec_available() == 0
        &&& self.state == State::Connected ==> self.segment_list.storage@.len() == 0
        &&& self.state != State::Closed ==> self.tail_seq as int == (self.head_seq
            + self.data.spec_available()) % seq_modulus()
    }

    /// Nothing is known beyond the tail exactly when no segment is listed.
    proof fn lemma_future_empty(&self)
        requires
            self.inv(),
        ensures
            (self.segment_list.storage@.len() == 0) == (self.spec_future().dom() == Set::<int>::empty()),
    {
        if self.segment_list.storage@.len() > 0 {
            let s = self.segment_list.storage@[0];
            let o = start_offset(s, self.tail_seq);
            assert(covered(self.segment_list.storage@, self.tail_seq, o));
            assert(self.spec_future().dom().contains(o));
        } else {
            assert(self.spec_future().dom() =~= Set::<int>::empty());
        }
    }

    /// `after` is `before` once `d` went in at the tail: of it, `w` bytes,
    /// as many as there was room for; the tail then moved over the run of
    /// `adv` known bytes that starts there, and those bytes joined the
    /// contents.
    pub open spec fn tail_inserted(
        before: ReorderedBuffer,
        after: ReorderedBuffer,
        d: Seq<u8>,
        w: int,
        adv: int,
    ) -> bool {
        let k = known_after(before.spec_future(), d.take(w));
        &&& w == if d.len() < before.spec_room() {
            d.len() as int
        } else {
            before.spec_room() as int
        }
        &&& is_run(k, adv)
        &&& after.spec_contents() == before.spec_contents() + run_bytes(k, adv as nat)
        &&& after.spec_future() == after_run(k, adv)
        &&& after.spec_head_seq() == before.spec_head_seq()
        &&& after.spec_tail_seq() as int == (before.spec_tail_seq() + adv) % seq_modulus()
        &&& after.spec_state() == if after.spec_future().dom() == Set::<int>::empty() {
            State::Connected
        } else {
            State::ConnectedOutOfOrder
        }
        &&& after.spec_buffer_size() == before.spec_buffer_size()
        &&& after.spec_ring().spec_size() == before.spec_ring().spec_size()
    }

    /// `after` is `before` once `d` went in `off` bytes beyond the tail: of
    /// it, `w` bytes, as many as there was room for; the contents stay, and
    /// the buffer takes the stream as out of order.
    pub open spec fn ahead_inserted(
        before: ReorderedBuffer,
        after: ReorderedBuffer,
        off: int,
        d: Seq<u8>,
        w: int,
    ) -> bool {
        &&& w == if before.spec_room() < off {
            0
        } else if d.len() < before.spec_room() - off {
            d.len() as int
        } else {
            before.spec_room() - off
        }
        &&& after.spec_contents() == before.spec_contents()
        &&& after.spec_future() == known_ahead(before.spec_future(), off, d.take(w))
        &&& after.spec_head_seq() == before.spec_head_seq()
        &&& after.spec_tail_seq() == before.spec_tail_seq()
        &&& after.spec_state() == State::ConnectedOutOfOrder
        &&& after.spec_buffer_size() == before.spec_buffer_size()
        &&& after.spec_ring().spec_size() == before.spec_ring().spec_size()
    }

    /// Writes `d` at the tail and moves the tail over the run of known
    /// bytes that then starts there. Returns the bytes written and how far
    /// the tail moved.
    fn tail_insert(&mut self, d: &[u8]) -> (r: (usize, usize))
        requires
            old(self).inv(),
            old(self).spec_state() != State::Closed,
        ensures
            final(self).inv(),
            Self::tail_inserted(*old(self), *final(self), d@, r.0 as int, r.1 as int),
    {
        proof {
            self.data.lemma_inv();
        }
        let ghost before = *self;
        let ghost future0 = self.spec_future();
        let ghost ring0 = self.data;
        let ghost room0 = self.data.spec_room();
        let w = self.data.write_at_tail(d);
        let ghost k = known_after(future0, d@.take(w as int));
        let ghost ring1 = self.data;
        let ghost tail_seq = self.tail_seq;
        let mut adv: usize = w;
        proof {
            assert(room0 < ring0.spec_size());
            assert(d@.take(w as int).len() == w);
            assert(ring1.spec_contents().len() == ring1.spec_available());
            assert forall|o: int| #[trigger] k.contains_key(o) <==> (0 <= o < adv || covered(
                self.segment_list.storage@,
                tail_seq,
                o,
            )) by {}
        }
        let mut removed = true;
        while removed
            invariant
                self.data == ring1,
                self.tail_seq == tail_seq,
                tail_seq == before.tail_seq,
                self.head_seq == before.head_seq,
                self.state == before.state,
                self.buffer_size == before.buffer_size,
                w <= adv <= room0,
                room0 == ring0.spec_room(),
                room0 < 0x4000_0000,
                forall|i: int|
                    0 <= i < self.segment_list.storage@.len() ==> {
                        let s = #[trigger] self.segment_list.storage@[i];
                        &&& 1 <= start_offset(s, tail_seq)
                        &&& 1 <= s.length
                        &&& start_offset(s, tail_seq) + s.length <= room0
                    },
                forall|o: int| #[trigger]
                    k.contains_key(o) <==> (0 <= o < adv || covered(
                        self.segment_list.storage@,
                        tail_seq,
                        o,
                    )),
                !removed ==> forall|i: int|
                    0 <= i < self.segment_list.storage@.len() ==> start_offset(
                        #[trigger] self.segment_list.storage@[i],
                        tail_seq,
                    ) > adv,
            decreases self.segment_list.storage@.len() + (if removed {
                1int
            } else {
                0int
            }),
        {
            removed = false;
            let ghost pass_len = self.segment_list.storage@.len();
            let ghost adv0 = adv;
            let mut i: usize = 0;
            while i < self.segment_list.storage.len()
                invariant
                    self.data == ring1,
                    self.tail_seq == tail_seq,
                    self.head_seq == before.head_seq,
                    self.state == before.state,
                    self.buffer_size == before.buffer_size,
                    w <= adv <= room0,
                    room0 < 0x4000_0000,
                    adv0 <= adv,
                    i <= self.segment_list.storage@.len(),
                    forall|j: int|
                        0 <= j < self.segment_list.storage@.len() ==> {
                            let s = #[trigger] self.segment_list.storage@[j];
                            &&& 1 <= start_offset(s, tail_seq)
                            &&& 1 <= s.length
                            &&& start_offset(s, tail_seq) + s.length <= room0
                        },
                    forall|o: int| #[trigger]
                        k.contains_key(o) <==> (0 <= o < adv || covered(
                            self.segment_list.storage@,
                            tail_seq,
                            o,
                        )),
                    !removed ==> forall|j: int|
                        0 <= j < i ==> start_offset(
                            #[trigger] self.segment_list.storage@[j],
                            tail_seq,
                        ) > adv,
                    !removed ==> self.segment_list.storage@.len() == pass_len,
                    removed ==> self.segment_list.storage@.len() < pass_len,
                decreases self.segment_list.storage@.len() - i,
            {
                let s = self.segment_list.storage[i];
                let off = s.seq.wrapping_sub(self.tail_seq) as usize;
                proof {
                    assert(self.segment_list.storage@[i as int] == s);
                    assert(off == start_offset(s, tail_seq));
                }
                if off <= adv {
                    let end = off + s.length;
                    let ghost segs = self.segment_list.storage@;
                    let ghost adv_before = adv;
                    if end > adv {
                        adv = end;
                    }
                    self.segment_list.storage.remove(i);
                    proof {
                        assert forall|o: int| #[trigger]
                            k.contains_key(o) <==> (0 <= o < adv || covered(
                                self.segment_list.storage@,
                                tail_seq,
                                o,
                            )) by {
                            lemma_covered_remove(segs, tail_seq, i as int, o);
                        }
                        assert forall|j: int|
                            0 <= j < self.segment_list.storage@.len() implies {
                                let s = #[trigger] self.segment_list.storage@[j];
                                &&& 1 <= start_offset(s, tail_seq)
                                &&& 1 <= s.length
                                &&& start_offset(s, tail_seq) + s.length <= room0
                            } by {
                            if j < i {
                                assert(self.segment_list.storage@[j] == segs[j]);
                            } else {
                                assert(self.segment_list.storage@[j] == segs[j + 1]);
                            }
                        }
                    }
                    removed = true;
                } else {
                    i = i + 1;
                }
            }
        }
        proof {
            assert(!k.contains_key(adv as int)) by {
                if covered(self.segment_list.storage@, tail_seq, adv as int) {
                    let j = choose|j: int|
                        #![trigger self.segment_list.storage@[j]]
                        0 <= j < self.segment_list.storage@.len() && start_offset(
                            self.segment_list.storage@[j],
                            tail_seq,
                        ) <= adv && adv < start_offset(self.segment_list.storage@[j], tail_seq)
                            + self.segment_list.storage@[j].length;
                }
            }
            assert forall|o: int| 0 <= o < adv implies #[trigger] k.contains_key(o) by {}
        }
        let n = adv - w;
        proof {
            assert(ring1.spec_available() == ring0.spec_available() + w);
            assert(room0 == ring0.spec_size() - 1 - ring0.spec_available());
        }
        self.data.seek_tail(n);
        proof {
            ring1.lemma_seek_tail_contents(self.data, n as nat);
        }
        self.tail_seq = self.tail_seq.wrapping_add(adv as u32);
        if self.segment_list.is_empty() {
            self.state = State::Connected;
        } else {
            self.state = State::ConnectedOutOfOrder;
        }
        proof {
            assert(ring1.spec_available() == ring0.spec_available() + w);
            Self::lemma_tail_insert_result(before, *self, ring1, d@, w as int, adv as int, k);
        }
        (w, adv)
    }

    /// What a tail insertion leaves: the moved tail, the contents grown by
    /// the run, and the segments beyond it.
    proof fn lemma_tail_insert_result(
        before: ReorderedBuffer,
        after: ReorderedBuffer,
        ring1: RingBuffer,
        d: Seq<u8>,
        w: int,
        adv: int,
        k: Map<int, u8>,
    )
        requires
            before.inv(),
            before.state != State::Closed,
            ring1.inv(),
            ring1.spec_size() == before.data.spec_size(),
            ring1.spec_head() == before.data.spec_head(),
            ring1.spec_tail() == (before.data.spec_tail() + w) % counter_modulus(),
            ring1.spec_storage() == ring_written(
                before.data.spec_storage(),
                (before.data.spec_tail() as int) % (before.data.spec_size() as int),
                d.take(w),
            ),
            ring1.spec_contents() == before.data.spec_contents() + d.take(w),
            ring1.spec_available() == before.data.spec_available() + w,
            w == if d.len() < before.data.spec_room() {
                d.len() as int
            } else {
                before.data.spec_room() as int
            },
            w <= adv <= before.data.spec_room(),
            after.data.inv(),
            after.data.spec_size() == ring1.spec_size(),
            after.data.spec_head() == ring1.spec_head(),
            after.data.spec_storage() == ring1.spec_storage(),
            after.data.spec_tail() == (ring1.spec_tail() + (adv - w)) % counter_modulus(),
            after.data.spec_available() == ring1.spec_available() + (adv - w),
            after.data.spec_contents() == ring1.spec_contents() + ring_read(
                ring1.spec_storage(),
                ring1.spec_tail() as int,
                (adv - w) as nat,
            ),
            k == known_after(before.spec_future(), d.take(w)),
            is_run(k, adv),
            forall|o: int| #[trigger]
                k.contains_key(o) <==> (0 <= o < adv || covered(
                    after.segment_list.storage@,
                    before.tail_seq,
                    o,
                )),
            forall|i: int|
                0 <= i < after.segment_list.storage@.len() ==> {
                    let s = #[trigger] after.segment_list.storage@[i];
                    &&& adv < start_offset(s, before.tail_seq)
                    &&& 1 <= s.length
                    &&& start_offset(s, before.tail_seq) + s.length <= before.data.spec_room()
                },
            after.tail_seq as int == (before.tail_seq + adv) % seq_modulus(),
            after.head_seq == before.head_seq,
            after.buffer_size == before.buffer_size,
            after.state == if after.segment_list.storage@.len() == 0 {
                State::Connected
            } else {
                State::ConnectedOutOfOrder
            },
        ensures
            after.inv(),
            Self::tail_inserted(before, after, d, w, adv),
    {
        let ring0 = before.data;
        let future0 = before.spec_future();
        let tail_seq = before.tail_seq;
        let n = adv - w;
        let size = ring0.spec_size() as int;
        let m = counter_modulus();
        let t0 = ring0.spec_tail() as int;
        let segs = after.segment_list.storage@;
        let tail2 = after.tail_seq;
        ring0.lemma_inv();
        assert(0 < size);
        // where the tail now stands, on the ring and in the sequence space
        assert(tail2 as int == (tail_seq + adv) % seq_modulus()) by {
            if tail_seq + adv < seq_modulus() {
                vstd::arithmetic::div_mod::lemma_small_mod((tail_seq + adv) as nat, seq_modulus() as nat);
            } else {
                vstd::arithmetic::div_mod::lemma_small_mod(
                    (tail_seq + adv - seq_modulus()) as nat,
                    seq_modulus() as nat,
                );
                vstd::arithmetic::div_mod::lemma_mod_multiples_vanish(
                    1,
                    tail_seq + adv - seq_modulus(),
                    seq_modulus(),
                );
            }
        }
        let c1: int = if t0 + w >= m { 1 } else { 0 };
        assert(ring1.spec_tail() == t0 + w - c1 * m) by {
            if t0 + w >= m {
                vstd::arithmetic::div_mod::lemma_small_mod((t0 + w - m) as nat, m as nat);
                vstd::arithmetic::div_mod::lemma_mod_multiples_vanish(1, t0 + w - m, m);
            } else {
                vstd::arithmetic::div_mod::lemma_small_mod((t0 + w) as nat, m as nat);
            }
        }
        let t1 = ring1.spec_tail() as int;
        let c2: int = if t1 + n >= m { 1 } else { 0 };
        assert(after.data.spec_tail() == t1 + n - c2 * m) by {
            if t1 + n >= m {
                vstd::arithmetic::div_mod::lemma_small_mod((t1 + n - m) as nat, m as nat);
                vstd::arithmetic::div_mod::lemma_mod_multiples_vanish(1, t1 + n - m, m);
            } else {
                vstd::arithmetic::div_mod::lemma_small_mod((t1 + n) as nat, m as nat);
            }
        }
        // the contents
        let extra = ring_read(ring1.spec_storage(), t1, n as nat);
        assert(d.take(w) + extra =~= run_bytes(k, adv as nat)) by {
            assert forall|j: int| 0 <= j < n implies #[trigger] extra[j] == k[w + j] by {
                if t0 + w >= m {
                    ring0.lemma_slot_shift(t0 + w + j, -1);
                    assert(t1 + j == (t0 + w + j) + (-1) * m);
                }
                lemma_written_keeps(ring0.spec_storage(), t0, d.take(w), w + j);
                assert(k.contains_key(w + j));
            }
        }
        assert(after.spec_contents() == before.spec_contents() + run_bytes(k, adv as nat));
        // the segments, seen from the new tail
        assert forall|i: int| 0 <= i < segs.len() implies start_offset(#[trigger] segs[i], tail2)
            == start_offset(segs[i], tail_seq) - adv by {
            lemma_seq_offset_shift(segs[i].seq, tail_seq, adv as int);
        }
        assert forall|o: int| covered(segs, tail2, o) == covered(segs, tail_seq, o + adv) by {
            if covered(segs, tail2, o) {
                let j = choose|j: int|
                    #![trigger segs[j]]
                    0 <= j < segs.len() && start_offset(segs[j], tail2) <= o < start_offset(
                        segs[j],
                        tail2,
                    ) + segs[j].length;
                assert(covers_one(segs[j], tail_seq, o + adv));
            }
            if covered(segs, tail_seq, o + adv) {
                let j = choose|j: int|
                    #![trigger segs[j]]
                    0 <= j < segs.len() && start_offset(segs[j], tail_seq) <= o + adv
                        < start_offset(segs[j], tail_seq) + segs[j].length;
                assert(covers_one(segs[j], tail2, o));
            }
        }
        // what is known beyond the new tail
        let fut = after.spec_future();
        let want = after_run(k, adv as int);
        assert forall|o: int| #[trigger] fut.contains_key(o) == want.contains_key(o) by {
            if o <= 0 && covered(segs, tail_seq, o + adv) {
                let j = choose|j: int|
                    #![trigger segs[j]]
                    0 <= j < segs.len() && start_offset(segs[j], tail_seq) <= o + adv
                        < start_offset(segs[j], tail_seq) + segs[j].length;
            }
        }
        assert forall|o: int| #[trigger] fut.contains_key(o) implies fut[o] == want[o] by {
            let j = choose|j: int|
                #![trigger segs[j]]
                0 <= j < segs.len() && start_offset(segs[j], tail_seq) <= o + adv
                    < start_offset(segs[j], tail_seq) + segs[j].length;
            assert(o + adv < size);
            lemma_written_keeps(ring0.spec_storage(), t0, d.take(w), o + adv);
            let t2 = after.data.spec_tail() as int;
            if t2 + m == t0 + adv {
                ring0.lemma_slot_shift(t0 + adv + o, -1);
                assert(t2 + o == (t0 + adv + o) + (-1) * m);
            } else if t2 + 2 * m == t0 + adv {
                ring0.lemma_slot_shift(t0 + adv + o, -2);
                assert(t2 + o == (t0 + adv + o) + (-2) * m);
            } else {
                assert(t2 == t0 + adv);
            }
            assert(k.contains_key(o + adv));
            assert(future0.contains_key(o + adv));
        }
        assert(fut =~= want);
        // the invariant
        assert(after.data.spec_available() == ring0.spec_available() + adv);
        assert(after.tail_seq as int == (after.head_seq + after.data.spec_available()) % seq_modulus()) by {
            vstd::arithmetic::div_mod::lemma_add_mod_noop(
                after.head_seq + ring0.spec_available(),
                adv as int,
                seq_modulus(),
            );
            vstd::arithmetic::div_mod::lemma_small_mod(adv as nat, seq_modulus() as nat);
        }
        after.lemma_future_empty();
        }

    /// Writes `d` beyond the tail, at the offset of `seq`, as much as there
    /// is room for, and records the segment. Returns the bytes written.
    fn ahead_insert(&mut self, seq: u32, d: &[u8]) -> (w: usize)
        requires
            old(self).inv(),
            old(self).spec_state() != State::Closed,
            1 <= seq_offset(seq, old(self).spec_tail_seq()),
        ensures
            final(self).inv(),
            Self::ahead_inserted(
                *old(self),
                *final(self),
                seq_offset(seq, old(self).spec_tail_seq()),
                d@,
                w as int,
            ),
    {
        proof {
            self.data.lemma_inv();
        }
        let ghost before = *self;
        let ghost ring0 = self.data;
        let off = seq.wrapping_sub(self.tail_seq) as usize;
        let w = self.data.write_at_offset_from_tail(off, d);
        let ghost segs0 = self.segment_list.storage@;
        if w > 0 {
            self.segment_list.insert_segment(seq, w);
        }
        self.state = State::ConnectedOutOfOrder;
        proof {
            let size = ring0.spec_size() as int;
            let t = ring0.spec_tail() as int;
            let dw = d@.take(w as int);
            let room = ring0.spec_room() as int;
            ring0.lemma_inv();
            assert(room < size);
            if off as int <= room {
                ring0.lemma_write_ahead_contents(self.data, off as nat, dw);
            } else {
                assert(self.data.spec_contents() =~= ring0.spec_contents());
            }
            let fut = self.spec_future();
            let want = known_ahead(before.spec_future(), off as int, dw);
            assert forall|o: int| #[trigger] fut.contains_key(o) == want.contains_key(o) by {
                if w > 0 {
                    lemma_covered_push(segs0, self.tail_seq, Segment { seq, length: w }, o);
                }
            }
            assert forall|o: int| #[trigger] fut.contains_key(o) implies fut[o] == want[o] by {
                if w > 0 {
                    lemma_covered_push(segs0, self.tail_seq, Segment { seq, length: w }, o);
                }
                let x = o - off;
                if off as int <= room {
                    lemma_written_slot(ring0.spec_storage(), t + off, dw, x);
                    assert(t + o == (t + off) + x);
                    assert((t + off) % size == (t + off as int) % size);
                    if covered(segs0, self.tail_seq, o) {
                        let j = choose|j: int|
                            #![trigger segs0[j]]
                            0 <= j < segs0.len() && start_offset(segs0[j], self.tail_seq) <= o
                                < start_offset(segs0[j], self.tail_seq) + segs0[j].length;
                        assert(1 <= o <= room);
                    }
                    if off <= o < off + w {
                        vstd::arithmetic::div_mod::lemma_small_mod(x as nat, size as nat);
                    } else if o >= off + w {
                        vstd::arithmetic::div_mod::lemma_small_mod(x as nat, size as nat);
                    } else {
                        vstd::arithmetic::div_mod::lemma_small_mod((x + size) as nat, size as nat);
                        vstd::arithmetic::div_mod::lemma_mod_multiples_vanish(-1, x + size, size);
                    }
                }
            }
            assert(fut =~= want);
            assert forall|i: int| 0 <= i < self.segment_list.storage@.len() implies {
                let s = #[trigger] self.segment_list.storage@[i];
                &&& 1 <= start_offset(s, self.tail_seq)
                &&& 1 <= s.length
                &&& start_offset(s, self.tail_seq) + s.length <= self.data.spec_room()
            } by {
                if i < segs0.len() {
                    assert(self.segment_list.storage@[i] == segs0[i]);
                }
            }
        }
        w
    }

    /// Inserts `d` at the tail, as a connection in order does: the result
    /// says whether all of it fitted.
    fn fast_path_insert(&mut self, d: &[u8]) -> (r: InsertionResult)
        requires
            old(self).inv(),
            old(self).spec_state() != State::Closed,
        ensures
            final(self).inv(),
            Self::tail_written(*old(self), *final(self), d@),
            r == Self::fitted_result(
                Self::tail_written_len(*old(self), d@),
                d@.len() as int,
                final(self).spec_contents().len() as int,
            ),
    {
        let (w, adv) = self.tail_insert(d);
        proof {
            self.lemma_run_of(*old(self), d@, w as int, adv as int);
        }
        let available = self.data.available();
        if w == d.len() {
            InsertionResult::Inserted { written: w, available }
        } else {
            InsertionResult::OutOfMemory { written: w, available }
        }
    }

    /// The bytes of `d` that a write at the tail of `before` takes in.
    pub open spec fn tail_written_len(before: ReorderedBuffer, d: Seq<u8>) -> int {
        if d.len() < before.spec_room() {
            d.len() as int
        } else {
            before.spec_room() as int
        }
    }

    /// The run that a write of `d` at the tail of `before` lets the tail
    /// move over.
    pub open spec fn tail_run(before: ReorderedBuffer, d: Seq<u8>) -> int {
        run_of(
            known_after(before.spec_future(), d.take(Self::tail_written_len(before, d))),
        )
    }

    /// `after` is `before` once `d` went in at the tail.
    pub open spec fn tail_written(before: ReorderedBuffer, after: ReorderedBuffer, d: Seq<u8>) -> bool {
        Self::tail_inserted(
            before,
            after,
            d,
            Self::tail_written_len(before, d),
            Self::tail_run(before, d),
        )
    }

    /// The result of an insertion that took in `w` of `len` bytes.
    pub open spec fn fitted_result(w: int, len: int, available: int) -> InsertionResult {
        if w == len {
            InsertionResult::Inserted { written: w as usize, available: available as usize }
        } else {
            InsertionResult::OutOfMemory { written: w as usize, available: available as usize }
        }
    }

    /// A tail insertion's move is the run the contract names.
    proof fn lemma_run_of(self, before: ReorderedBuffer, d: Seq<u8>, w: int, adv: int)
        requires
            Self::tail_inserted(before, self, d, w, adv),
        ensures
            Self::tail_written(before, self, d),
            adv == Self::tail_run(before, d),
            w == Self::tail_written_len(before, d),
    {
        let k = known_after(before.spec_future(), d.take(w));
        assert(is_run(k, adv));
        let r = run_of(k);
        assert(is_run(k, r));
        lemma_run_unique(k, r, adv);
    }

    /// The bytes of `d` that a write `off` bytes beyond the tail of `before`
    /// takes in.
    pub open spec fn ahead_written_len(before: ReorderedBuffer, off: int, d: Seq<u8>) -> int {
        if before.spec_room() < off {
            0
        } else if d.len() < before.spec_room() - off {
            d.len() as int
        } else {
            before.spec_room() - off
        }
    }

    /// The result of a write of `d` at the tail of `before`: in order, it
    /// says whether all of `d` fitted; out of order, it reports the larger
    /// of the bytes written and how much further the tail moved over bytes
    /// received before.
    pub open spec fn tail_result(
        before: ReorderedBuffer,
        d: Seq<u8>,
        in_order: bool,
        available: int,
    ) -> InsertionResult {
        if in_order {
            Self::fitted_result(Self::tail_written_len(before, d), d.len() as int, available)
        } else {
            let w = Self::tail_written_len(before, d);
            let extra = Self::tail_run(before, d) - w;
            InsertionResult::Inserted {
                written: (if w < extra { extra } else { w }) as usize,
                available: available as usize,
            }
        }
    }

    /// Writes `d` at the tail; the result follows the state the buffer was
    /// in.
    fn insert_at_tail(&mut self, d: &[u8], in_order: bool) -> (r: InsertionResult)
        requires
            old(self).inv(),
            old(self).spec_state() != State::Closed,
        ensures
            final(self).inv(),
            Self::tail_written(*old(self), *final(self), d@),
            r == Self::tail_result(
                *old(self),
                d@,
                in_order,
                final(self).spec_contents().len() as int,
            ),
    {
        if in_order {
            self.fast_path_insert(d)
        } else {
            let (w, adv) = self.tail_insert(d);
            proof {
                self.lemma_run_of(*old(self), d@, w as int, adv as int);
            }
            let available = self.data.available();
            let extra = adv - w;
            let written = if w < extra {
                extra
            } else {
                w
            };
            InsertionResult::Inserted { written, available }
        }
    }

    /// Set the current sequence number for the buffer, with the first
    /// bytes of the stream.
    pub fn seq(&mut self, seq: u32, data: &[u8]) -> (r: InsertionResult)
        requires
            old(self).inv(),
            old(self).spec_state() == State::Closed,
        ensures
            final(self).inv(),
            ({
                let w = Self::tail_written_len(*old(self), data@);
                &&& final(self).spec_state() == State::Connected
                &&& final(self).spec_head_seq() == seq
                &&& final(self).spec_tail_seq() as int == (seq + w) % seq_modulus()
                &&& final(self).spec_contents() == data@.take(w)
                &&& final(self).spec_future().dom() == Set::<int>::empty()
                &&& r == Self::fitted_result(w, data@.len() as int, w)
                &&& final(self).spec_buffer_size() == old(self).spec_buffer_size()
                &&& final(self).spec_ring().spec_size() == old(self).spec_ring().spec_size()
            }),
    {
        proof {
            self.lemma_future_empty();
        }
        self.state = State::Connected;
        self.head_seq = seq;
        self.tail_seq = seq;
        proof {
            vstd::arithmetic::div_mod::lemma_small_mod(seq as nat, seq_modulus() as nat);
            self.lemma_future_empty();
        }
        let ghost mid = *self;
        let r = self.fast_path_insert(data);
        proof {
            let w = Self::tail_written_len(mid, data@);
            let k = known_after(mid.spec_future(), data@.take(w));
            assert(mid.spec_future().dom() =~= Set::<int>::empty());
            assert forall|o: int| 0 <= o < w implies #[trigger] k.contains_key(o) by {}
            assert(is_run(k, w));
            lemma_run_unique(k, w, Self::tail_run(mid, data@));
            assert(mid.spec_contents() =~= Seq::<u8>::empty());
            assert(run_bytes(k, w as nat) =~= data@.take(w));
            assert(self.spec_future().dom() =~= Set::<int>::empty());
        }
        r
    }

    /// `after` is `before` taken as out of order, with nothing else
    /// changed.
    pub open spec fn marked_out_of_order(before: ReorderedBuffer, after: ReorderedBuffer) -> bool {
        &&& after.spec_state() == State::ConnectedOutOfOrder
        &&& after.spec_contents() == before.spec_contents()
        &&& after.spec_future() == before.spec_future()
        &&& after.spec_head_seq() == before.spec_head_seq()
        &&& after.spec_tail_seq() == before.spec_tail_seq()
        &&& after.spec_buffer_size() == before.spec_buffer_size()
        &&& after.spec_ring().spec_size() == before.spec_ring().spec_size()
    }

    /// Add data at a given sequence number, the sequence numbers compared
    /// as plain 32-bit numbers. At the tail, the data extends the stream
    /// (with what was received beyond it, where the gap closes). In order,
    /// data that starts before the tail counts from the tail on where it
    /// reaches past it, and is dropped where it ends before it; otherwise
    /// the buffer takes the stream as out of order. Out of order, data that
    /// starts before the tail counts from the tail on; data that starts
    /// after it waits beyond a gap, as much as there is room for.
    pub fn add_data(&mut self, seq: u32, data: &[u8]) -> (r: InsertionResult)
        requires
            old(self).inv(),
            old(self).spec_state() != State::Closed,
            old(self).spec_state() == State::ConnectedOutOfOrder && seq < old(self).spec_tail_seq()
                ==> old(self).spec_tail_seq() - seq <= data@.len(),
        ensures
            final(self).inv(),
            final(self).spec_state() != State::Closed,
            ({
                let t = old(self).spec_tail_seq();
                let e = seq_end(seq, data@.len());
                let in_order = old(self).spec_state() == State::Connected;
                let available = final(self).spec_contents().len() as int;
                if seq == t {
                    &&& Self::tail_written(*old(self), *final(self), data@)
                    &&& r == Self::tail_result(*old(self), data@, in_order, available)
                } else if in_order && seq < t && e > t {
                    let rest = data@.skip(t - seq);
                    &&& Self::tail_written(*old(self), *final(self), rest)
                    &&& r == Self::tail_result(*old(self), rest, true, available)
                } else if in_order && e < t {
                    &&& *final(self) == *old(self)
                    &&& r == (InsertionResult::Inserted { written: 0, available: available as usize })
                } else if seq < t {
                    let back = t - seq;
                    if back == data@.len() {
                        &&& Self::marked_out_of_order(*old(self), *final(self))
                        &&& r == (InsertionResult::Inserted { written: 0, available: available as usize })
                    } else {
                        let rest = data@.skip(back);
                        &&& Self::tail_written(*old(self), *final(self), rest)
                        &&& r == Self::tail_result(*old(self), rest, false, available)
                    }
                } else {
                    let off = seq - t;
                    let w = Self::ahead_written_len(*old(self), off, data@);
                    &&& Self::ahead_inserted(*old(self), *final(self), off, data@, w)
                    &&& r == Self::fitted_result(w, data@.len() as int, available)
                }
            }),
    {
        let in_order = match self.state {
            State::Connected => true,
            _ => false,
        };
        let t = self.tail_seq;
        if seq == t {
            return self.insert_at_tail(data, in_order);
        }
        let len32 = (data.len() as u64 % 0x1_0000_0000u64) as u32;
        let end = seq.wrapping_add(len32);
        proof {
            lemma_seq_end(seq, data@.len(), len32, end);
        }
        if in_order && seq < t && end > t {
            let back = (t - seq) as usize;
            let rest = vstd::slice::slice_subrange(data, back, data.len());
            proof {
                assert(rest@ =~= data@.skip(back as int));
            }
            return self.insert_at_tail(rest, true);
        }
        if in_order && end < t {
            return InsertionResult::Inserted { written: 0, available: self.data.available() };
        }
        if seq < t {
            let back = (t - seq) as usize;
            if back == data.len() {
                self.state = State::ConnectedOutOfOrder;
                proof {
                    assert(self.spec_future() =~= old(self).spec_future());
                }
                return InsertionResult::Inserted { written: 0, available: self.data.available() };
            }
            let rest = vstd::slice::slice_subrange(data, back, data.len());
            proof {
                assert(rest@ =~= data@.skip(back as int));
            }
            return self.insert_at_tail(rest, false);
        }
        let w = self.ahead_insert(seq, data);
        let available = self.data.available();
        if w == data.len() {
            InsertionResult::Inserted { written: w, available }
        } else {
            InsertionResult::OutOfMemory { written: w, available }
        }
    }

    /// Read data from the buffer. The amount of data read is limited by the
    /// amount of in-order data available at the moment.
    pub fn read_data(&mut self, data: &mut [u8]) -> (r: usize)
        requires
            old(self).inv(),
        ensures
            final(self).inv(),
            final(data)@.len() == old(data)@.len(),
            old(self).spec_state() == State::Closed ==> r == 0 && *final(self) == *old(self)
                && final(data)@ == old(data)@,
            old(self).spec_state() != State::Closed ==> {
                &&& r == if old(self).spec_contents().len() < old(data)@.len() {
                    old(self).spec_contents().len() as int
                } else {
                    old(data)@.len() as int
                }
                &&& final(data)@.take(r as int) == old(self).spec_contents().take(r as int)
                &&& final(data)@.skip(r as int) == old(data)@.skip(r as int)
                &&& final(self).spec_contents() == old(self).spec_contents().skip(r as int)
                &&& final(self).spec_future() == old(self).spec_future()
                &&& final(self).spec_head_seq() as int == (old(self).spec_head_seq() + r)
                    % seq_modulus()
                &&& final(self).spec_tail_seq() == old(self).spec_tail_seq()
                &&& final(self).spec_state() == old(self).spec_state()
                &&& final(self).spec_buffer_size() == old(self).spec_buffer_size()
                &&& final(self).spec_ring().spec_size() == old(self).spec_ring().spec_size()
            },
    {
        match self.state {
            State::Closed => 0,
            _ => {
                let ghost before = *self;
                proof {
                    self.data.lemma_inv();
                }
                let read = self.data.read_from_head(data);
                let ghost head0 = self.head_seq;
                self.head_seq = self.head_seq.wrapping_add(read as u32);
                proof {
                    assert(self.spec_future() =~= before.spec_future());
                    let m = seq_modulus();
                    let a0 = before.data.spec_available() as int;
                    assert(before.data.spec_contents().len() == a0);
                    assert(self.data.spec_contents().len() == self.data.spec_available());
                    assert(self.head_seq as int == (head0 + read) % m) by {
                        if head0 + read < m {
                            vstd::arithmetic::div_mod::lemma_small_mod((head0 + read) as nat, m as nat);
                        } else {
                            vstd::arithmetic::div_mod::lemma_small_mod((head0 + read - m) as nat, m as nat);
                            vstd::arithmetic::div_mod::lemma_mod_multiples_vanish(1, head0 + read - m, m);
                        }
                    }
                    assert(self.tail_seq as int == (self.head_seq + self.data.spec_available()) % m) by {
                        vstd::arithmetic::div_mod::lemma_add_mod_noop(
                            head0 + read,
                            (a0 - read) as int,
                            m,
                        );
                        vstd::arithmetic::div_mod::lemma_mod_twice(head0 + read, m);
                        vstd::arithmetic::div_mod::lemma_small_mod((a0 - read) as nat, m as nat);
                        vstd::arithmetic::div_mod::lemma_add_mod_noop(
                            (head0 + read) % m,
                            (a0 - read) as int,
                            m,
                        );
                    }
                }
                read
            },
        }
    }

    /// Bytes written at the tail of a buffer with nothing waiting beyond
    /// it, where they fit, join its contents in order.
    pub proof fn law_in_order_append(before: ReorderedBuffer, after: ReorderedBuffer, d: Seq<u8>)
        requires
            before.inv(),
            before.spec_future().dom() == Set::<int>::empty(),
            d.len() < before.spec_room(),
            Self::tail_written(before, after, d),
        ensures
            after.spec_contents() == before.spec_contents() + d,
            after.spec_future().dom() == Set::<int>::empty(),
            after.spec_state() == State::Connected,
    {
        let k = known_after(before.spec_future(), d.take(d.len() as int));
        assert(d.take(d.len() as int) =~= d);
        assert forall|o: int| 0 <= o < d.len() implies #[trigger] k.contains_key(o) by {}
        assert(!before.spec_future().contains_key(d.len() as int));
        assert(is_run(k, d.len() as int));
        lemma_run_unique(k, d.len() as int, Self::tail_run(before, d));
        assert(run_bytes(k, d.len()) =~= d);
        assert(after.spec_future().dom() =~= Set::<int>::empty());
    }

    /// Bytes that arrive beyond a gap, and then the bytes that fill the gap,
    /// read back as one stream in order: the gap's bytes, then theirs.
    pub proof fn law_gap_filled(
        before: ReorderedBuffer,
        mid: ReorderedBuffer,
        after: ReorderedBuffer,
        ahead: Seq<u8>,
        gap: Seq<u8>,
    )
        requires
            before.inv(),
            mid.inv(),
            before.spec_future().dom() == Set::<int>::empty(),
            0 < gap.len(),
            gap.len() + ahead.len() <= before.spec_room(),
            Self::ahead_inserted(before, mid, gap.len() as int, ahead, ahead.len() as int),
            Self::tail_written(mid, after, gap),
        ensures
            after.spec_contents() == before.spec_contents() + gap + ahead,
            after.spec_future().dom() == Set::<int>::empty(),
            after.spec_state() == State::Connected,
    {
        let g = gap.len() as int;
        let n = ahead.len() as int;
        assert(mid.spec_room() == before.spec_room());
        assert(gap.take(g) =~= gap);
        assert(ahead.take(n) =~= ahead);
        let k = known_after(mid.spec_future(), gap);
        assert forall|o: int| 0 <= o < g + n implies #[trigger] k.contains_key(o) by {}
        assert(!k.contains_key(g + n));
        assert(is_run(k, g + n));
        lemma_run_unique(k, g + n, Self::tail_run(mid, gap));
        assert(run_bytes(k, (g + n) as nat) =~= gap + ahead);
        assert(after.spec_future().dom() =~= Set::<int>::empty());
    }

    /// The buffer never holds as many bytes as its size: its ring is
    /// exactly that size, and one slot of the ring stays free.
    pub proof fn lemma_holds_less_than_size(&self)
        requires
            self.inv(),
        ensures
            self.spec_ring().spec_size() == self.spec_buffer_size(),
            self.spec_contents().len() < self.spec_buffer_size(),
            self.spec_contents().len() + self.spec_room() + 1 == self.spec_buffer_size(),
    {
    }

    /// Return the size (the maximum amount of data) this buffer can hold.
    #[inline]
    pub fn buffer_size(&self) -> (r: usize)
        ensures
            r == self.spec_buffer_size(),
    {
        self.buffer_size
    }

    /// Report how much data is available.
    #[inline]
    pub fn available(&self) -> (r: usize)
        ensures
            r == self.spec_contents().len(),
    {
        self.data.available()
    }

    /// Create a new buffer with space for `buffer_size` bytes.
    pub fn new(buffer_size: usize) -> (r: Result<ReorderedBuffer, StateError>)
        requires
            0 < buffer_size <= 0x4000_0000,
        ensures
            r matches Ok(b) && ({
                &&& b.inv()
                &&& b.spec_state() == State::Closed
                &&& b.spec_contents().len() == 0
                &&& b.spec_future().dom() == Set::<int>::empty()
                &&& is_rounded_power_of_two(buffer_size as int, b.spec_buffer_size() as int)
                &&& b.spec_ring().spec_size() == b.spec_buffer_size()
            }),
    {
        ReorderedBuffer::new_with_segments(buffer_size, buffer_size / 64)
    }

    /// Create a new buffer with space for `buffer_size` bytes and a segment
    /// list with `segment_size` elements. The latter should be adjusted to
    /// reflect the expected number of out-of-order segments at a time.
    pub fn new_with_segments(buffer_size: usize, segment_size: usize) -> (r: Result<
        ReorderedBuffer,
        StateError,
    >)
        requires
            0 < buffer_size <= 0x4000_0000,
        ensures
            r matches Ok(b) && ({
                &&& b.inv()
                &&& b.spec_state() == State::Closed
                &&& b.spec_contents().len() == 0
                &&& b.spec_future().dom() == Set::<int>::empty()
                &&& is_rounded_power_of_two(buffer_size as int, b.spec_buffer_size() as int)
                &&& b.spec_ring().spec_size() == b.spec_buffer_size()
            }),
    {
        let rounded_bytes = round_to_power_of_2(buffer_size);
        proof {
            let k = choose|k: nat|
                #[trigger] pow2(k) == rounded_bytes && buffer_size <= rounded_bytes && (k == 0 || pow2(
                    (k - 1) as nat,
                ) < buffer_size);
            lemma2_to64();
            if k > 30 {
                if k - 1 > 30 {
                    vstd::arithmetic::power2::lemma_pow2_strictly_increases(30, (k - 1) as nat);
                }
                assert(false);
            } else if k < 30 {
                vstd::arithmetic::power2::lemma_pow2_strictly_increases(k, 30);
            }
        }
        let ring_buffer = RingBuffer::with_bytes(rounded_bytes);
        let r = ReorderedBuffer {
            data: ring_buffer,
            buffer_size: rounded_bytes,
            state: State::Closed,
            head_seq: 0,
            tail_seq: 0,
            segment_list: SegmentList::new(segment_size),
        };
        proof {
            r.lemma_future_empty();
        }
        Ok(r)
    }

    /// Reset buffer state.
    pub fn reset(&mut self)
        requires
            old(self).inv(),
        ensures
            final(self).inv(),
            final(self).spec_state() == State::Closed,
            final(self).spec_contents().len() == 0,
            final(self).spec_future().dom() == Set::<int>::empty(),
            final(self).spec_buffer_size() == old(self).spec_buffer_size(),
            final(self).spec_ring().spec_size() == old(self).spec_ring().spec_size(),
    {
        self.state = State::Closed;
        self.segment_list.clear();
        self.data.clear();
        proof {
            self.lemma_future_empty();
        }
    }

    /// Whether a sequence number was set.
    #[inline]
    pub fn is_established(&self) -> (r: bool)
        ensures
            r == (self.spec_state() != State::Closed),
    {
        match self.state {
            State::Closed => false,
            _ => true,
        }
    }
}

} // verus!
