use vstd::arithmetic::div_mod::{
    lemma_fundamental_div_mod, lemma_mod_multiples_vanish, lemma_small_mod,
};
use vstd::arithmetic::mul::{lemma_mul_is_associative, lemma_mul_is_commutative};
use vstd::arithmetic::power2::{
    lemma2_to64, lemma_pow2_adds, lemma_pow2_pos, lemma_pow2_strictly_increases, pow2,
};
use vstd::bits::{lemma_usize_low_bits_mask_is_mod, lemma_usize_shl_is_mul, low_bits_mask};
use vstd::prelude::*;

verus! {

/// The size of a page, in bytes: a ring buffer holds a power of two of them.
pub const PAGE_SIZE: usize = 4096;

/// Errors of the per-connection state structures.
#[derive(Debug, Clone, Copy, PartialEq, Eq, Structural)]
pub enum StateError {
    /// The ring size, in pages, is not a power of two.
    InvalidRingSize(usize),
}

/// `n` is a power of two.
pub open spec fn is_power_of_two(n: int) -> bool {
    exists|k: nat| pow2(k) == n
}

/// The number at which a `usize` counter wraps round to zero.
pub open spec fn counter_modulus() -> int {
    usize::MAX + 1
}

/// How far the wrapping counter `to` is ahead of `from`.
pub open spec fn wrapping_distance(from: usize, to: usize) -> nat {
    if from <= to {
        (to - from) as nat
    } else {
        (to - from + counter_modulus()) as nat
    }
}

/// `count` bytes of the ring storage `s`, from slot `offset` on, wrapping
/// round its end.
pub open spec fn ring_read(s: Seq<u8>, offset: int, count: nat) -> Seq<u8> {
    Seq::new(count, |i: int| s[(offset + i) % (s.len() as int)])
}

/// The ring storage `s` after `data` was written into it from slot `offset`
/// on, wrapping round its end: slot `p` holds the byte of `data` that is
/// `p - offset` slots (modulo the ring size) after the start, where there is
/// one.
pub open spec fn ring_written(s: Seq<u8>, offset: int, data: Seq<u8>) -> Seq<u8> {
    Seq::new(
        s.len(),
        |p: int|
            if (p - offset) % (s.len() as int) < data.len() {
                data[(p - offset) % (s.len() as int)]
            } else {
                s[p]
            },
    )
}

/// A ring buffer which can be used to insert and read ordered data.
pub struct RingBuffer {
    /// Head, signifies where a consumer should read from.
    head: usize,
    /// Tail, signifies where a producer should write.
    tail: usize,
    /// Size of the ring buffer.
    size: usize,
    /// Mask used for bit-wise wrapping operations.
    mask: usize,
    /// A Vec that holds this RingBuffer's data.
    vec: Vec<u8>,
    /// The size is two to this power.
    log_size: Ghost<nat>,
}

/// Slots repeat every ring size along the counters, also across the point
/// where a counter wraps round.
proof fn lemma_slot_wraps(x: int, m: int, k: nat)
    requires
        k < usize::BITS,
    ensures
        (x + m * counter_modulus()) % (pow2(k) as int) == x % (pow2(k) as int),
{
    lemma2_to64();
    assert(counter_modulus() == pow2(usize::BITS as nat));
    lemma_pow2_adds(k, (usize::BITS - k) as nat);
    lemma_pow2_pos(k);
    let r = pow2((usize::BITS - k) as nat) as int;
    let p = pow2(k) as int;
    assert(counter_modulus() == p * r);
    assert(m * (p * r) == p * (m * r)) by {
        lemma_mul_is_associative(m, p, r);
        lemma_mul_is_commutative(m, p);
        lemma_mul_is_associative(p, m, r);
    }
    lemma_mod_multiples_vanish(m * r, x, p);
}

/// The slot of `offset + i`, for an offset inside the ring, is `i` after it.
proof fn lemma_slot_diff(offset: int, i: int, n: int)
    requires
        0 <= offset < n,
        0 <= i < n,
    ensures
        ((offset + i) % n - offset) % n == i,
        (offset + i) % n == if offset + i < n { offset + i } else { offset + i - n },
{
    if offset + i < n {
        lemma_small_mod((offset + i) as nat, n as nat);
        lemma_small_mod(i as nat, n as nat);
    } else {
        lemma_small_mod((offset + i - n) as nat, n as nat);
        lemma_mod_multiples_vanish(1, offset + i - n, n);
        assert((offset + i) % n == offset + i - n);
        lemma_mod_multiples_vanish(-1, i, n);
        lemma_small_mod(i as nat, n as nat);
    }
}

impl RingBuffer {
    /// The buffer's fields agree: a size that is a power of two, its mask,
    /// and storage of that size.
    pub closed spec fn inv(&self) -> bool {
        &&& self.log_size@ < usize::BITS
        &&& self.size == pow2(self.log_size@)
        &&& self.mask == self.size - 1
        &&& self.vec@.len() == self.size
    }

    /// Where a consumer reads from.
    pub closed spec fn spec_head(&self) -> usize {
        self.head
    }

    /// Where a producer writes.
    pub closed spec fn spec_tail(&self) -> usize {
        self.tail
    }

    /// The size of the ring, in bytes.
    pub closed spec fn spec_size(&self) -> nat {
        self.size as nat
    }

    /// The bytes of the ring, slot by slot.
    pub closed spec fn spec_storage(&self) -> Seq<u8> {
        self.vec@
    }

    /// The number of bytes between head and tail.
    pub open spec fn spec_available(&self) -> nat {
        wrapping_distance(self.spec_head(), self.spec_tail())
    }

    /// The room for more bytes at the tail, as the buffer computes it: one
    /// slot stays free, so that a full ring is told from an empty one.
    pub open spec fn spec_room(&self) -> nat {
        if self.spec_available() < self.spec_size() {
            (self.spec_size() - 1 - self.spec_available()) as nat
        } else {
            (self.spec_size() - 1 - self.spec_available() + counter_modulus()) as nat
        }
    }

    /// The bytes between head and tail, in order.
    pub open spec fn spec_contents(&self) -> Seq<u8> {
        ring_read(self.spec_storage(), self.spec_head() as int, self.spec_available())
    }

    /// The slot of a counter value.
    spec fn slot(&self, x: int) -> int {
        x % (self.size as int)
    }

    /// What the invariant gives callers.
    pub proof fn lemma_inv(&self)
        requires
            self.inv(),
        ensures
            self.spec_storage().len() == self.spec_size(),
            1 <= self.spec_size() <= usize::MAX,
            is_power_of_two(self.spec_size() as int),
    {
        lemma_pow2_pos(self.log_size@);
        lemma2_to64();
        vstd::bits::lemma_usize_pow2_no_overflow(self.log_size@);
        assert(pow2(self.log_size@) == self.spec_size());
    }

    /// The slot of a counter, computed with the mask.
    fn slot_of(&self, x: usize) -> (r: usize)
        requires
            self.inv(),
        ensures
            r == (x as int) % (self.spec_size() as int),
            r < self.spec_size(),
    {
        proof {
            lemma_usize_low_bits_mask_is_mod(x, self.log_size@);
            vstd::bits::lemma_usize_pow2_no_overflow(self.log_size@);
            lemma_pow2_pos(self.log_size@);
            assert(low_bits_mask(self.log_size@) == pow2(self.log_size@) - 1);
        }
        x & self.mask
    }

    /// Create a new wrapping ring buffer. The ring buffer size is specified
    /// in page size (4KB) and must be a power of 2.
    pub fn new(pages: usize) -> (r: Result<RingBuffer, StateError>)
        requires
            0 < pages,
            pages * PAGE_SIZE <= isize::MAX,
        ensures
            r is Ok <==> is_power_of_two(pages as int),
            r is Err ==> r == Err::<RingBuffer, StateError>(StateError::InvalidRingSize(pages)),
            r matches Ok(b) ==> {
                &&& b.inv()
                &&& b.spec_size() == pages * PAGE_SIZE
                &&& b.spec_head() == 0
                &&& b.spec_tail() == 0
                &&& b.spec_storage() == Seq::new(b.spec_size(), |i: int| 0u8)
            },
    {
        if pages & (pages - 1) != 0 {
            proof {
                if is_power_of_two(pages as int) {
                    let k = choose|k: nat| pow2(k) == pages;
                    lemma_power_of_two_bits(pages, k);
                }
            }
            return Err(StateError::InvalidRingSize(pages));
        }
        let ghost k = lemma_bits_power_of_two(pages);
        proof {
            lemma_pow2_adds(k, 12);
            lemma2_to64();
            assert(pow2(12) == 4096);
            if k + 12 >= usize::BITS {
                lemma_pow2_adds((usize::BITS - 12) as nat, 12);
                if k + 12 > usize::BITS {
                    lemma_pow2_strictly_increases((usize::BITS - 12) as nat, k);
                }
                assert(pow2((usize::BITS - 12) as nat) * 4096 == pow2(usize::BITS as nat));
                assert(false);
            }
            lemma_usize_shl_is_mul(pages, 12);
        }
        let bytes = pages << 12;
        let vec = vec![0u8; bytes];
        proof {
            assert(vec@ =~= Seq::new(bytes as nat, |i: int| 0u8));
        }
        Ok(RingBuffer { head: 0, tail: 0, size: bytes, mask: bytes - 1, vec, log_size: Ghost(k + 12) })
    }

    /// Create a new wrapping ring buffer of `bytes` bytes, a power of two.
    pub(crate) fn with_bytes(bytes: usize) -> (b: RingBuffer)
        requires
            is_power_of_two(bytes as int),
            bytes <= isize::MAX,
        ensures
            b.inv(),
            b.spec_size() == bytes,
            b.spec_head() == 0,
            b.spec_tail() == 0,
            b.spec_storage() == Seq::new(b.spec_size(), |i: int| 0u8),
    {
        let ghost k = choose|k: nat| pow2(k) == bytes;
        proof {
            lemma2_to64();
            if k >= usize::BITS {
                if k > usize::BITS {
                    lemma_pow2_strictly_increases(usize::BITS as nat, k);
                }
                assert(false);
            }
            lemma_pow2_pos(k);
        }
        let vec = vec![0u8; bytes];
        proof {
            assert(vec@ =~= Seq::new(bytes as nat, |i: int| 0u8));
        }
        RingBuffer { head: 0, tail: 0, size: bytes, mask: bytes - 1, vec, log_size: Ghost(k) }
    }

    /// Reads `count` bytes from self.vec, wrapping around the end of the Vec
    /// if necessary, into the start of `data`. Returns the number of bytes read.
    fn wrapped_read(&self, offset: usize, data: &mut [u8], count: usize) -> (r: usize)
        requires
            self.inv(),
            offset < self.spec_size(),
            count <= self.spec_size(),
            count <= old(data)@.len(),
        ensures
            r == count,
            final(data)@.len() == old(data)@.len(),
            final(data)@.take(count as int) == ring_read(self.spec_storage(), offset as int, count as nat),
            final(data)@.skip(count as int) == old(data)@.skip(count as int),
    {
        let size = self.size;
        let first = if count < size - offset {
            count
        } else {
            size - offset
        };
        let mut i: usize = 0;
        while i < count
            invariant
                self.inv(),
                size == self.size,
                offset < size,
                count <= size,
                count <= old(data)@.len(),
                first == if count < size - offset { count } else { (size - offset) as usize },
                i <= count,
                data@.len() == old(data)@.len(),
                forall|j: int| 0 <= j < i ==> data@[j] == self.vec@[(offset + j) % (size as int)],
                forall|j: int| i <= j < data@.len() ==> data@[j] == old(data)@[j],
            decreases count - i,
        {
            let src = if i < first {
                offset + i
            } else {
                i - first
            };
            proof {
                lemma_slot_diff(offset as int, i as int, size as int);
            }
            data[i] = self.vec[src];
            i = i + 1;
        }
        proof {
            assert(data@.take(count as int) =~= ring_read(self.vec@, offset as int, count as nat));
            assert(data@.skip(count as int) =~= old(data)@.skip(count as int));
        }
        count
    }

    /// Writes the first `count` bytes of `data` to self.vec[offset:],
    /// wrapping around the end of the Vec if necessary. Returns the number of
    /// bytes written.
    fn wrapped_write(&mut self, offset: usize, data: &[u8], count: usize) -> (r: usize)
        requires
            old(self).inv(),
            offset < old(self).spec_size(),
            count <= old(self).spec_size(),
            count <= data@.len(),
        ensures
            r == count,
            final(self).inv(),
            final(self).spec_head() == old(self).spec_head(),
            final(self).spec_tail() == old(self).spec_tail(),
            final(self).spec_size() == old(self).spec_size(),
            final(self).spec_storage() == ring_written(
                old(self).spec_storage(),
                offset as int,
                data@.take(count as int),
            ),
    {
        let size = self.size;
        let first = if count < size - offset {
            count
        } else {
            size - offset
        };
        let ghost s0 = self.vec@;
        let ghost d = data@.take(count as int);
        let mut i: usize = 0;
        while i < count
            invariant
                self.inv(),
                size == self.size,
                self.head == old(self).head,
                self.tail == old(self).tail,
                self.log_size == old(self).log_size,
                s0 == old(self).vec@,
                d == data@.take(count as int),
                offset < size,
                count <= size,
                count <= data@.len(),
                first == if count < size - offset { count } else { (size - offset) as usize },
                i <= count,
                forall|p: int|
                    0 <= p < size ==> #[trigger] self.vec@[p] == if (p - offset) % (size as int) < i {
                        d[(p - offset) % (size as int)]
                    } else {
                        s0[p]
                    },
            decreases count - i,
        {
            let dst = if i < first {
                offset + i
            } else {
                i - first
            };
            proof {
                lemma_slot_diff(offset as int, i as int, size as int);
            }
            let ghost before = self.vec@;
            self.vec.set(dst, data[i]);
            proof {
                assert forall|p: int| 0 <= p < size implies #[trigger] self.vec@[p] == if (p - offset) % (
                size as int) < i + 1 {
                    d[(p - offset) % (size as int)]
                } else {
                    s0[p]
                } by {
                    if p == dst {
                        assert((p - offset) % (size as int) == i);
                    } else {
                        assert(self.vec@[p] == before[p]);
                        if (p - offset) % (size as int) == i {
                            lemma_fundamental_div_mod(p - offset, size as int);
                            lemma_fundamental_div_mod(dst - offset, size as int);
                            lemma_slot_congruent(p, dst as int, offset as int, size as int);
                        }
                    }
                }
            }
            i = i + 1;
        }
        proof {
            assert(self.vec@ =~= ring_written(s0, offset as int, d));
        }
        count
    }

    /// Write data at an offset of the buffer. Do not use this function if
    /// you use `write_at_tail`/`read_from_head`.
    #[inline]
    pub fn write_at_offset(&mut self, offset: usize, data: &[u8]) -> (r: usize)
        requires
            old(self).inv(),
            offset < old(self).spec_size(),
            data@.len() <= old(self).spec_size(),
        ensures
            r == data@.len(),
            final(self).inv(),
            final(self).spec_head() == old(self).spec_head(),
            final(self).spec_tail() == old(self).spec_tail(),
            final(self).spec_size() == old(self).spec_size(),
            final(self).spec_storage() == ring_written(old(self).spec_storage(), offset as int, data@),
    {
        proof {
            assert(data@.take(data@.len() as int) =~= data@);
        }
        self.wrapped_write(offset, data, data.len())
    }

    /// Read data from offset of the buffer. Do not use if using
    /// `write_at_tail`/`read_from_head`
    #[inline]
    pub fn read_from_offset(&mut self, offset: usize, data: &mut [u8]) -> (r: usize)
        requires
            old(self).inv(),
            offset < old(self).spec_size(),
            old(data)@.len() <= old(self).spec_size(),
        ensures
            r == old(data)@.len(),
            *final(self) == *old(self),
            final(data)@ == ring_read(old(self).spec_storage(), offset as int, old(data)@.len()),
    {
        let n = data.len();
        let r = self.wrapped_read(offset, data, n);
        proof {
            assert(data@ =~= data@.take(n as int));
        }
        r
    }

    /// Write data at the end of the buffer. The amount of data written might
    /// be smaller than input: what fits before the head.
    #[inline]
    pub fn write_at_tail(&mut self, data: &[u8]) -> (r: usize)
        requires
            old(self).inv(),
            old(self).spec_available() < old(self).spec_size() || data@.len() <= old(
                self,
            ).spec_size(),
        ensures
            r == if data@.len() < old(self).spec_room() { data@.len() } else { old(self).spec_room() },
            final(self).inv(),
            final(self).spec_size() == old(self).spec_size(),
            final(self).spec_head() == old(self).spec_head(),
            final(self).spec_tail() == (old(self).spec_tail() + r) % counter_modulus(),
            final(self).spec_storage() == ring_written(
                old(self).spec_storage(),
                (old(self).spec_tail() as int) % (old(self).spec_size() as int),
                data@.take(r as int),
            ),
            old(self).spec_available() < old(self).spec_size() ==> final(self).spec_contents()
                == old(self).spec_contents() + data@.take(r as int),
    {
        proof {
            self.lemma_inv();
        }
        let available = self.mask.wrapping_add(self.head).wrapping_sub(self.tail);
        proof {
            self.lemma_room(available);
        }
        let write = if data.len() < available {
            data.len()
        } else {
            available
        };
        let offset = self.slot_of(self.tail);
        let ghost before = *self;
        self.seek_tail(write);
        let r = self.wrapped_write(offset, data, write);
        proof {
            if before.spec_available() < before.spec_size() {
                before.lemma_append(*self, data@.take(write as int));
            }
        }
        r
    }

    /// The room at the tail is what `mask + head - tail` gives on wrapping
    /// counters.
    proof fn lemma_room(&self, computed: usize)
        requires
            self.inv(),
            computed == (self.mask.wrapping_add(self.head)).wrapping_sub(self.tail),
        ensures
            computed == self.spec_room(),
            self.spec_available() < self.spec_size() ==> computed < self.spec_size(),
    {
        self.lemma_inv();
    }

    /// Bytes written at the tail, and the tail moved past them, follow the
    /// contents.
    proof fn lemma_append(self, after: RingBuffer, d: Seq<u8>)
        requires
            self.inv(),
            after.inv(),
            self.spec_available() < self.spec_size(),
            self.spec_available() + d.len() < self.spec_size(),
            after.size == self.size,
            after.head == self.head,
            after.tail == (self.tail + d.len()) % counter_modulus(),
            after.vec@ == ring_written(self.vec@, (self.tail as int) % (self.size as int), d),
        ensures
            after.spec_available() == self.spec_available() + d.len(),
            after.spec_contents() == self.spec_contents() + d,
    {
        let n = self.size as int;
        let a = self.spec_available() as int;
        self.lemma_inv();
        // the tail is `available` after the head, on the ring too
        assert(self.head + a == self.tail || self.head + a == self.tail + counter_modulus());
        assert(after.spec_available() == a + d.len()) by {
            if self.tail + d.len() < counter_modulus() {
                assert(after.tail == self.tail + d.len()) by {
                    lemma_small_mod((self.tail + d.len()) as nat, counter_modulus() as nat);
                }
            } else {
                assert(after.tail == self.tail + d.len() - counter_modulus()) by {
                    lemma_small_mod((self.tail + d.len() - counter_modulus()) as nat, counter_modulus() as nat);
                    lemma_mod_multiples_vanish(1, self.tail + d.len() - counter_modulus(), counter_modulus());
                }
            }
        }
        assert forall|i: int| 0 <= i < a + d.len() implies #[trigger] after.spec_contents()[i] == (
        self.spec_contents() + d)[i] by {
            let p = (self.head + i) % n;
            lemma_fundamental_div_mod(self.head + i, n);
            assert(0 <= p < n);
            // the slot of the i-th byte is i - a after the old tail
            assert((p - (self.tail as int) % n) % n == (i - a) % n) by {
                lemma_slot_congruence_shift(self.head as int, self.tail as int, a, i, n, self.log_size@);
            }
            if i < a {
                lemma_mod_range(i - a, n);
                assert((i - a) % n >= d.len()) by {
                    lemma_neg_mod(i - a, n);
                }
            } else {
                lemma_small_mod((i - a) as nat, n as nat);
            }
        }
        assert(after.spec_contents() =~= self.spec_contents() + d);
    }

    /// Counter values a whole number of wraps apart fall in the same slot.
    pub proof fn lemma_slot_shift(&self, x: int, c: int)
        requires
            self.inv(),
        ensures
            (x + c * counter_modulus()) % (self.spec_size() as int) == x % (self.spec_size() as int),
    {
        lemma_slot_wraps(x, c, self.log_size@);
    }

    /// Moving the tail on by `n` adds to the contents the `n` bytes of the
    /// storage from the old tail's slot on.
    pub proof fn lemma_seek_tail_contents(self, after: RingBuffer, n: nat)
        requires
            self.inv(),
            after.inv(),
            self.spec_available() + n < self.spec_size(),
            after.spec_size() == self.spec_size(),
            after.spec_storage() == self.spec_storage(),
            after.spec_head() == self.spec_head(),
            after.spec_tail() == (self.spec_tail() + n) % counter_modulus(),
        ensures
            after.spec_available() == self.spec_available() + n,
            after.spec_contents() == self.spec_contents() + ring_read(
                self.spec_storage(),
                self.spec_tail() as int,
                n,
            ),
    {
        let size = self.size as int;
        let a = self.spec_available() as int;
        let m = counter_modulus();
        self.lemma_inv();
        assert(self.head + a == self.tail || self.head + a == self.tail + m);
        if self.tail + n < m {
            lemma_small_mod((self.tail + n) as nat, m as nat);
        } else {
            lemma_small_mod((self.tail + n - m) as nat, m as nat);
            lemma_mod_multiples_vanish(1, self.tail + n - m, m);
        }
        assert(after.spec_available() == a + n);
        let extra = ring_read(self.vec@, self.tail as int, n);
        assert forall|i: int| 0 <= i < a + n implies #[trigger] after.spec_contents()[i] == (
        self.spec_contents() + extra)[i] by {
            if i >= a {
                if self.head + a == self.tail + m {
                    lemma_slot_wraps(self.tail + (i - a), 1, self.log_size@);
                    assert(self.head + i == self.tail + (i - a) + 1 * m);
                }
            }
        }
        assert(after.spec_contents() =~= self.spec_contents() + extra);
    }

    /// Bytes written beyond the tail, within the room, leave the contents as
    /// they were.
    pub proof fn lemma_write_ahead_contents(self, after: RingBuffer, off: nat, d: Seq<u8>)
        requires
            self.inv(),
            after.inv(),
            self.spec_available() < self.spec_size(),
            off + d.len() <= self.spec_room(),
            after.spec_size() == self.spec_size(),
            after.spec_head() == self.spec_head(),
            after.spec_tail() == self.spec_tail(),
            after.spec_storage() == ring_written(
                self.spec_storage(),
                (self.spec_tail() + off) % (self.spec_size() as int),
                d,
            ),
        ensures
            after.spec_contents() == self.spec_contents(),
    {
        let size = self.size as int;
        let a = self.spec_available() as int;
        let m = counter_modulus();
        self.lemma_inv();
        lemma_pow2_pos(self.log_size@);
        assert(self.head + a == self.tail || self.head + a == self.tail + m);
        assert forall|i: int| 0 <= i < a implies #[trigger] after.spec_contents()[i]
            == self.spec_contents()[i] by {
            let p = (self.head + i) % size;
            lemma_mod_range(self.head + i, size);
            let q = (self.tail + off) % size;
            // p lies i - a - off slots after q, that is before it
            if self.head + a == self.tail + m {
                lemma_slot_wraps(self.tail + off, 1, self.log_size@);
                assert(self.head + a + off == self.tail + off + 1 * m);
            }
            assert(q == (self.head + a + off) % size);
            vstd::arithmetic::div_mod::lemma_sub_mod_noop(self.head + i, self.head + a + off, size);
            assert((p - q) % size == (i - a - off) % size) by {
                lemma_mod_range(self.head + a + off, size);
                vstd::arithmetic::div_mod::lemma_sub_mod_noop(self.head + i, self.head + a + off, size);
                lemma_mod_add_left(p - (self.head + a + off) % size, 0, size);
            }
            lemma_neg_mod(i - a - off as int, size);
        }
        assert(after.spec_contents() =~= self.spec_contents());
    }

    /// Write at an offset from the tail, useful when dealing with
    /// out-of-order data. Note, the caller is responsible for progressing the
    /// tail sufficiently (using `seek_tail`) when gaps are filled.
    #[inline]
    pub fn write_at_offset_from_tail(&mut self, offset: usize, data: &[u8]) -> (r: usize)
        requires
            old(self).inv(),
            old(self).spec_available() < old(self).spec_size() || data@.len() <= old(
                self,
            ).spec_size(),
        ensures
            final(self).inv(),
            final(self).spec_size() == old(self).spec_size(),
            final(self).spec_head() == old(self).spec_head(),
            final(self).spec_tail() == old(self).spec_tail(),
            old(self).spec_room() < offset ==> r == 0 && final(self).spec_storage() == old(
                self,
            ).spec_storage(),
            offset <= old(self).spec_room() ==> {
                &&& r == if data@.len() < old(self).spec_room() - offset {
                    data@.len() as int
                } else {
                    old(self).spec_room() - offset
                }
                &&& final(self).spec_storage() == ring_written(
                    old(self).spec_storage(),
                    (old(self).spec_tail() + offset) % (old(self).spec_size() as int),
                    data@.take(r as int),
                )
            },
    {
        proof {
            self.lemma_inv();
        }
        let available = self.mask.wrapping_add(self.head).wrapping_sub(self.tail);
        proof {
            self.lemma_room(available);
        }
        if available < offset {
            0
        } else {
            let offset_tail = self.tail.wrapping_add(offset);
            let available_at_offset = self.mask.wrapping_add(self.head).wrapping_sub(offset_tail);
            proof {
                lemma_room_shift(self.mask, self.head, self.tail, offset, available);
            }
            let write = if data.len() < available_at_offset {
                data.len()
            } else {
                available_at_offset
            };
            let index = self.slot_of(offset_tail);
            proof {
                lemma_slot_wraps(self.tail + offset, -1, self.log_size@);
                if self.tail + offset > usize::MAX {
                    assert(offset_tail == self.tail + offset - counter_modulus());
                }
            }
            self.wrapped_write(index, data, write)
        }
    }

    /// Data available to be read.
    #[inline]
    pub fn available(&self) -> (r: usize)
        ensures
            r == self.spec_available(),
    {
        self.tail.wrapping_sub(self.head)
    }

    /// The slot the head reads from.
    #[inline]
    fn read_offset(&self) -> (r: usize)
        requires
            self.inv(),
        ensures
            r == (self.spec_head() as int) % (self.spec_size() as int),
            r < self.spec_size(),
    {
        self.slot_of(self.head)
    }

    /// Read from the buffer, incrementing the read head by `increment`
    /// bytes (at most by the bytes read). Returns bytes read.
    #[inline]
    pub fn read_from_head_with_increment(&mut self, data: &mut [u8], increment: usize) -> (r: usize)
        requires
            old(self).inv(),
            old(self).spec_available() <= old(self).spec_size() || old(data)@.len() <= old(
                self,
            ).spec_size(),
        ensures
            r == if old(self).spec_available() < old(data)@.len() {
                old(self).spec_available() as int
            } else {
                old(data)@.len() as int
            },
            final(self).inv(),
            final(self).spec_size() == old(self).spec_size(),
            final(self).spec_storage() == old(self).spec_storage(),
            final(self).spec_tail() == old(self).spec_tail(),
            final(self).spec_head() == (old(self).spec_head() + if increment < r {
                increment as int
            } else {
                r as int
            }) % counter_modulus(),
            final(data)@.len() == old(data)@.len(),
            final(data)@.take(r as int) == old(self).spec_contents().take(r as int),
            final(data)@.skip(r as int) == old(data)@.skip(r as int),
            final(self).spec_contents() == old(self).spec_contents().skip(
                if increment < r {
                    increment as int
                } else {
                    r as int
                },
            ),
    {
        proof {
            self.lemma_inv();
        }
        let offset = self.read_offset();
        let avail = self.available();
        let to_read = if avail < data.len() {
            avail
        } else {
            data.len()
        };
        let step = if increment < to_read {
            increment
        } else {
            to_read
        };
        let ghost before = *self;
        proof {
            lemma_wrapping_add(self.head, step);
        }
        self.head = self.head.wrapping_add(step);
        let r = self.wrapped_read(offset, data, to_read);
        proof {
            before.lemma_read_prefix(to_read as nat);
            before.lemma_advance(*self, step as nat);
            assert(data@.take(r as int) =~= before.spec_contents().take(r as int));
        }
        r
    }

    /// The first bytes of the contents are those read from the head's slot.
    proof fn lemma_read_prefix(self, count: nat)
        requires
            self.inv(),
            count <= self.spec_available(),
            count <= self.spec_size(),
        ensures
            ring_read(self.vec@, (self.head as int) % (self.size as int), count) == self.spec_contents().take(
                count as int,
            ),
    {
        let n = self.size as int;
        assert forall|i: int| 0 <= i < count implies #[trigger] ring_read(
            self.vec@,
            (self.head as int) % n,
            count,
        )[i] == self.spec_contents()[i] by {
            lemma_mod_add_left(self.head as int, i, n);
        }
        assert(ring_read(self.vec@, (self.head as int) % n, count) =~= self.spec_contents().take(count as int));
    }

    /// Moving the head on by `step` bytes of the contents drops them.
    proof fn lemma_advance(self, after: RingBuffer, step: nat)
        requires
            self.inv(),
            step <= self.spec_available(),
            after.vec@ == self.vec@,
            after.size == self.size,
            after.tail == self.tail,
            after.head == (self.head + step) % counter_modulus(),
        ensures
            after.spec_available() == self.spec_available() - step,
            after.spec_contents() == self.spec_contents().skip(step as int),
    {
        let n = self.size as int;
        let m = counter_modulus();
        let wrapped = self.head + step >= m;
        if wrapped {
            assert(after.head == self.head + step - m) by {
                lemma_small_mod((self.head + step - m) as nat, m as nat);
                lemma_mod_multiples_vanish(1, self.head + step - m, m);
            }
        } else {
            assert(after.head == self.head + step) by {
                lemma_small_mod((self.head + step) as nat, m as nat);
            }
        }
        assert(after.spec_available() == self.spec_available() - step);
        assert forall|i: int| 0 <= i < after.spec_available() implies #[trigger] after.spec_contents()[i]
            == self.spec_contents()[i + step] by {
            self.lemma_inv();
            if wrapped {
                lemma_slot_wraps(self.head + step + i, -1, self.log_size@);
                assert(after.head + i == self.head + step + i + (-1) * m);
            }
        }
        assert(after.spec_contents() =~= self.spec_contents().skip(step as int));
    }

    /// Read from the buffer, incrementing the read head. Returns bytes read.
    #[inline]
    pub fn read_from_head(&mut self, data: &mut [u8]) -> (r: usize)
        requires
            old(self).inv(),
            old(self).spec_available() <= old(self).spec_size() || old(data)@.len() <= old(
                self,
            ).spec_size(),
        ensures
            r == if old(self).spec_available() < old(data)@.len() {
                old(self).spec_available() as int
            } else {
                old(data)@.len() as int
            },
            final(self).inv(),
            final(self).spec_size() == old(self).spec_size(),
            final(self).spec_storage() == old(self).spec_storage(),
            final(self).spec_tail() == old(self).spec_tail(),
            final(self).spec_head() == (old(self).spec_head() + r) % counter_modulus(),
            final(data)@.len() == old(data)@.len(),
            final(data)@.take(r as int) == old(self).spec_contents().take(r as int),
            final(data)@.skip(r as int) == old(data)@.skip(r as int),
            final(self).spec_contents() == old(self).spec_contents().skip(r as int),
    {
        let len = data.len();
        self.read_from_head_with_increment(data, len)
    }

    /// Seek the read head by `seek` bytes (without actually reading any
    /// data). `seek` must be less-than-or-equal to the number of available
    /// bytes.
    #[inline]
    pub fn seek_head(&mut self, seek: usize)
        requires
            old(self).inv(),
            seek <= old(self).spec_available(),
        ensures
            final(self).inv(),
            final(self).spec_size() == old(self).spec_size(),
            final(self).spec_storage() == old(self).spec_storage(),
            final(self).spec_tail() == old(self).spec_tail(),
            final(self).spec_head() == (old(self).spec_head() + seek) % counter_modulus(),
            final(self).spec_contents() == old(self).spec_contents().skip(seek as int),
    {
        let ghost before = *self;
        proof {
            lemma_wrapping_add(self.head, seek);
        }
        self.head = self.head.wrapping_add(seek);
        proof {
            before.lemma_advance(*self, seek as nat);
        }
    }

    /// Length of the ring buffer.
    #[inline]
    pub fn len(&self) -> (r: usize)
        ensures
            r == self.spec_size(),
    {
        self.size
    }

    /// In cases with out-of-order data this allows the write head (and hence
    /// the amount of available data) to be progressed without writing
    /// anything.
    #[inline]
    pub fn seek_tail(&mut self, increment_by: usize)
        requires
            old(self).inv(),
        ensures
            final(self).inv(),
            final(self).spec_size() == old(self).spec_size(),
            final(self).spec_storage() == old(self).spec_storage(),
            final(self).spec_head() == old(self).spec_head(),
            final(self).spec_tail() == (old(self).spec_tail() + increment_by) % counter_modulus(),
    {
        proof {
            lemma_wrapping_add(self.tail, increment_by);
        }
        self.tail = self.tail.wrapping_add(increment_by);
    }

    /// Empties the buffer: head and tail go back to the start.
    #[inline]
    pub fn clear(&mut self)
        requires
            old(self).inv(),
        ensures
            final(self).inv(),
            final(self).spec_size() == old(self).spec_size(),
            final(self).spec_storage() == old(self).spec_storage(),
            final(self).spec_head() == 0,
            final(self).spec_tail() == 0,
            final(self).spec_contents() == Seq::<u8>::empty(),
    {
        self.head = 0;
        self.tail = 0;
        proof {
            assert(self.spec_contents() =~= Seq::<u8>::empty());
        }
    }
}

/// A power of two passes the test that it shares no bit with its
/// predecessor.
proof fn lemma_power_of_two_bits(n: usize, k: nat)
    requires
        pow2(k) == n,
    ensures
        n & ((n - 1) as usize) == 0,
{
    if k >= usize::BITS {
        lemma2_to64();
        if k > usize::BITS {
            lemma_pow2_strictly_increases(usize::BITS as nat, k);
        }
        assert(false);
    }
    lemma_usize_low_bits_mask_is_mod(n, k);
    lemma_pow2_pos(k);
    vstd::bits::lemma_usize_pow2_no_overflow(k);
    assert(low_bits_mask(k) == pow2(k) - 1);
    assert(n % n == 0) by {
        vstd::arithmetic::div_mod::lemma_mod_self_0(n as int);
    }
}

/// A positive number that shares no bit with its predecessor is a power of
/// two.
proof fn lemma_bits_power_of_two(n: usize) -> (k: nat)
    requires
        0 < n,
        n & ((n - 1) as usize) == 0,
    ensures
        pow2(k) == n,
    decreases n,
{
    if n == 1 {
        lemma2_to64();
        0
    } else {
        assert(n % 2 == 0 && n / 2 > 0 && (n / 2) & ((n / 2 - 1) as usize) == 0) by (bit_vector)
            requires
                n > 1,
                n & ((n - 1) as usize) == 0,
        ;
        let k = lemma_bits_power_of_two(n / 2);
        vstd::arithmetic::power2::lemma_pow2_unfold(k + 1);
        k + 1
    }
}

/// Slots of values congruent modulo the ring size are the same, and the
/// other way round.
proof fn lemma_slot_congruent(p: int, q: int, offset: int, n: int)
    requires
        0 < n,
        0 <= p < n,
        0 <= q < n,
        (p - offset) % n == (q - offset) % n,
    ensures
        p == q,
{
    lemma_fundamental_div_mod(p - offset, n);
    lemma_fundamental_div_mod(q - offset, n);
    let a = (p - offset) / n;
    let b = (q - offset) / n;
    assert(p - q == n * a - n * b);
    assert(p - q == n * (a - b)) by (nonlinear_arith)
        requires
            p - q == n * a - n * b,
    ;
    if a != b {
        assert(false) by (nonlinear_arith)
            requires
                p - q == n * (a - b),
                a != b,
                -n < p - q < n,
                0 < n,
        ;
    }
}

/// `(x % n + i) % n == (x + i) % n`.
proof fn lemma_mod_add_left(x: int, i: int, n: int)
    requires
        0 < n,
    ensures
        (x % n + i) % n == (x + i) % n,
{
    lemma_fundamental_div_mod(x, n);
    let q = x / n;
    assert(x + i == n * q + (x % n + i));
    lemma_mod_multiples_vanish(q, x % n + i, n);
}

/// The remainder lies in `[0, n)`.
proof fn lemma_mod_range(x: int, n: int)
    requires
        0 < n,
    ensures
        0 <= x % n < n,
{
    lemma_fundamental_div_mod(x, n);
}

/// A negative number above `-n` leaves `x + n`.
proof fn lemma_neg_mod(x: int, n: int)
    requires
        0 < n,
        -n <= x < 0,
    ensures
        x % n == x + n,
{
    lemma_small_mod((x + n) as nat, n as nat);
    lemma_mod_multiples_vanish(-1, x + n, n);
}

/// With the tail `a` after the head on wrapping counters, the slot of the
/// `i`-th byte from the head lies `i - a` after the tail's slot.
proof fn lemma_slot_congruence_shift(head: int, tail: int, a: int, i: int, n: int, k: nat)
    requires
        n == pow2(k),
        k < usize::BITS,
        head + a == tail || head + a == tail + counter_modulus(),
        0 <= i,
    ensures
        ((head + i) % n - tail % n) % n == (i - a) % n,
{
    lemma_pow2_pos(k);
    if head + a == tail + counter_modulus() {
        lemma_slot_wraps(tail, 1, k);
    }
    assert(tail % n == (head + a) % n);
    // both sides are (head + i) - (head + a) modulo n
    vstd::arithmetic::div_mod::lemma_sub_mod_noop(head + i, head + a, n);
}

/// A wrapping addition of counters is the sum modulo the counters' range.
proof fn lemma_wrapping_add(x: usize, y: usize)
    ensures
        x.wrapping_add(y) == (x + y) % counter_modulus(),
{
    let m = counter_modulus();
    if x + y >= m {
        lemma_small_mod((x + y - m) as nat, m as nat);
        lemma_mod_multiples_vanish(1, x + y - m, m);
    } else {
        lemma_small_mod((x + y) as nat, m as nat);
    }
}

/// The room left at an offset from the tail is the room at the tail less
/// the offset.
proof fn lemma_room_shift(mask: usize, head: usize, tail: usize, offset: usize, room: usize)
    requires
        room == (mask.wrapping_add(head)).wrapping_sub(tail),
        offset <= room,
    ensures
        (mask.wrapping_add(head)).wrapping_sub(tail.wrapping_add(offset)) == room - offset,
{
}

} // verus!
