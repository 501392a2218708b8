//! The message buffer that holds one packet: its data bytes, with room to
//! grow at either end.
use vstd::prelude::*;

verus! {

/// Bytes reserved in front of the data of a newly allocated buffer.
pub const MBUF_HEADROOM: usize = 128;

/// Bytes of data room of a newly allocated buffer, the headroom included.
pub const MBUF_BUF_LEN: usize = 2176;

/// A message buffer: the packet's data, with `headroom` free bytes in front
/// of it and the rest of `buf_len` free behind it.
#[derive(Debug)]
pub struct MBuf {
    data: Vec<u8>,
    headroom: usize,
    buf_len: usize,
}

/// `n` zero bytes.
pub open spec fn zeros(n: nat) -> Seq<u8> {
    Seq::new(n, |i: int| 0u8)
}

/// `s` with the `count` bytes at `src` copied to `dst` (as by `memmove`).
pub open spec fn copy_within_spec(s: Seq<u8>, src: nat, dst: nat, count: nat) -> Seq<u8> {
    Seq::new(
        s.len(),
        |i: int|
            if dst <= i < dst + count {
                s[src + (i - dst)]
            } else {
                s[i]
            },
    )
}

/// `s` with `bytes` written from `pos` on.
pub open spec fn splice(s: Seq<u8>, pos: nat, bytes: Seq<u8>) -> Seq<u8> {
    Seq::new(
        s.len(),
        |i: int|
            if pos <= i < pos + bytes.len() {
                bytes[i - pos]
            } else {
                s[i]
            },
    )
}

impl MBuf {
    /// The headroom, the data and the tailroom fit in the buffer.
    pub closed spec fn wf(&self) -> bool {
        &&& self.headroom + self.data.len() <= self.buf_len
        &&& self.buf_len == MBUF_BUF_LEN
    }

    /// A well-formed buffer holds at most `MBUF_BUF_LEN` bytes of data.
    pub proof fn lemma_len_bound(&self)
        requires
            self.wf(),
        ensures
            self.view().len() + self.spec_headroom() + self.spec_tailroom() == MBUF_BUF_LEN,
    {
    }

    /// The data bytes.
    pub closed spec fn view(&self) -> Seq<u8> {
        self.data@
    }

    /// Free bytes in front of the data.
    pub closed spec fn spec_headroom(&self) -> nat {
        self.headroom as nat
    }

    /// Free bytes behind the data.
    pub closed spec fn spec_tailroom(&self) -> nat {
        (self.buf_len - self.headroom - self.data.len()) as nat
    }

    /// Allocates a new, empty buffer.
    pub fn new() -> (r: MBuf)
        ensures
            r.wf(),
            r.view() == Seq::<u8>::empty(),
            r.spec_headroom() == MBUF_HEADROOM,
            r.spec_tailroom() == MBUF_BUF_LEN - MBUF_HEADROOM,
    {
        MBuf { data: Vec::new(), headroom: MBUF_HEADROOM, buf_len: MBUF_BUF_LEN }
    }

    /// Length of the data.
    pub fn data_len(&self) -> (r: usize)
        ensures
            r == self.view().len(),
    {
        self.data.len()
    }

    /// The data bytes.
    pub fn data(&self) -> (r: &[u8])
        ensures
            r@ == self.view(),
    {
        self.data.as_slice()
    }

    /// Free bytes behind the data.
    pub fn tailroom(&self) -> (r: usize)
        requires
            self.wf(),
        ensures
            r == self.spec_tailroom(),
    {
        self.buf_len - self.headroom - self.data.len()
    }

    /// Free bytes in front of the data.
    pub fn headroom(&self) -> (r: usize)
        ensures
            r == self.spec_headroom(),
    {
        self.headroom
    }

    /// Grows the data by `len` zero bytes at its end when there is room;
    /// returns the number of bytes added (`len`, or 0 when there is no room).
    pub fn add_data_end(&mut self, len: usize) -> (r: usize)
        requires
            old(self).wf(),
        ensures
            final(self).wf(),
            len <= old(self).spec_tailroom() ==> {
                &&& r == len
                &&& final(self).view() == old(self).view() + zeros(len as nat)
                &&& final(self).spec_headroom() == old(self).spec_headroom()
                &&& final(self).spec_tailroom() == old(self).spec_tailroom() - len
            },
            len > old(self).spec_tailroom() ==> r == 0 && *final(self) == *old(self),
    {
        let room = self.buf_len - self.headroom - self.data.len();
        if len <= room {
            let mut i: usize = 0;
            let ghost d0 = self.data@;
            while i < len
                invariant
                    i <= len,
                    self.data@ == d0 + zeros(i as nat),
                    self.headroom == old(self).headroom,
                    self.buf_len == old(self).buf_len,
                    d0 == old(self).data@,
                    len <= old(self).buf_len - old(self).headroom - d0.len(),
                decreases len - i,
            {
                self.data.push(0);
                i = i + 1;
                assert(self.data@ =~= d0 + zeros(i as nat));
            }
            len
        } else {
            0
        }
    }

    /// Shrinks the data by `len` bytes at its end; returns the number of
    /// bytes removed (`len`, or 0 when the data is shorter than `len`).
    pub fn remove_data_end(&mut self, len: usize) -> (r: usize)
        requires
            old(self).wf(),
        ensures
            final(self).wf(),
            len <= old(self).view().len() ==> {
                &&& r == len
                &&& final(self).view() == old(self).view().take(old(self).view().len() - len)
                &&& final(self).spec_headroom() == old(self).spec_headroom()
                &&& final(self).spec_tailroom() == old(self).spec_tailroom() + len
            },
            len > old(self).view().len() ==> r == 0 && *final(self) == *old(self),
    {
        if len <= self.data.len() {
            let new_len = self.data.len() - len;
            self.data.truncate(new_len);
            len
        } else {
            0
        }
    }

    /// Grows the data by `len` zero bytes in front of it when the headroom
    /// allows; returns the number of bytes added (`len`, or 0).
    pub fn add_data_beginning(&mut self, len: usize) -> (r: usize)
        requires
            old(self).wf(),
        ensures
            final(self).wf(),
            len <= old(self).spec_headroom() ==> {
                &&& r == len
                &&& final(self).view() == zeros(len as nat) + old(self).view()
                &&& final(self).spec_headroom() == old(self).spec_headroom() - len
                &&& final(self).spec_tailroom() == old(self).spec_tailroom()
            },
            len > old(self).spec_headroom() ==> r == 0 && *final(self) == *old(self),
    {
        if len <= self.headroom {
            let mut v: Vec<u8> = Vec::new();
            let mut i: usize = 0;
            while i < len
                invariant
                    i <= len,
                    v@ == zeros(i as nat),
                decreases len - i,
            {
                v.push(0);
                i = i + 1;
                assert(v@ =~= zeros(i as nat));
            }
            let mut j: usize = 0;
            let ghost d0 = self.data@;
            while j < self.data.len()
                invariant
                    j <= d0.len(),
                    self.data@ == d0,
                    v@ == zeros(len as nat) + d0.take(j as int),
                decreases d0.len() - j,
            {
                v.push(self.data[j]);
                j = j + 1;
                assert(v@ =~= zeros(len as nat) + d0.take(j as int));
            }
            assert(d0.take(d0.len() as int) =~= d0);
            self.data = v;
            self.headroom = self.headroom - len;
            len
        } else {
            0
        }
    }

    /// Shrinks the data by `len` bytes at its front; returns the number of
    /// bytes removed (`len`, or 0 when the data is shorter than `len`).
    pub fn remove_data_beginning(&mut self, len: usize) -> (r: usize)
        requires
            old(self).wf(),
        ensures
            final(self).wf(),
            len <= old(self).view().len() ==> {
                &&& r == len
                &&& final(self).view() == old(self).view().skip(len as int)
                &&& final(self).spec_headroom() == old(self).spec_headroom() + len
                &&& final(self).spec_tailroom() == old(self).spec_tailroom()
            },
            len > old(self).view().len() ==> r == 0 && *final(self) == *old(self),
    {
        if len <= self.data.len() {
            let mut v: Vec<u8> = Vec::new();
            let mut j: usize = len;
            let ghost d0 = self.data@;
            while j < self.data.len()
                invariant
                    len <= j <= d0.len(),
                    self.data@ == d0,
                    v@ == d0.subrange(len as int, j as int),
                decreases d0.len() - j,
            {
                v.push(self.data[j]);
                j = j + 1;
                assert(v@ =~= d0.subrange(len as int, j as int));
            }
            assert(d0.subrange(len as int, d0.len() as int) =~= d0.skip(len as int));
            self.data = v;
            self.headroom = self.headroom + len;
            len
        } else {
            0
        }
    }

    /// Writes `bytes` into the data from `pos` on.
    pub fn set_bytes(&mut self, pos: usize, bytes: &[u8])
        requires
            old(self).wf(),
            pos + bytes@.len() <= old(self).view().len(),
        ensures
            final(self).wf(),
            final(self).view() == splice(old(self).view(), pos as nat, bytes@),
            final(self).spec_headroom() == old(self).spec_headroom(),
            final(self).spec_tailroom() == old(self).spec_tailroom(),
    {
        let mut i: usize = 0;
        let ghost d0 = self.data@;
        let total = self.data.len();
        while i < bytes.len()
            invariant
                d0.len() == total,
                i <= bytes@.len(),
                pos + bytes@.len() <= d0.len(),
                self.data@.len() == d0.len(),
                self.headroom == old(self).headroom,
                self.buf_len == old(self).buf_len,
                d0 == old(self).data@,
                forall|k: int|
                    0 <= k < d0.len() ==> self.data@[k] == if pos <= k < pos + i {
                        bytes@[k - pos]
                    } else {
                        d0[k]
                    },
            decreases bytes@.len() - i,
        {
            self.data.set(pos + i, bytes[i]);
            i = i + 1;
        }
        assert(self.data@ =~= splice(d0, pos as nat, bytes@));
    }

    /// Copies the `count` bytes at `src` to `dst`, the ranges possibly
    /// overlapping.
    pub fn copy_within(&mut self, src: usize, dst: usize, count: usize)
        requires
            old(self).wf(),
            src + count <= old(self).view().len(),
            dst + count <= old(self).view().len(),
        ensures
            final(self).wf(),
            final(self).view() == copy_within_spec(old(self).view(), src as nat, dst as nat, count as nat),
            final(self).spec_headroom() == old(self).spec_headroom(),
            final(self).spec_tailroom() == old(self).spec_tailroom(),
    {
        let ghost d0 = self.data@;
        let total = self.data.len();
        if dst <= src {
            let mut i: usize = 0;
            while i < count
                invariant
                    dst <= src,
                    d0.len() == total,
                    i <= count,
                    src + count <= d0.len(),
                    dst + count <= d0.len(),
                    self.data@.len() == d0.len(),
                    self.headroom == old(self).headroom,
                    self.buf_len == old(self).buf_len,
                    d0 == old(self).data@,
                    forall|k: int|
                        0 <= k < d0.len() ==> self.data@[k] == if dst <= k < dst + i {
                            d0[src + (k - dst)]
                        } else {
                            d0[k]
                        },
                decreases count - i,
            {
                let b = self.data[src + i];
                self.data.set(dst + i, b);
                i = i + 1;
            }
        } else {
            let mut i: usize = count;
            while i > 0
                invariant
                    dst > src,
                    d0.len() == total,
                    i <= count,
                    src + count <= d0.len(),
                    dst + count <= d0.len(),
                    self.data@.len() == d0.len(),
                    self.headroom == old(self).headroom,
                    self.buf_len == old(self).buf_len,
                    d0 == old(self).data@,
                    forall|k: int|
                        0 <= k < d0.len() ==> self.data@[k] == if dst + i <= k < dst + count {
                            d0[src + (k - dst)]
                        } else {
                            d0[k]
                        },
                decreases i,
            {
                i = i - 1;
                let b = self.data[src + i];
                self.data.set(dst + i, b);
            }
        }
        assert(self.data@ =~= copy_within_spec(d0, src as nat, dst as nat, count as nat));
    }
}


/// The big-endian 16-bit number at `i`.
pub open spec fn be16(s: Seq<u8>, i: int) -> u16 {
    ((s[i] as nat) * 256 + s[i + 1] as nat) as u16
}

/// The big-endian 32-bit number at `i`.
pub open spec fn be32(s: Seq<u8>, i: int) -> u32 {
    ((s[i] as nat) * 0x100_0000 + (s[i + 1] as nat) * 0x1_0000 + (s[i + 2] as nat) * 0x100 + s[i
        + 3] as nat) as u32
}

/// The big-endian bytes of a 16-bit number.
pub open spec fn be16_bytes(v: u16) -> Seq<u8> {
    seq![(v / 256) as u8, (v % 256) as u8]
}

/// The big-endian bytes of a 32-bit number.
pub open spec fn be32_bytes(v: u32) -> Seq<u8> {
    seq![(v / 0x100_0000) as u8, ((v / 0x1_0000) % 256) as u8, ((v / 256) % 256) as u8, (v % 256) as u8]
}

/// The big-endian bytes of a 16-bit number.
pub fn u16_to_be(v: u16) -> (r: [u8; 2])
    ensures
        r@ == be16_bytes(v),
{
    let r = [(v / 256) as u8, (v % 256) as u8];
    assert(r@ =~= be16_bytes(v));
    r
}

/// The big-endian bytes of a 32-bit number.
pub fn u32_to_be(v: u32) -> (r: [u8; 4])
    ensures
        r@ == be32_bytes(v),
{
    let r = [(v / 0x100_0000) as u8, ((v / 0x1_0000) % 256) as u8, ((v / 256) % 256) as u8, (v % 256) as u8];
    assert(r@ =~= be32_bytes(v));
    r
}

/// Writing the big-endian bytes of a number and reading it back gives the number.
pub proof fn lemma_be16_roundtrip(s: Seq<u8>, pos: nat, v: u16)
    requires
        pos + 2 <= s.len(),
    ensures
        be16(splice(s, pos, be16_bytes(v)), pos as int) == v,
{
    let t = splice(s, pos, be16_bytes(v));
    assert(t[pos as int] == (v / 256) as u8);
    assert(t[pos + 1 as int] == (v % 256) as u8);
}

/// Writing the big-endian bytes of a number and reading it back gives the number.
pub proof fn lemma_be32_roundtrip(s: Seq<u8>, pos: nat, v: u32)
    requires
        pos + 4 <= s.len(),
    ensures
        be32(splice(s, pos, be32_bytes(v)), pos as int) == v,
{
    let t = splice(s, pos, be32_bytes(v));
    assert(t[pos as int] == (v / 0x100_0000) as u8);
    assert(t[pos + 1 as int] == ((v / 0x1_0000) % 256) as u8);
    assert(t[pos + 2 as int] == ((v / 256) % 256) as u8);
    assert(t[pos + 3 as int] == (v % 256) as u8);
}

impl MBuf {
    /// The byte at `pos`.
    pub fn read_u8(&self, pos: usize) -> (r: u8)
        requires
            pos < self.view().len(),
        ensures
            r == self.view()[pos as int],
    {
        self.data[pos]
    }

    /// The big-endian 16-bit number at `pos`.
    pub fn read_be16(&self, pos: usize) -> (r: u16)
        requires
            pos + 2 <= self.view().len(),
        ensures
            r == be16(self.view(), pos as int),
    {
        let _n = self.data.len();
        (self.data[pos] as u16) * 256 + self.data[pos + 1] as u16
    }

    /// The big-endian 32-bit number at `pos`.
    pub fn read_be32(&self, pos: usize) -> (r: u32)
        requires
            pos + 4 <= self.view().len(),
        ensures
            r == be32(self.view(), pos as int),
    {
        let _n = self.data.len();
        (self.data[pos] as u32) * 0x100_0000 + (self.data[pos + 1] as u32) * 0x1_0000
            + (self.data[pos + 2] as u32) * 0x100 + self.data[pos + 3] as u32
    }

    /// A copy of the `count` bytes at `pos`.
    pub fn read_bytes(&self, pos: usize, count: usize) -> (r: Vec<u8>)
        requires
            pos + count <= self.view().len(),
        ensures
            r@ == self.view().subrange(pos as int, pos + count),
    {
        let mut v: Vec<u8> = Vec::new();
        let mut i: usize = 0;
        let n = self.data.len();
        while i < count
            invariant
                n == self.view().len(),
                i <= count,
                pos + count <= self.view().len(),
                v@ == self.view().subrange(pos as int, pos + i),
            decreases count - i,
        {
            v.push(self.data[pos + i]);
            i = i + 1;
            assert(v@ =~= self.view().subrange(pos as int, pos + i));
        }
        v
    }
}

} // verus!
