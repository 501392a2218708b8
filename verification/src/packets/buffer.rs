//! Bound-checked access to the message buffer, and growing or shrinking it
//! in the middle of its data.
use crate::packets::mbuf::{copy_within_spec, splice, zeros, MBuf};
use crate::packets::Fixed;
use vstd::prelude::*;

verus! {

/// Errors related to message buffer access
#[derive(Debug, Clone, Copy, PartialEq, Eq)]
pub enum BufferError {
    /// Failed to allocate a new buffer
    FailAlloc,
    /// The offset is larger than the buffer length
    BadOffset(usize),
    /// Failed to resize the buffer
    NotResized,
    /// The struct is larger than the remaining buffer length
    OutOfBuffer(usize),
}

impl BufferError {
    /// The error's message.
    pub fn to_string(&self) -> (r: String)
        ensures
            match *self {
                BufferError::FailAlloc => r@ == "Failed to allocate a new buffer"@,
                BufferError::BadOffset(n) => r@ == "Attempt to access bad packet offset "@
                    + crate::text::dec_text(n as nat),
                BufferError::NotResized => r@ == "Failed to resize the buffer"@,
                BufferError::OutOfBuffer(n) => r@ == "Remaining buffer length less than struct size "@
                    + crate::text::dec_text(n as nat),
            },
    {
        match *self {
            BufferError::FailAlloc => String::from_str("Failed to allocate a new buffer"),
            BufferError::BadOffset(n) => {
                let mut s = String::from_str("Attempt to access bad packet offset ");
                crate::text::push_dec(&mut s, n as u64);
                s
            },
            BufferError::NotResized => String::from_str("Failed to resize the buffer"),
            BufferError::OutOfBuffer(n) => {
                let mut s = String::from_str("Remaining buffer length less than struct size ");
                crate::text::push_dec(&mut s, n as u64);
                s
            },
        }
    }
}

/// The bytes of the items of `s`, one after the other.
pub open spec fn items_bytes<T: Fixed>(s: Seq<T>) -> Seq<u8>
    decreases s.len(),
{
    if s.len() == 0 {
        Seq::empty()
    } else {
        items_bytes(s.drop_last()) + s.last().spec_bytes()
    }
}

/// The items' bytes take `size * count` bytes.
pub proof fn lemma_items_bytes_len<T: Fixed>(s: Seq<T>)
    ensures
        items_bytes(s).len() == T::spec_size() * s.len(),
    decreases s.len(),
{
    if s.len() > 0 {
        lemma_items_bytes_len(s.drop_last());
        s.last().lemma_bytes_len();
        assert(T::spec_size() * s.len() == T::spec_size() * (s.len() - 1) + T::spec_size()) by (
        nonlinear_arith)
            requires
                s.len() > 0,
        ;
    }
}

/// The outcome of `read_item`/`read_slice` on data of length `data_len`:
/// the offset when `size` bytes fit there, the error otherwise.
pub open spec fn read_spec(data_len: nat, offset: nat, size: nat) -> Result<usize, BufferError> {
    if offset > data_len {
        Err(BufferError::BadOffset(offset as usize))
    } else if offset + size > data_len {
        Err(BufferError::OutOfBuffer(size as usize))
    } else {
        Ok(offset as usize)
    }
}

/// Checks that a `T` lies within the buffer at `offset`; returns the offset
/// at which it starts.
pub fn read_item<T: Fixed>(mbuf: &MBuf, offset: usize) -> (r: Result<usize, BufferError>)
    ensures
        r == read_spec(mbuf.view().len(), offset as nat, T::spec_size()),
{
    let len = mbuf.data_len();
    let size = T::size();
    if offset > len {
        Err(BufferError::BadOffset(offset))
    } else if size > len - offset {
        Err(BufferError::OutOfBuffer(size))
    } else {
        Ok(offset)
    }
}

/// Checks that `len` consecutive `T`s lie within the buffer at `offset`;
/// returns the offset at which they start.
pub fn read_slice<T: Fixed>(mbuf: &MBuf, offset: usize, len: usize) -> (r: Result<usize, BufferError>)
    requires
        T::spec_size() * len <= usize::MAX,
    ensures
        r == read_spec(mbuf.view().len(), offset as nat, (T::spec_size() * len) as nat),
{
    let data_len = mbuf.data_len();
    let size = T::size();
    let total = size * len;
    if offset > data_len {
        Err(BufferError::BadOffset(offset))
    } else if total > data_len - offset {
        Err(BufferError::OutOfBuffer(total))
    } else {
        Ok(offset)
    }
}

/// The data after `alloc(offset, len)` succeeds: `len` bytes are opened at
/// `offset` by moving the bytes from `offset` on towards the end.
pub open spec fn alloc_spec(d: Seq<u8>, offset: nat, len: nat) -> Seq<u8> {
    if len > 0 && offset <= d.len() {
        let ext = d + zeros(len);
        Seq::new(
            d.len() + len,
            |i: int|
                if i < offset + len {
                    ext[i]
                } else {
                    d[i - len]
                },
        )
    } else {
        d
    }
}

/// Whether `alloc(offset, len)` fails: the data must grow by `len` but the
/// buffer has no room for it.
pub open spec fn alloc_fails(mbuf: MBuf, offset: nat, len: nat) -> bool {
    len > 0 && offset <= mbuf.view().len() && len > mbuf.spec_tailroom()
}

/// Allocates buffer memory at offset by shifting it down by `len` bytes
pub fn allocate(mbuf: &mut MBuf, offset: usize, len: usize) -> (r: Result<(), BufferError>)
    requires
        old(mbuf).wf(),
    ensures
        final(mbuf).wf(),
        alloc_fails(*old(mbuf), offset as nat, len as nat) ==> r == Err::<(), BufferError>(
            BufferError::NotResized,
        ) && *final(mbuf) == *old(mbuf),
        !alloc_fails(*old(mbuf), offset as nat, len as nat) ==> {
            &&& r is Ok
            &&& final(mbuf).view() == alloc_spec(old(mbuf).view(), offset as nat, len as nat)
            &&& final(mbuf).spec_headroom() == old(mbuf).spec_headroom()
            &&& final(mbuf).view().len() + final(mbuf).spec_tailroom() == old(mbuf).view().len()
                + old(mbuf).spec_tailroom()
        },
{
    let data_len = mbuf.data_len();
    if len > 0 && offset <= data_len {
        let copy_len = data_len - offset;
        if mbuf.add_data_end(len) > 0 {
            let _new_len = mbuf.data_len();
            if copy_len > 0 {
                mbuf.copy_within(offset, offset + len, copy_len);
            }
            assert(mbuf.view() =~= alloc_spec(old(mbuf).view(), offset as nat, len as nat));
        } else {
            return Err(BufferError::NotResized);
        }
    }
    Ok(())
}

/// The data after `dealloc(offset, len)` succeeds: the `len` bytes at
/// `offset` are removed.
pub open spec fn dealloc_spec(d: Seq<u8>, offset: nat, len: nat) -> Seq<u8> {
    if len > 0 {
        d.take(offset as int) + d.skip((offset + len) as int)
    } else {
        d
    }
}

/// Deallocates buffer memory at offset by shifting it up by `len` bytes
pub fn dealloc(mbuf: &mut MBuf, offset: usize, len: usize) -> (r: Result<(), BufferError>)
    requires
        old(mbuf).wf(),
        offset + len <= usize::MAX,
    ensures
        final(mbuf).wf(),
        len > 0 && offset + len > old(mbuf).view().len() ==> r == Err::<(), BufferError>(
            BufferError::NotResized,
        ) && *final(mbuf) == *old(mbuf),
        !(len > 0 && offset + len > old(mbuf).view().len()) ==> {
            &&& r is Ok
            &&& final(mbuf).view() == dealloc_spec(old(mbuf).view(), offset as nat, len as nat)
            &&& final(mbuf).spec_headroom() == old(mbuf).spec_headroom()
            &&& final(mbuf).view().len() + final(mbuf).spec_tailroom() == old(mbuf).view().len()
                + old(mbuf).spec_tailroom()
        },
{
    if len > 0 {
        let data_len = mbuf.data_len();
        let src_offset = offset + len;
        if src_offset < data_len {
            mbuf.copy_within(src_offset, offset, data_len - src_offset);
            let ghost moved = mbuf.view();
            mbuf.remove_data_end(len);
            assert(mbuf.view() =~= dealloc_spec(old(mbuf).view(), offset as nat, len as nat));
        } else if src_offset == data_len {
            mbuf.remove_data_end(len);
            assert(mbuf.view() =~= dealloc_spec(old(mbuf).view(), offset as nat, len as nat));
        } else {
            return Err(BufferError::NotResized);
        }
    }
    Ok(())
}

/// Reallocates buffer memory: grows it by `len` bytes at `offset` when `len`
/// is positive, shrinks it by `-len` bytes there when negative.
pub fn realloc(mbuf: &mut MBuf, offset: usize, len: isize) -> (r: Result<(), BufferError>)
    requires
        old(mbuf).wf(),
        len != isize::MIN,
        len < 0 ==> offset - len <= usize::MAX,
    ensures
        final(mbuf).wf(),
        len > 0 ==> {
            &&& alloc_fails(*old(mbuf), offset as nat, len as nat) ==> r == Err::<(), BufferError>(
                BufferError::NotResized,
            ) && *final(mbuf) == *old(mbuf)
            &&& !alloc_fails(*old(mbuf), offset as nat, len as nat) ==> r is Ok && final(mbuf).view()
                == alloc_spec(old(mbuf).view(), offset as nat, len as nat)
        },
        len < 0 ==> {
            &&& offset - len > old(mbuf).view().len() ==> r == Err::<(), BufferError>(
                BufferError::NotResized,
            ) && *final(mbuf) == *old(mbuf)
            &&& offset - len <= old(mbuf).view().len() ==> r is Ok && final(mbuf).view()
                == dealloc_spec(old(mbuf).view(), offset as nat, (-len) as nat)
        },
        len == 0 ==> r is Ok && *final(mbuf) == *old(mbuf),
        final(mbuf).spec_headroom() == old(mbuf).spec_headroom(),
        final(mbuf).view().len() + final(mbuf).spec_tailroom() == old(mbuf).view().len()
            + old(mbuf).spec_tailroom(),
{
    if len > 0 {
        allocate(mbuf, offset, len as usize)
    } else if len < 0 {
        dealloc(mbuf, offset, (-len) as usize)
    } else {
        Ok(())
    }
}

/// Trims the buffer to the length specified
pub fn trim(mbuf: &mut MBuf, to_len: usize) -> (r: Result<(), BufferError>)
    requires
        old(mbuf).wf(),
    ensures
        final(mbuf).wf(),
        old(mbuf).view().len() > to_len ==> r is Ok && final(mbuf).view() == old(mbuf).view().take(
            to_len as int,
        ),
        old(mbuf).view().len() <= to_len ==> r == Err::<(), BufferError>(BufferError::NotResized)
            && *final(mbuf) == *old(mbuf),
{
    let data_len = mbuf.data_len();
    if data_len > to_len {
        mbuf.remove_data_end(data_len - to_len);
        Ok(())
    } else {
        return Err(BufferError::NotResized);
    }
}

/// Writes `T` to buffer at offset; returns the offset at which it stands.
pub fn write_item<T: Fixed>(mbuf: &mut MBuf, offset: usize, item: &T) -> (r: Result<
    usize,
    BufferError,
>)
    requires
        old(mbuf).wf(),
        offset + T::spec_size() <= usize::MAX,
    ensures
        final(mbuf).wf(),
        final(mbuf).spec_headroom() == old(mbuf).spec_headroom(),
        final(mbuf).spec_tailroom() == old(mbuf).spec_tailroom(),
        old(mbuf).view().len() >= offset + T::spec_size() ==> {
            &&& r == Ok::<usize, BufferError>(offset)
            &&& final(mbuf).view() == splice(old(mbuf).view(), offset as nat, item.spec_bytes())
        },
        old(mbuf).view().len() < offset + T::spec_size() ==> r == Err::<usize, BufferError>(
            BufferError::BadOffset(offset),
        ) && *final(mbuf) == *old(mbuf),
{
    let size = T::size();
    if mbuf.data_len() >= offset + size {
        let bytes = item.to_bytes();
        proof {
            item.lemma_bytes_len();
        }
        mbuf.set_bytes(offset, bytes.as_slice());
        read_item::<T>(mbuf, offset)
    } else {
        Err(BufferError::BadOffset(offset))
    }
}

/// Writes slice of `T` to buffer at offset; returns the offset at which it
/// stands.
pub fn write_slice<T: Fixed>(mbuf: &mut MBuf, offset: usize, slice: &[T]) -> (r: Result<
    usize,
    BufferError,
>)
    requires
        old(mbuf).wf(),
        offset + T::spec_size() * slice@.len() <= usize::MAX,
    ensures
        final(mbuf).wf(),
        final(mbuf).spec_headroom() == old(mbuf).spec_headroom(),
        final(mbuf).spec_tailroom() == old(mbuf).spec_tailroom(),
        old(mbuf).view().len() >= offset + T::spec_size() * slice@.len() ==> {
            &&& r == Ok::<usize, BufferError>(offset)
            &&& final(mbuf).view() == splice(old(mbuf).view(), offset as nat, items_bytes(slice@))
        },
        old(mbuf).view().len() < offset + T::spec_size() * slice@.len() ==> r == Err::<
            usize,
            BufferError,
        >(BufferError::BadOffset(offset)) && *final(mbuf) == *old(mbuf),
{
    let size = T::size();
    let n = slice.len();
    proof {
        assert(size * n <= usize::MAX);
    }
    let total = size * n;
    if mbuf.data_len() >= offset + total {
        let mut bytes: Vec<u8> = Vec::new();
        let mut i: usize = 0;
        while i < n
            invariant
                i <= n,
                n == slice@.len(),
                bytes@ == items_bytes(slice@.take(i as int)),
            decreases n - i,
        {
            let b = slice[i].to_bytes();
            let mut j: usize = 0;
            let ghost before = bytes@;
            while j < b.len()
                invariant
                    j <= b@.len(),
                    bytes@ == before + b@.take(j as int),
                decreases b@.len() - j,
            {
                bytes.push(b[j]);
                j = j + 1;
                assert(bytes@ =~= before + b@.take(j as int));
            }
            assert(b@.take(b@.len() as int) =~= b@);
            assert(slice@.take(i + 1).drop_last() =~= slice@.take(i as int));
            i = i + 1;
        }
        assert(slice@.take(n as int) =~= slice@);
        proof {
            lemma_items_bytes_len(slice@);
        }
        mbuf.set_bytes(offset, bytes.as_slice());
        proof {
            if n == 0 || T::spec_size() == 0 {
                assert(T::spec_size() * n == 0) by (nonlinear_arith)
                    requires
                        n == 0 || T::spec_size() == 0,
                ;
            }
        }
        Ok(offset)
    } else {
        Err(BufferError::BadOffset(offset))
    }
}

/// Growing the data at an offset and then shrinking it there again by the
/// same length gives back the data as it was.
pub proof fn law_alloc_dealloc_roundtrip(d: Seq<u8>, offset: nat, len: nat)
    requires
        offset <= d.len(),
    ensures
        dealloc_spec(alloc_spec(d, offset, len), offset, len) == d,
{
    let a = alloc_spec(d, offset, len);
    if len > 0 {
        assert(dealloc_spec(a, offset, len) =~= d);
    }
}

/// What `write_item` writes at an offset is what stands there afterwards.
pub proof fn law_write_then_read(d: Seq<u8>, offset: nat, bytes: Seq<u8>)
    requires
        offset + bytes.len() <= d.len(),
    ensures
        splice(d, offset, bytes).subrange(offset as int, (offset + bytes.len()) as int) == bytes,
        splice(d, offset, bytes).len() == d.len(),
{
    assert(splice(d, offset, bytes).subrange(offset as int, (offset + bytes.len()) as int) =~= bytes);
}


/// Bytes written as a slice of bytes are the bytes themselves.
pub proof fn lemma_items_u8(s: Seq<u8>)
    ensures
        items_bytes(s) == s,
    decreases s.len(),
{
    if s.len() > 0 {
        lemma_items_u8(s.drop_last());
        assert(s.drop_last() + seq![s.last()] =~= s);
    } else {
        assert(s =~= Seq::<u8>::empty());
    }
}

} // verus!
