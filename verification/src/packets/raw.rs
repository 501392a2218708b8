//! The raw network packet: the whole message buffer, with no header parsed.
use crate::packets::buffer::{allocate, realloc, write_slice, BufferError};
use crate::packets::mbuf::{MBuf, MBUF_BUF_LEN, MBUF_HEADROOM};
use crate::packets::{bytes_of, Packet, PacketError};
use vstd::prelude::*;

verus! {

/// The raw network packet
///
/// Simply a wrapper around the underlying buffer with packet semantic
#[derive(Debug)]
pub struct RawPacket {
    mbuf: MBuf,
}

impl RawPacket {
    /// Creates a new packet by allocating a new buffer
    pub fn new() -> (r: Result<Self, PacketError>)
        ensures
            r is Ok,
            r matches Ok(p) ==> {
                &&& p.inv()
                &&& bytes_of(&p) == Seq::<u8>::empty()
                &&& p.spec_mbuf().spec_headroom() == MBUF_HEADROOM
                &&& p.spec_mbuf().spec_tailroom() == MBUF_BUF_LEN - MBUF_HEADROOM
            },
    {
        Ok(RawPacket { mbuf: MBuf::new() })
    }

    /// Creates a new packet and initialize the buffer with a byte array
    pub fn from_bytes(data: &[u8]) -> (r: Result<Self, PacketError>)
        ensures
            data@.len() <= MBUF_BUF_LEN - MBUF_HEADROOM ==> (r matches Ok(p) && p.inv() && bytes_of(
                &p,
            ) == data@),
            data@.len() > MBUF_BUF_LEN - MBUF_HEADROOM ==> r matches Err(
                PacketError::Buffer(BufferError::NotResized),
            ),
    {
        let mut mbuf = MBuf::new();
        match allocate(&mut mbuf, 0, data.len()) {
            Ok(_) => {},
            Err(e) => {
                return Err(PacketError::Buffer(e));
            },
        }
        assert(mbuf.view().len() == data@.len());
        match write_slice::<u8>(&mut mbuf, 0, data) {
            Ok(_) => {},
            Err(e) => {
                return Err(PacketError::Buffer(e));
            },
        }
        proof {
            crate::packets::buffer::lemma_items_u8(data@);
        }
        assert(mbuf.view() =~= data@);
        Ok(RawPacket { mbuf })
    }

    /// Creates a new packet from a message buffer
    pub fn from_mbuf(mbuf: MBuf) -> (r: Self)
        ensures
            r.spec_mbuf() == mbuf,
            mbuf.wf() ==> r.inv(),
    {
        RawPacket { mbuf }
    }

    /// Takes the message buffer out of the packet.
    pub fn into_mbuf(self) -> (r: MBuf)
        ensures
            r == self.spec_mbuf(),
    {
        self.mbuf
    }

    /// Whether two packets hold the same bytes.
    pub fn same_bytes(&self, other: &RawPacket) -> (r: bool)
        ensures
            r == (bytes_of(self) == bytes_of(other)),
    {
        let a = self.mbuf.data();
        let b = other.mbuf.data();
        if a.len() != b.len() {
            return false;
        }
        let mut i: usize = 0;
        while i < a.len()
            invariant
                a@.len() == b@.len(),
                a@ == bytes_of(self),
                b@ == bytes_of(other),
                i <= a@.len(),
                forall|j: int| 0 <= j < i ==> a@[j] == b@[j],
            decreases a@.len() - i,
        {
            if a[i] != b[i] {
                return false;
            }
            i = i + 1;
        }
        assert(a@ =~= b@);
        true
    }
}

impl Packet for RawPacket {
    /// Nothing lies below a raw packet: the bytes stay.
    open spec fn spec_cascade_view(&self, v: Seq<u8>) -> Seq<u8> {
        v
    }

    closed spec fn spec_mbuf(&self) -> MBuf {
        self.mbuf
    }

    open spec fn spec_offset(&self) -> nat {
        0
    }

    open spec fn spec_header_len(&self) -> nat {
        0
    }

    closed spec fn inv(&self) -> bool {
        self.mbuf.wf()
    }

    proof fn lemma_inv(&self) {
        assert(self.spec_offset() == 0);
        assert(self.spec_header_len() == 0);
        assert(self.spec_mbuf().view().len() >= 0);
        self.mbuf.lemma_len_bound();
    }

    fn mbuf(&self) -> (r: &MBuf) {
        &self.mbuf
    }

    fn offset(&self) -> (r: usize) {
        0
    }

    fn header_len(&self) -> (r: usize) {
        0
    }

    fn write_bytes(&mut self, pos: usize, bytes: &[u8]) {
        self.mbuf.set_bytes(pos, bytes);
    }

    fn resize(&mut self, pos: usize, len: isize) -> (r: Result<(), BufferError>) {
        realloc(&mut self.mbuf, pos, len)
    }

    fn cascade(&mut self) {
    }

    fn into_mbuf(self) -> (r: MBuf) {
        self.mbuf
    }
}

} // verus!
