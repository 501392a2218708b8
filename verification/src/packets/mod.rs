//! Network packets: the message buffer, protocol headers and checksums.
use vstd::prelude::*;

pub mod buffer;
pub mod checksum;
pub mod ethernet;
pub mod icmp;
pub mod ip;
pub mod mac;
pub mod mbuf;
pub mod raw;
pub mod tcp;
pub mod udp;

use crate::packets::buffer::{alloc_fails, alloc_spec, dealloc_spec, BufferError};
use crate::packets::ip::IpAddrMismatchError;
use crate::packets::mbuf::{splice, MBuf};
use crate::packets::raw::RawPacket;

verus! {

/// Type that has a fixed size on the wire
///
/// Size of the structs are used for buffer bound check when parsing packets
pub trait Fixed: Sized {
    /// The size in bytes.
    spec fn spec_size() -> nat;

    /// The bytes of the value as they stand in a buffer.
    spec fn spec_bytes(&self) -> Seq<u8>;

    /// Returns the size of the type
    fn size() -> (r: usize)
        ensures
            r as nat == Self::spec_size(),
    ;

    /// Returns the bytes of the value as they stand in a buffer.
    fn to_bytes(&self) -> (r: Vec<u8>)
        ensures
            r@ == self.spec_bytes(),
    ;

    /// The bytes of a value are as many as the size says.
    proof fn lemma_bytes_len(&self)
        ensures
            self.spec_bytes().len() == Self::spec_size(),
    ;
}

/// Fixed packet header marker trait
///
/// Some packet headers are variable in length, such as the IPv6
/// segment routing header. The fixed portion can be statically
/// defined, but the variable portion has to be parsed separately.
pub trait Header: Fixed {}

impl Fixed for u8 {
    open spec fn spec_size() -> nat {
        1
    }

    open spec fn spec_bytes(&self) -> Seq<u8> {
        seq![*self]
    }

    fn size() -> (r: usize) {
        1
    }

    fn to_bytes(&self) -> (r: Vec<u8>) {
        let mut v = Vec::new();
        v.push(*self);
        assert(v@ =~= seq![*self]);
        v
    }

    proof fn lemma_bytes_len(&self) {
    }
}

impl<const N: usize> Fixed for [u8; N] {
    open spec fn spec_size() -> nat {
        N as nat
    }

    open spec fn spec_bytes(&self) -> Seq<u8> {
        self@
    }

    fn size() -> (r: usize) {
        N
    }

    fn to_bytes(&self) -> (r: Vec<u8>) {
        let mut v = Vec::new();
        let mut i: usize = 0;
        while i < N
            invariant
                i <= N,
                self@.len() == N,
                v@ == self@.take(i as int),
            decreases N - i,
        {
            v.push(self[i]);
            i = i + 1;
            assert(v@ =~= self@.take(i as int));
        }
        assert(self@.take(N as int) =~= self@);
        v
    }

    proof fn lemma_bytes_len(&self) {
    }
}

/// Error when packet failed to parse
#[derive(Debug)]
pub struct ParseError(String);

impl ParseError {
    /// The error's message.
    pub closed spec fn message(&self) -> Seq<char> {
        self.0@
    }

    pub fn new(msg: &str) -> (r: ParseError)
        ensures
            r.message() == msg@,
    {
        ParseError(String::from_str(msg))
    }

    /// The error's message.
    pub fn to_string(&self) -> (r: String)
        ensures
            r@ == self.message(),
    {
        self.0.clone()
    }
}


/// Errors of packet operations.
#[derive(Debug)]
pub enum PacketError {
    /// The message buffer could not be accessed or resized.
    Buffer(BufferError),
    /// The packet is malformed.
    Parse(ParseError),
    /// An IPv4 and an IPv6 address were mixed.
    IpAddrMismatch(IpAddrMismatchError),
    /// A segment list was empty.
    BadSegments(crate::packets::ip::v6::srh::BadSegmentsError),
}

/// The bytes of the buffer that holds the packet.
pub open spec fn bytes_of<P: Packet>(p: &P) -> Seq<u8> {
    p.spec_mbuf().view()
}

/// The buffer offset where the packet's payload begins.
pub open spec fn payload_offset_of<P: Packet>(p: &P) -> nat {
    p.spec_offset() + p.spec_header_len()
}

/// Whether resizing the buffer by `len` bytes at `pos` fails.
pub open spec fn resize_fails(mbuf: MBuf, pos: nat, len: int) -> bool {
    if len > 0 {
        alloc_fails(mbuf, pos, len as nat)
    } else if len < 0 {
        pos - len > mbuf.view().len()
    } else {
        false
    }
}

/// The data after resizing the buffer by `len` bytes at `pos` succeeds.
pub open spec fn resize_spec(d: Seq<u8>, pos: nat, len: int) -> Seq<u8> {
    if len > 0 {
        alloc_spec(d, pos, len as nat)
    } else if len < 0 {
        dealloc_spec(d, pos, (-len) as nat)
    } else {
        d
    }
}

/// Common behaviors shared by all packets
///
/// A packet is a view of a protocol layer in a message buffer: it starts at
/// `offset` with a header of `header_len` bytes, followed by its payload up
/// to the end of the buffer. It owns its envelope, the packet of the layer
/// below, which in the end owns the buffer.
pub trait Packet: Sized {
    /// The buffer that holds the packet.
    spec fn spec_mbuf(&self) -> MBuf;

    /// The buffer offset where the packet header begins.
    spec fn spec_offset(&self) -> nat;

    /// The length of the packet header, fixed and variable portion.
    spec fn spec_header_len(&self) -> nat;

    /// The packet and its envelopes are consistent with the buffer.
    spec fn inv(&self) -> bool;

    /// A consistent packet's header lies within a well-formed buffer.
    proof fn lemma_inv(&self)
        requires
            self.inv(),
        ensures
            self.spec_mbuf().wf(),
            self.spec_offset() + self.spec_header_len() <= self.spec_mbuf().view().len(),
            self.spec_mbuf().view().len() <= crate::packets::mbuf::MBUF_BUF_LEN,
    ;

    /// The message buffer.
    fn mbuf(&self) -> (r: &MBuf)
        ensures
            *r == self.spec_mbuf(),
    ;

    /// Returns the buffer offset where the packet header begins
    fn offset(&self) -> (r: usize)
        requires
            self.inv(),
        ensures
            r == self.spec_offset(),
    ;

    /// Returns the length of the packet header
    ///
    /// Includes both the fixed and variable portion of the header
    fn header_len(&self) -> (r: usize)
        requires
            self.inv(),
        ensures
            r == self.spec_header_len(),
    ;

    /// Returns the length of the packet
    fn len(&self) -> (r: usize)
        requires
            self.inv(),
        ensures
            r == self.spec_mbuf().view().len() - self.spec_offset(),
    {
        proof {
            self.lemma_inv();
        }
        self.mbuf().data_len() - self.offset()
    }

    /// Returns the buffer offset where the packet payload begins
    fn payload_offset(&self) -> (r: usize)
        requires
            self.inv(),
        ensures
            r == (self.spec_offset() + self.spec_header_len()),
    {
        proof {
            self.lemma_inv();
        }
        let _n = self.mbuf().data_len();
        self.offset() + self.header_len()
    }

    /// Returns the length of the packet payload
    fn payload_len(&self) -> (r: usize)
        requires
            self.inv(),
        ensures
            r == self.spec_mbuf().view().len() - (self.spec_offset() + self.spec_header_len()),
    {
        proof {
            self.lemma_inv();
        }
        self.len() - self.header_len()
    }

    /// Writes `bytes` into the buffer at `pos`, which lies in the payload.
    fn write_bytes(&mut self, pos: usize, bytes: &[u8])
        requires
            old(self).inv(),
            (old(self).spec_offset() + old(self).spec_header_len()) <= pos,
            pos + bytes@.len() <= old(self).spec_mbuf().view().len(),
        ensures
            final(self).inv(),
            final(self).spec_mbuf().view() == splice(old(self).spec_mbuf().view(), pos as nat, bytes@),
            final(self).spec_offset() == old(self).spec_offset(),
            final(self).spec_header_len() == old(self).spec_header_len(),
            final(self).spec_mbuf().spec_headroom() == old(self).spec_mbuf().spec_headroom(),
            final(self).spec_mbuf().spec_tailroom() == old(self).spec_mbuf().spec_tailroom(),
    ;

    /// Grows (`len > 0`) or shrinks (`len < 0`) the buffer by `|len|` bytes
    /// at `pos`, which lies in the payload.
    fn resize(&mut self, pos: usize, len: isize) -> (r: Result<(), BufferError>)
        requires
            old(self).inv(),
            (old(self).spec_offset() + old(self).spec_header_len()) <= pos,
            len != isize::MIN,
            len < 0 ==> pos - len <= usize::MAX,
        ensures
            final(self).inv(),
            final(self).spec_offset() == old(self).spec_offset(),
            final(self).spec_header_len() == old(self).spec_header_len(),
            resize_fails(old(self).spec_mbuf(), pos as nat, len as int) ==> r
                == Err::<(), BufferError>(BufferError::NotResized) && final(self).spec_mbuf().view()
                == old(self).spec_mbuf().view(),
            !resize_fails(old(self).spec_mbuf(), pos as nat, len as int) ==> r is Ok && final(self).spec_mbuf().view() == resize_spec(old(self).spec_mbuf().view(), pos as nat, len as int),
            final(self).spec_mbuf().spec_headroom() == old(self).spec_mbuf().spec_headroom(),
            final(self).spec_mbuf().view().len() + final(self).spec_mbuf().spec_tailroom() == old(self).spec_mbuf().view().len() + old(self).spec_mbuf().spec_tailroom(),
    ;

    /// The bytes that `cascade` leaves where the buffer holds `v`: this
    /// layer writes what it derives from the bytes into its header, then
    /// its envelope does the same with the result, down to the raw packet.
    spec fn spec_cascade_view(&self, v: Seq<u8>) -> Seq<u8>;

    /// Cascades the changes recursively through the layers
    ///
    /// An upper layer change to message buffer size can have cascading
    /// effects on a lower layer packet header. This call recursively ensures
    /// such changes are propogated through all the layers.
    fn cascade(&mut self)
        requires
            old(self).inv(),
        ensures
            final(self).inv(),
            final(self).spec_mbuf().view() == old(self).spec_cascade_view(old(self).spec_mbuf().view()),
            final(self).spec_offset() == old(self).spec_offset(),
            final(self).spec_header_len() == old(self).spec_header_len(),
            final(self).spec_mbuf().view().len() == old(self).spec_mbuf().view().len(),
            forall|i: int|
                (old(self).spec_offset() + old(self).spec_header_len()) <= i < old(self).spec_mbuf().view().len() ==> final(self).spec_mbuf().view()[i] == old(self).spec_mbuf().view()[i],
            final(self).spec_mbuf().spec_headroom() == old(self).spec_mbuf().spec_headroom(),
            final(self).spec_mbuf().spec_tailroom() == old(self).spec_mbuf().spec_tailroom(),
    ;

    /// Gives up the packet structure and returns the message buffer.
    fn into_mbuf(self) -> (r: MBuf)
        requires
            self.inv(),
        ensures
            r == self.spec_mbuf(),
            r.wf(),
    ;
}


/// A packet of a protocol layer above the raw packet: it is encapsulated in
/// an envelope, the packet of the layer below, whose payload it is.
pub trait ParsedPacket: Packet {
    /// The outer packet type that encapsulates the packet
    type Envelope: Packet;

    /// The packet's envelope.
    spec fn spec_envelope(&self) -> Self::Envelope;

    /// The packet begins where its envelope's payload does, and shares its
    /// buffer.
    proof fn lemma_envelope(&self)
        requires
            self.inv(),
        ensures
            self.spec_envelope().inv(),
            self.spec_offset() == (self.spec_envelope().spec_offset() + self.spec_envelope().spec_header_len()),
            self.spec_mbuf() == self.spec_envelope().spec_mbuf(),
    ;

    /// Returns a reference to the encapsulating packet
    fn envelope(&self) -> (r: &Self::Envelope)
        ensures
            *r == self.spec_envelope(),
    ;

    /// Deparses the packet and returns its envelope
    fn deparse(self) -> (r: Self::Envelope)
        requires
            self.inv(),
        ensures
            r == self.spec_envelope(),
            r.inv(),
            r.spec_mbuf() == self.spec_mbuf(),
    ;

    /// Whether the payload of `envelope` holds a packet of this type.
    spec fn spec_parses(envelope: Self::Envelope) -> bool;

    /// The header, with default values, that a push inserts in front of the
    /// payload of `envelope`.
    spec fn spec_default_header(envelope: Self::Envelope) -> Seq<u8>;

    /// Parses the payload of `envelope` as a packet of this type.
    fn do_parse(envelope: Self::Envelope) -> (r: Result<Self, PacketError>)
        requires
            envelope.inv(),
        ensures
            (r is Ok) == Self::spec_parses(envelope),
            r matches Ok(p) ==> p.inv() && p.spec_envelope() == envelope && p.spec_offset()
                == payload_offset_of(&envelope),
    ;

    /// Inserts a header of this type, with default values, in front of the
    /// payload of `envelope`.
    fn do_push(envelope: Self::Envelope) -> (r: Result<Self, PacketError>)
        requires
            envelope.inv(),
        ensures
            (r is Ok) == !resize_fails(
                envelope.spec_mbuf(),
                payload_offset_of(&envelope),
                Self::spec_default_header(envelope).len() as int,
            ),
            r is Err ==> r == Err::<Self, PacketError>(PacketError::Buffer(BufferError::NotResized)),
            r matches Ok(p) ==> p.inv() && p.spec_offset() == payload_offset_of(&envelope)
                && bytes_of(&p) == splice(
                resize_spec(
                    bytes_of(&envelope),
                    payload_offset_of(&envelope),
                    Self::spec_default_header(envelope).len() as int,
                ),
                payload_offset_of(&envelope),
                Self::spec_default_header(envelope),
            ),
            r matches Ok(p) ==> p.spec_mbuf().spec_headroom() == envelope.spec_mbuf().spec_headroom(),
    ;

    /// Removes this packet's header from the message buffer
    ///
    /// The packet's payload becomes the payload of its envelope. The
    /// result of the removal is not guaranteed to be a valid packet.
    fn remove(self) -> (r: Result<Self::Envelope, PacketError>)
        requires
            self.inv(),
        ensures
            r is Ok,
            r matches Ok(e) ==> e.inv() && bytes_of(&e) == crate::packets::buffer::dealloc_spec(
                bytes_of(&self),
                self.spec_offset(),
                self.spec_header_len(),
            ),
    ;
}

/// Parses the payload of `envelope` as a packet of type `T`.
pub fn parse<T: ParsedPacket>(envelope: T::Envelope) -> (r: Result<T, PacketError>)
    requires
        envelope.inv(),
    ensures
        (r is Ok) == T::spec_parses(envelope),
        r matches Ok(p) ==> p.inv() && p.spec_envelope() == envelope && p.spec_offset()
            == payload_offset_of(&envelope),
{
    T::do_parse(envelope)
}

/// Inserts a header of type `T`, with default values, in front of the
/// payload of `envelope`.
pub fn push<T: ParsedPacket>(envelope: T::Envelope) -> (r: Result<T, PacketError>)
    requires
        envelope.inv(),
    ensures
        (r is Ok) == !resize_fails(
            envelope.spec_mbuf(),
            payload_offset_of(&envelope),
            T::spec_default_header(envelope).len() as int,
        ),
        r is Err ==> r == Err::<T, PacketError>(PacketError::Buffer(BufferError::NotResized)),
        r matches Ok(p) ==> p.inv() && p.spec_offset() == payload_offset_of(&envelope) && bytes_of(
            &p,
        ) == splice(
            resize_spec(
                bytes_of(&envelope),
                payload_offset_of(&envelope),
                T::spec_default_header(envelope).len() as int,
            ),
            payload_offset_of(&envelope),
            T::spec_default_header(envelope),
        ),
        r matches Ok(p) ==> p.spec_mbuf().spec_headroom() == envelope.spec_mbuf().spec_headroom(),
{
    T::do_push(envelope)
}


/// Resets the parsed packet back to raw packet
pub fn reset<P: Packet>(packet: P) -> (r: RawPacket)
    requires
        packet.inv(),
    ensures
        r.inv(),
        r.spec_mbuf() == packet.spec_mbuf(),
{
    RawPacket::from_mbuf(packet.into_mbuf())
}


/// Resizing at `pos` keeps the bytes in front of `pos`, and keeps at least
/// `pos` bytes.
pub proof fn lemma_resize_len(d: Seq<u8>, pos: nat, len: int)
    requires
        pos <= d.len(),
        len < 0 ==> pos - len <= d.len(),
    ensures
        len >= 0 ==> resize_spec(d, pos, len).len() == d.len() + len,
        len < 0 ==> resize_spec(d, pos, len).len() == d.len() + len,
        resize_spec(d, pos, len).len() >= pos,
        forall|i: int| 0 <= i < pos ==> resize_spec(d, pos, len)[i] == d[i],
{
}

} // verus!
