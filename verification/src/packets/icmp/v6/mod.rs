//! ICMPv6 messages (RFC 4443).
//!
//! ```text
//!  0                   1                   2                   3
//!  0 1 2 3 4 5 6 7 8 9 0 1 2 3 4 5 6 7 8 9 0 1 2 3 4 5 6 7 8 9 0 1
//! +-+-+-+-+-+-+-+-+-+-+-+-+-+-+-+-+-+-+-+-+-+-+-+-+-+-+-+-+-+-+-+-+
//! |     Type      |     Code      |          Checksum             |
//! +-+-+-+-+-+-+-+-+-+-+-+-+-+-+-+-+-+-+-+-+-+-+-+-+-+-+-+-+-+-+-+-+
//! |                                                               |
//! +                         Message Body                          +
//! |                                                               |
//! ```
//!
//! The type field indicates the type of the message; its value determines
//! the format of the message body, whose fixed portion is the payload type
//! `P` of an `Icmpv6<E, P>` packet.
use crate::packets::buffer::{dealloc_spec, read_item, read_spec, BufferError};
use crate::packets::ip::insert_zeros;
use crate::packets::ip::v6::Ipv6Packet;
use crate::packets::mbuf::{be16, be16_bytes, be32, be32_bytes, splice, u16_to_be, u32_to_be, zeros, MBuf};
use crate::packets::{resize_fails, resize_spec, Fixed, Header, Packet, PacketError, ParsedPacket};
use crate::text::{bool_text, dec32, dec8, hex16, push_bool, push_dec32, push_dec8, push_hex16, push_str};
use std::marker::PhantomData;
use vstd::prelude::*;

#[allow(non_snake_case)]
pub mod Icmpv6Types;
pub mod ndp;
pub mod too_big;

verus! {

/// Type of ICMPv6 message
#[derive(Default, Debug, Copy, Clone, PartialEq, Eq)]
pub struct Icmpv6Type(pub u8);

/// The name of a message type, or its number in decimal.
pub open spec fn icmpv6_type_text(t: u8) -> Seq<char> {
    if t == 2 {
        "Packet Too Big"@
    } else if t == 133 {
        "Router Solicitation"@
    } else if t == 134 {
        "Router Advertisement"@
    } else if t == 135 {
        "Neighbor Solicitation"@
    } else if t == 136 {
        "Neighbor Advertisement"@
    } else if t == 137 {
        "Redirect"@
    } else {
        dec8(t)
    }
}

impl Icmpv6Type {
    pub fn new(value: u8) -> (r: Self)
        ensures
            r.0 == value,
    {
        Icmpv6Type(value)
    }

    /// The name of the message type, or its number.
    pub fn to_string(&self) -> (r: String)
        ensures
            r@ == icmpv6_type_text(self.0),
    {
        if self.0 == 2 {
            String::from_str("Packet Too Big")
        } else if self.0 == 133 {
            String::from_str("Router Solicitation")
        } else if self.0 == 134 {
            String::from_str("Router Advertisement")
        } else if self.0 == 135 {
            String::from_str("Neighbor Solicitation")
        } else if self.0 == 136 {
            String::from_str("Neighbor Advertisement")
        } else if self.0 == 137 {
            String::from_str("Redirect")
        } else {
            let mut s = String::new();
            push_dec8(&mut s, self.0);
            assert(s@ =~= dec8(self.0));
            s
        }
    }
}

/// ICMPv6 packet header
#[derive(Default, Debug, Copy, Clone)]
pub struct Icmpv6Header {
    msg_type: u8,
    code: u8,
    checksum: u16,
}

impl Fixed for Icmpv6Header {
    open spec fn spec_size() -> nat {
        4
    }

    closed spec fn spec_bytes(&self) -> Seq<u8> {
        seq![self.msg_type, self.code] + be16_bytes(self.checksum)
    }

    fn size() -> (r: usize) {
        4
    }

    fn to_bytes(&self) -> (r: Vec<u8>) {
        let c = u16_to_be(self.checksum);
        let v = vec![self.msg_type, self.code, c[0], c[1]];
        assert(v@ =~= self.spec_bytes());
        v
    }

    proof fn lemma_bytes_len(&self) {
    }
}

impl Header for Icmpv6Header {

}

/// ICMPv6 packet payload
///
/// The ICMPv6 packet may contain a variable length payload. This
/// is only the fixed portion. The variable length portion has to
/// be parsed separately.
pub trait Icmpv6Payload: Fixed {

}

impl Fixed for () {
    open spec fn spec_size() -> nat {
        0
    }

    open spec fn spec_bytes(&self) -> Seq<u8> {
        Seq::empty()
    }

    fn size() -> (r: usize) {
        0
    }

    fn to_bytes(&self) -> (r: Vec<u8>) {
        Vec::new()
    }

    proof fn lemma_bytes_len(&self) {
    }
}

/// ICMPv6 unit payload `()`
impl Icmpv6Payload for () {

}

/// Common behaviors shared by ICMPv6 packets
pub trait Icmpv6Packet: Packet {
    spec fn spec_msg_type(&self) -> u8;

    spec fn spec_code(&self) -> u8;

    spec fn spec_checksum(&self) -> u16;

    fn msg_type(&self) -> (r: Icmpv6Type)
        requires
            self.inv(),
        ensures
            r.0 == self.spec_msg_type(),
    ;

    fn set_msg_type(&mut self, msg_type: Icmpv6Type)
        requires
            old(self).inv(),
        ensures
            final(self).inv(),
            final(self).spec_offset() == old(self).spec_offset(),
            final(self).spec_mbuf().view() == splice(
                old(self).spec_mbuf().view(),
                old(self).spec_offset(),
                seq![msg_type.0],
            ),
            final(self).spec_msg_type() == msg_type.0,
            final(self).spec_code() == old(self).spec_code(),
            final(self).spec_checksum() == old(self).spec_checksum(),
    ;

    fn code(&self) -> (r: u8)
        requires
            self.inv(),
        ensures
            r == self.spec_code(),
    ;

    fn set_code(&mut self, code: u8)
        requires
            old(self).inv(),
        ensures
            final(self).inv(),
            final(self).spec_offset() == old(self).spec_offset(),
            final(self).spec_mbuf().view() == splice(
                old(self).spec_mbuf().view(),
                old(self).spec_offset() + 1,
                seq![code],
            ),
            final(self).spec_msg_type() == old(self).spec_msg_type(),
            final(self).spec_code() == code,
            final(self).spec_checksum() == old(self).spec_checksum(),
    ;

    fn checksum(&self) -> (r: u16)
        requires
            self.inv(),
        ensures
            r == self.spec_checksum(),
    ;

    fn set_checksum(&mut self, checksum: u16)
        requires
            old(self).inv(),
        ensures
            final(self).inv(),
            final(self).spec_offset() == old(self).spec_offset(),
            final(self).spec_mbuf().view() == splice(
                old(self).spec_mbuf().view(),
                old(self).spec_offset() + 2,
                be16_bytes(checksum),
            ),
            final(self).spec_msg_type() == old(self).spec_msg_type(),
            final(self).spec_code() == old(self).spec_code(),
            final(self).spec_checksum() == checksum,
    ;
}

/// ICMPv6 packet
///
/// Use unit payload `()` when the payload type is not known yet.
#[derive(Debug)]
pub struct Icmpv6<E: Ipv6Packet, P: Icmpv6Payload> {
    envelope: E,
    offset: usize,
    payload: PhantomData<P>,
}

impl<E: Ipv6Packet, P: Icmpv6Payload> Icmpv6<E, P> {
    /// The octet at `i` from the start of the header.
    pub open spec fn spec_byte(&self, i: int) -> u8 {
        self.spec_mbuf().view()[self.spec_offset() + i]
    }

    /// A consistent message holds its whole fixed payload.
    pub proof fn lemma_payload_fits(&self)
        requires
            self.inv(),
        ensures
            self.spec_offset() + 4 + P::spec_size() <= self.spec_mbuf().view().len(),
            self.spec_mbuf().view().len() <= crate::packets::mbuf::MBUF_BUF_LEN,
    {
        self.envelope.lemma_inv();
    }

    pub(crate) fn read_u8(&self, i: usize) -> (r: u8)
        requires
            self.inv(),
            i < 4 + P::spec_size(),
        ensures
            r == self.spec_byte(i as int),
    {
        proof {
            self.lemma_inv();
        }
        self.envelope.mbuf().read_u8(self.offset + i)
    }

    pub(crate) fn read_be16(&self, i: usize) -> (r: u16)
        requires
            self.inv(),
            i + 2 <= 4 + P::spec_size(),
        ensures
            r == be16(self.spec_mbuf().view(), self.spec_offset() + i),
    {
        proof {
            self.lemma_inv();
        }
        self.envelope.mbuf().read_be16(self.offset + i)
    }

    pub(crate) fn read_be32(&self, i: usize) -> (r: u32)
        requires
            self.inv(),
            i + 4 <= 4 + P::spec_size(),
        ensures
            r == be32(self.spec_mbuf().view(), self.spec_offset() + i),
    {
        proof {
            self.lemma_inv();
        }
        self.envelope.mbuf().read_be32(self.offset + i)
    }

    /// Writes `bytes` at `i` from the start of the header, within the
    /// header and the fixed payload.
    pub(crate) fn write_at(&mut self, i: usize, bytes: &[u8])
        requires
            old(self).inv(),
            i + bytes@.len() <= 4 + P::spec_size(),
        ensures
            final(self).inv(),
            final(self).spec_mbuf().view() == splice(
                old(self).spec_mbuf().view(),
                (old(self).spec_offset() + i) as nat,
                bytes@,
            ),
            final(self).spec_offset() == old(self).spec_offset(),
            final(self).spec_envelope().spec_src() == old(self).spec_envelope().spec_src(),
            final(self).spec_envelope().spec_dst() == old(self).spec_envelope().spec_dst(),
            final(self).spec_mbuf().spec_headroom() == old(self).spec_mbuf().spec_headroom(),
            final(self).spec_mbuf().spec_tailroom() == old(self).spec_mbuf().spec_tailroom(),
    {
        proof {
            self.lemma_inv();
            self.envelope.lemma_inv();
        }
        let pos = self.offset + i;
        self.envelope.write_payload(pos, bytes);
    }

    pub(crate) fn write_be32(&mut self, i: usize, v: u32)
        requires
            old(self).inv(),
            i + 4 <= 4 + P::spec_size(),
        ensures
            final(self).inv(),
            final(self).spec_mbuf().view() == splice(
                old(self).spec_mbuf().view(),
                (old(self).spec_offset() + i) as nat,
                be32_bytes(v),
            ),
            be32(final(self).spec_mbuf().view(), final(self).spec_offset() + i) == v,
            final(self).spec_offset() == old(self).spec_offset(),
    {
        let b = u32_to_be(v);
        self.write_at(i, b.as_slice());
        proof {
            crate::packets::mbuf::lemma_be32_roundtrip(
                old(self).spec_mbuf().view(),
                (old(self).spec_offset() + i) as nat,
                v,
            );
        }
    }
}

impl<E: Ipv6Packet> Icmpv6<E, ()> {
    /// Casts the message to the payload type `Q`, where the packet holds
    /// `Q`'s fixed payload.
    pub fn downcast<Q: Icmpv6Payload>(self) -> (r: Result<Icmpv6<E, Q>, PacketError>)
        requires
            self.inv(),
        ensures
            match read_spec(self.spec_mbuf().view().len(), self.spec_offset() + 4, Q::spec_size()) {
                Ok(_) => r matches Ok(p) && p.inv() && p.spec_offset() == self.spec_offset()
                    && p.spec_mbuf() == self.spec_mbuf(),
                Err(e) => r matches Err(PacketError::Buffer(e2)) && e2 == e,
            },
    {
        proof {
            self.lemma_inv();
        }
        match read_item::<Q>(self.envelope.mbuf(), self.offset + 4) {
            Ok(_) => Ok(Icmpv6 { envelope: self.envelope, offset: self.offset, payload: PhantomData }),
            Err(e) => Err(PacketError::Buffer(e)),
        }
    }

    /// `type: .., code: .., checksum: 0x....`
    pub fn to_string(&self) -> (r: String)
        requires
            self.inv(),
        ensures
            r@ == "type: "@ + icmpv6_type_text(self.spec_msg_type()) + ", code: "@ + dec8(self.spec_code()) + ", checksum: 0x"@ + hex16(self.spec_checksum()),
    {
        let mut s = String::from_str("type: ");
        let t = self.msg_type().to_string();
        push_str(&mut s, t.as_str());
        push_str(&mut s, ", code: ");
        push_dec8(&mut s, self.code());
        push_str(&mut s, ", checksum: 0x");
        push_hex16(&mut s, self.checksum());
        proof {
            reveal_strlit("type: ");
        }
        s
    }
}

impl<E: Ipv6Packet, P: Icmpv6Payload> Icmpv6Packet for Icmpv6<E, P> {
    open spec fn spec_msg_type(&self) -> u8 {
        self.spec_byte(0)
    }

    open spec fn spec_code(&self) -> u8 {
        self.spec_byte(1)
    }

    open spec fn spec_checksum(&self) -> u16 {
        be16(self.spec_mbuf().view(), self.spec_offset() + 2int)
    }

    #[inline]
    fn msg_type(&self) -> (r: Icmpv6Type) {
        Icmpv6Type::new(self.read_u8(0))
    }

    #[inline]
    fn set_msg_type(&mut self, msg_type: Icmpv6Type) {
        let b = [msg_type.0];
        self.write_at(0, b.as_slice());
    }

    #[inline]
    fn code(&self) -> (r: u8) {
        self.read_u8(1)
    }

    #[inline]
    fn set_code(&mut self, code: u8) {
        let b = [code];
        self.write_at(1, b.as_slice());
    }

    #[inline]
    fn checksum(&self) -> (r: u16) {
        self.read_be16(2)
    }

    #[inline]
    fn set_checksum(&mut self, checksum: u16) {
        let b = u16_to_be(checksum);
        self.write_at(2, b.as_slice());
        proof {
            crate::packets::mbuf::lemma_be16_roundtrip(
                old(self).spec_mbuf().view(),
                old(self).spec_offset() + 2,
                checksum,
            );
        }
    }
}

impl<E: Ipv6Packet, P: Icmpv6Payload> Icmpv6<E, P> {
    /// The cascade of this layer is its envelope's cascade: it writes
    /// nothing of its own.
    pub proof fn lemma_cascade_view(&self)
        ensures
            forall|v: Seq<u8>| #[trigger] self.spec_cascade_view(v) == self.spec_envelope().spec_cascade_view(v),
    {
    }
}

impl<E: Ipv6Packet, P: Icmpv6Payload> Packet for Icmpv6<E, P> {
    /// The message derives nothing: the envelope's cascade.
    closed spec fn spec_cascade_view(&self, v: Seq<u8>) -> Seq<u8> {
        self.envelope.spec_cascade_view(v)
    }

    closed spec fn spec_mbuf(&self) -> MBuf {
        self.envelope.spec_mbuf()
    }

    closed spec fn spec_offset(&self) -> nat {
        self.offset as nat
    }

    /// The header and the fixed portion of the message body.
    open spec fn spec_header_len(&self) -> nat {
        4 + P::spec_size()
    }

    closed spec fn inv(&self) -> bool {
        &&& self.envelope.inv()
        &&& self.offset == self.envelope.spec_offset() + self.envelope.spec_header_len()
        &&& self.offset + 4 + P::spec_size() <= self.envelope.spec_mbuf().view().len()
    }

    proof fn lemma_inv(&self) {
        self.envelope.lemma_inv();
        assert(self.spec_header_len() == 4 + P::spec_size());
        assert(self.spec_offset() + self.spec_header_len() <= self.spec_mbuf().view().len());
    }

    fn mbuf(&self) -> (r: &MBuf) {
        self.envelope.mbuf()
    }

    fn offset(&self) -> (r: usize) {
        self.offset
    }

    fn header_len(&self) -> (r: usize) {
        proof {
            self.lemma_inv();
        }
        4 + P::size()
    }

    fn write_bytes(&mut self, pos: usize, bytes: &[u8]) {
        proof {
            self.envelope.lemma_inv();
        }
        self.envelope.write_bytes(pos, bytes);
    }

    fn resize(&mut self, pos: usize, len: isize) -> (r: Result<(), BufferError>) {
        let ghost before = self.spec_mbuf().view();
        proof {
            self.envelope.lemma_inv();
        }
        let r = self.envelope.resize(pos, len);
        proof {
            if r is Ok && pos <= before.len() {
                crate::packets::lemma_resize_len(before, pos as nat, len as int);
            }
        }
        r
    }

    fn cascade(&mut self) {
        proof {
            self.envelope.lemma_inv();
        }
        self.envelope.cascade();
    }

    fn into_mbuf(self) -> (r: MBuf) {
        proof {
            self.envelope.lemma_inv();
        }
        self.envelope.into_mbuf()
    }
}

impl<E: Ipv6Packet, P: Icmpv6Payload> ParsedPacket for Icmpv6<E, P> {
    type Envelope = E;

    /// The message's fixed header and its payload both fit.
    open spec fn spec_parses(envelope: E) -> bool {
        let d = envelope.spec_mbuf().view();
        let po = envelope.spec_offset() + envelope.spec_header_len();
        &&& read_spec(d.len(), po, 4) is Ok
        &&& read_spec(d.len(), po + 4, P::spec_size()) is Ok
    }

    open spec fn spec_default_header(envelope: E) -> Seq<u8> {
        zeros(4 + P::spec_size())
    }


    closed spec fn spec_envelope(&self) -> E {
        self.envelope
    }

    proof fn lemma_envelope(&self) {
    }

    fn envelope(&self) -> (r: &E) {
        &self.envelope
    }

    fn deparse(self) -> (r: E) {
        self.envelope
    }

    fn do_parse(envelope: E) -> (r: Result<Self, PacketError>)
        ensures
            ({
                let d = envelope.spec_mbuf().view();
                let po = envelope.spec_offset() + envelope.spec_header_len();
                match read_spec(d.len(), po, 4) {
                    Err(e) => r matches Err(PacketError::Buffer(e2)) && e2 == e,
                    Ok(_) => match read_spec(d.len(), po + 4, P::spec_size()) {
                        Ok(_) => r matches Ok(p) && p.spec_offset() == po,
                        Err(e) => r matches Err(PacketError::Buffer(e2)) && e2 == e,
                    },
                }
            }),
    {
        proof {
            envelope.lemma_inv();
        }
        let offset = envelope.payload_offset();
        match read_item::<Icmpv6Header>(envelope.mbuf(), offset) {
            Ok(_) => {},
            Err(e) => {
                return Err(PacketError::Buffer(e));
            },
        }
        match read_item::<P>(envelope.mbuf(), offset + 4) {
            Ok(_) => Ok(Icmpv6 { envelope, offset, payload: PhantomData }),
            Err(e) => Err(PacketError::Buffer(e)),
        }
    }

    /// Inserts a message of zeros: header and fixed payload.
    fn do_push(envelope: E) -> (r: Result<Self, PacketError>)
        ensures
            ({
                let d = envelope.spec_mbuf().view();
                let po = envelope.spec_offset() + envelope.spec_header_len();
                &&& !resize_fails(envelope.spec_mbuf(), po, 4int + P::spec_size()) ==> (r matches Ok(p)
                    && p.spec_mbuf().view() == splice(resize_spec(d, po, 4int + P::spec_size()), po, zeros(4 + P::spec_size())))
                &&& resize_fails(envelope.spec_mbuf(), po, 4int + P::spec_size()) ==> r matches Err(
                    PacketError::Buffer(BufferError::NotResized),
                )
            }),
    {
        let mut envelope = envelope;
        proof {
            envelope.lemma_inv();
        }
        let offset = envelope.payload_offset();
        if P::size() > 2172 {
            proof {
                envelope.spec_mbuf().lemma_len_bound();
            }
            return Err(PacketError::Buffer(BufferError::NotResized));
        }
        let n = 4 + P::size();
        match insert_zeros(&mut envelope, n) {
            Ok(_) => {},
            Err(e) => {
                return Err(PacketError::Buffer(e));
            },
        }
        Ok(Icmpv6 { envelope, offset, payload: PhantomData })
    }

    fn remove(self) -> (r: Result<E, PacketError>)
        ensures
            r matches Ok(e) && e.spec_mbuf().view() == dealloc_spec(
                self.spec_mbuf().view(),
                self.spec_offset(),
                4 + P::spec_size(),
            ),
    {
        proof {
            self.lemma_inv();
        }
        let n = self.header_len();
        let mut envelope = self.envelope;
        let offset = self.offset;
        proof {
            envelope.lemma_inv();
        }
        match envelope.resize_payload(offset, -(n as isize)) {
            Ok(_) => Ok(envelope),
            Err(e) => Err(PacketError::Buffer(e)),
        }
    }
}

} // verus!
