//! The MTU option (RFC 4861, section 4.6.4).
//!
//! ```text
//!  0                   1                   2                   3
//!  0 1 2 3 4 5 6 7 8 9 0 1 2 3 4 5 6 7 8 9 0 1 2 3 4 5 6 7 8 9 0 1
//! +-+-+-+-+-+-+-+-+-+-+-+-+-+-+-+-+-+-+-+-+-+-+-+-+-+-+-+-+-+-+-+-+
//! |     Type      |    Length     |           Reserved            |
//! +-+-+-+-+-+-+-+-+-+-+-+-+-+-+-+-+-+-+-+-+-+-+-+-+-+-+-+-+-+-+-+-+
//! |                              MTU                              |
//! +-+-+-+-+-+-+-+-+-+-+-+-+-+-+-+-+-+-+-+-+-+-+-+-+-+-+-+-+-+-+-+-+
//! ```
//!
//! Type 5, length 1; MTU is the recommended MTU for the link.
use super::{write_option_bytes, MTU};
use crate::packets::buffer::{read_item, read_spec};
use crate::packets::mbuf::{be16, be16_bytes, be32, be32_bytes, splice, u16_to_be, u32_to_be, MBuf};
use crate::packets::{Fixed, Packet, PacketError, ParseError};
use crate::text::{dec_text, push_dec, push_str};
use vstd::prelude::*;

verus! {

/// The fields of the MTU option as they stand in a buffer.
#[derive(Debug, Copy, Clone)]
pub struct MtuFields {
    option_type: u8,
    length: u8,
    reserved: u16,
    mtu: u32,
}

impl Default for MtuFields {
    fn default() -> (r: MtuFields)
        ensures
            r.spec_bytes() == seq![MTU, 1u8, 0, 0, 0, 0, 0, 0],
    {
        let r = MtuFields { option_type: MTU, length: 1, reserved: 0, mtu: 0 };
        assert(be16_bytes(0u16) =~= seq![0u8, 0]);
        assert(be32_bytes(0u32) =~= seq![0u8, 0, 0, 0]);
        assert(r.spec_bytes() =~= seq![MTU, 1u8, 0, 0, 0, 0, 0, 0]);
        r
    }
}

impl Fixed for MtuFields {
    open spec fn spec_size() -> nat {
        8
    }

    closed spec fn spec_bytes(&self) -> Seq<u8> {
        seq![self.option_type, self.length] + be16_bytes(self.reserved) + be32_bytes(self.mtu)
    }

    fn size() -> (r: usize) {
        8
    }

    fn to_bytes(&self) -> (r: Vec<u8>) {
        let a = u16_to_be(self.reserved);
        let b = u32_to_be(self.mtu);
        let v = vec![self.option_type, self.length, a[0], a[1], b[0], b[1], b[2], b[3]];
        assert(v@ =~= self.spec_bytes());
        v
    }

    proof fn lemma_bytes_len(&self) {
    }
}

/// Maximum transmission unit option, as parsed at `offset`.
#[derive(Debug, Copy, Clone)]
pub struct Mtu {
    fields: MtuFields,
    offset: usize,
}

/// The MTU option read from the eight octets at `o` of `d`.
pub closed spec fn mtu_at(d: Seq<u8>, o: nat) -> Mtu {
    Mtu {
        fields: MtuFields {
            option_type: d[o as int],
            length: d[o + 1int],
            reserved: be16(d, o + 2int),
            mtu: be32(d, o + 4int),
        },
        offset: o as usize,
    }
}

/// What the option read at `o` of `d` holds: the type octet there, the
/// length octet after it, the MTU in the last four octets, and `o` itself
/// as its offset.
pub proof fn lemma_mtu_at(d: Seq<u8>, o: nat)
    requires
        o <= usize::MAX,
    ensures
        mtu_at(d, o).spec_offset() == o,
        mtu_at(d, o).spec_option_type() == d[o as int],
        mtu_at(d, o).spec_length() == d[o + 1int],
        mtu_at(d, o).spec_mtu() == be32(d, o + 4int),
{
}

impl Mtu {
    pub closed spec fn spec_option_type(&self) -> u8 {
        self.fields.option_type
    }

    pub closed spec fn spec_length(&self) -> u8 {
        self.fields.length
    }

    pub closed spec fn spec_mtu(&self) -> u32 {
        self.fields.mtu
    }

    pub closed spec fn spec_offset(&self) -> nat {
        self.offset as nat
    }

    /// Parses the MTU option from the message buffer at offset
    pub fn parse(mbuf: &MBuf, offset: usize) -> (r: Result<Mtu, PacketError>)
        ensures
            match read_spec(mbuf.view().len(), offset as nat, 8) {
                Err(e) => r == Err::<Mtu, PacketError>(PacketError::Buffer(e)),
                Ok(_) => if mbuf.view()[offset + 1] != 1 {
                    r matches Err(PacketError::Parse(pe)) && pe.message()
                        == "Invalid MTU option length"@
                } else {
                    r == Ok::<Mtu, PacketError>(mtu_at(mbuf.view(), offset as nat))
                },
            },
            r matches Ok(m) ==> {
                &&& m.spec_offset() == offset
                &&& m.spec_option_type() == mbuf.view()[offset as int]
                &&& m.spec_length() == 1
                &&& m.spec_mtu() == be32(mbuf.view(), offset + 4)
            },
    {
        let _len = mbuf.data_len();
        match read_item::<MtuFields>(mbuf, offset) {
            Ok(_) => {},
            Err(e) => {
                return Err(PacketError::Buffer(e));
            },
        }
        let length = mbuf.read_u8(offset + 1);
        if length != 1 {
            Err(PacketError::Parse(ParseError::new("Invalid MTU option length")))
        } else {
            let fields = MtuFields {
                option_type: mbuf.read_u8(offset),
                length,
                reserved: mbuf.read_be16(offset + 2),
                mtu: mbuf.read_be32(offset + 4),
            };
            Ok(Mtu { fields, offset })
        }
    }

    /// Returns the message buffer offset for this option
    pub fn offset(&self) -> (r: usize)
        ensures
            r == self.spec_offset(),
    {
        self.offset
    }

    #[inline]
    pub fn option_type(&self) -> (r: u8)
        ensures
            r == self.spec_option_type(),
    {
        self.fields.option_type
    }

    pub fn length(&self) -> (r: u8)
        ensures
            r == self.spec_length(),
    {
        self.fields.length
    }

    pub fn mtu(&self) -> (r: u32)
        ensures
            r == self.spec_mtu(),
    {
        self.fields.mtu
    }

    /// Sets the MTU, in the option and in the payload of `packet` that
    /// holds it.
    pub fn set_mtu<P: Packet>(&mut self, packet: &mut P, mtu: u32)
        requires
            old(packet).inv(),
            old(packet).spec_offset() + old(packet).spec_header_len() <= old(self).spec_offset(),
            old(self).spec_offset() + 8 <= old(packet).spec_mbuf().view().len(),
        ensures
            final(packet).inv(),
            final(packet).spec_mbuf().view() == splice(
                old(packet).spec_mbuf().view(),
                old(self).spec_offset() + 4,
                be32_bytes(mtu),
            ),
            final(packet).spec_offset() == old(packet).spec_offset(),
            final(self).spec_mtu() == mtu,
            final(self).spec_option_type() == old(self).spec_option_type(),
            final(self).spec_length() == old(self).spec_length(),
            final(self).spec_offset() == old(self).spec_offset(),
            *old(self) == mtu_at(old(packet).spec_mbuf().view(), old(self).spec_offset())
                ==> *final(self) == mtu_at(final(packet).spec_mbuf().view(), old(self).spec_offset()),
    {
        proof {
            packet.lemma_inv();
        }
        let b = u32_to_be(mtu);
        write_option_bytes(packet, self.offset + 4, b.as_slice());
        self.fields.mtu = mtu;
    }

    /// `type: .., length: .., mtu: ..`
    pub fn to_string(&self) -> (r: String)
        ensures
            r@ == "type: "@ + dec_text(self.spec_option_type() as nat) + ", length: "@ + dec_text(
                self.spec_length() as nat,
            ) + ", mtu: "@ + dec_text(self.spec_mtu() as nat),
    {
        let mut s = String::from_str("type: ");
        push_dec(&mut s, self.fields.option_type as u64);
        push_str(&mut s, ", length: ");
        push_dec(&mut s, self.fields.length as u64);
        push_str(&mut s, ", mtu: ");
        push_dec(&mut s, self.fields.mtu as u64);
        proof {
            reveal_strlit("type: ");
        }
        s
    }
}

} // verus!
