//! The prefix information option (RFC 4861, section 4.6.2).
//!
//! ```text
//!  0                   1                   2                   3
//!  0 1 2 3 4 5 6 7 8 9 0 1 2 3 4 5 6 7 8 9 0 1 2 3 4 5 6 7 8 9 0 1
//! +-+-+-+-+-+-+-+-+-+-+-+-+-+-+-+-+-+-+-+-+-+-+-+-+-+-+-+-+-+-+-+-+
//! |     Type      |    Length     | Prefix Length |L|A| Reserved1 |
//! +-+-+-+-+-+-+-+-+-+-+-+-+-+-+-+-+-+-+-+-+-+-+-+-+-+-+-+-+-+-+-+-+
//! |                         Valid Lifetime                        |
//! +-+-+-+-+-+-+-+-+-+-+-+-+-+-+-+-+-+-+-+-+-+-+-+-+-+-+-+-+-+-+-+-+
//! |                       Preferred Lifetime                      |
//! +-+-+-+-+-+-+-+-+-+-+-+-+-+-+-+-+-+-+-+-+-+-+-+-+-+-+-+-+-+-+-+-+
//! |                           Reserved2                           |
//! +-+-+-+-+-+-+-+-+-+-+-+-+-+-+-+-+-+-+-+-+-+-+-+-+-+-+-+-+-+-+-+-+
//! |                            Prefix                             |
//! +-+-+-+-+-+-+-+-+-+-+-+-+-+-+-+-+-+-+-+-+-+-+-+-+-+-+-+-+-+-+-+-+
//! ```
//!
//! Type 3, length 4. L: the prefix can be used for on-link determination;
//! A: the prefix can be used for stateless address configuration.
use super::{write_option_bytes, PREFIX_INFORMATION};
use crate::packets::buffer::{read_item, read_spec};
use crate::packets::ip::{
    ipv6_text, lemma_v6_from_segments, v6_bytes, v6_from_segments, v6_segments_at, Ipv6Addr,
};
use crate::packets::mbuf::{be32, be32_bytes, splice, u32_to_be, MBuf};
use crate::packets::{Fixed, Packet, PacketError, ParseError};
use crate::text::{bool_text, dec_text, push_bool, push_dec, push_str};
use vstd::prelude::*;

verus! {

/// On-link flag.
pub const ONLINK: u8 = 0b1000_0000;

/// Autonomous address-configuration flag.
pub const AUTO: u8 = 0b0100_0000;

/// The fields of the prefix information option as they stand in a buffer.
#[derive(Debug, Copy, Clone)]
pub struct PrefixInformationFields {
    option_type: u8,
    length: u8,
    prefix_length: u8,
    flags: u8,
    valid_lifetime: u32,
    preferred_lifetime: u32,
    reserved: u32,
    prefix: Ipv6Addr,
}

impl Default for PrefixInformationFields {
    fn default() -> (r: PrefixInformationFields)
        ensures
            r.spec_bytes() == seq![PREFIX_INFORMATION, 4u8] + Seq::new(30, |i: int| 0u8),
    {
        let r = PrefixInformationFields {
            option_type: PREFIX_INFORMATION,
            length: 4,
            prefix_length: 0,
            flags: 0,
            valid_lifetime: 0,
            preferred_lifetime: 0,
            reserved: 0,
            prefix: Ipv6Addr::unspecified(),
        };
        assert(be32_bytes(0u32) =~= seq![0u8, 0, 0, 0]);
        assert(v6_bytes(r.prefix.0@) =~= Seq::new(16, |i: int| 0u8));
        assert(r.spec_bytes() =~= seq![PREFIX_INFORMATION, 4u8] + Seq::new(30, |i: int| 0u8));
        r
    }
}

impl Fixed for PrefixInformationFields {
    open spec fn spec_size() -> nat {
        32
    }

    closed spec fn spec_bytes(&self) -> Seq<u8> {
        seq![self.option_type, self.length, self.prefix_length, self.flags] + be32_bytes(
            self.valid_lifetime,
        ) + be32_bytes(self.preferred_lifetime) + be32_bytes(self.reserved) + v6_bytes(
            self.prefix.0@,
        )
    }

    fn size() -> (r: usize) {
        32
    }

    fn to_bytes(&self) -> (r: Vec<u8>) {
        let a = u32_to_be(self.valid_lifetime);
        let b = u32_to_be(self.preferred_lifetime);
        let c = u32_to_be(self.reserved);
        let mut v = vec![
            self.option_type, self.length, self.prefix_length, self.flags,
            a[0], a[1], a[2], a[3], b[0], b[1], b[2], b[3], c[0], c[1], c[2], c[3],
        ];
        let p = self.prefix.to_bytes();
        let ghost head = v@;
        let mut i: usize = 0;
        while i < 16
            invariant
                i <= 16,
                p@ == v6_bytes(self.prefix.0@),
                v@ == head + p@.take(i as int),
            decreases 16 - i,
        {
            v.push(p[i]);
            i = i + 1;
            assert(v@ =~= head + p@.take(i as int));
        }
        assert(p@.take(16) =~= p@);
        assert(v@ =~= self.spec_bytes());
        v
    }

    proof fn lemma_bytes_len(&self) {
    }
}

/// Prefix information option, as parsed at `offset`.
#[derive(Debug, Copy, Clone)]
pub struct PrefixInformation {
    fields: PrefixInformationFields,
    offset: usize,
}

/// The option read from the thirty-two octets at `o` of `d`.
pub closed spec fn prefix_information_at(d: Seq<u8>, o: nat) -> PrefixInformation {
    PrefixInformation {
        fields: PrefixInformationFields {
            option_type: d[o as int],
            length: d[o + 1int],
            prefix_length: d[o + 2int],
            flags: d[o + 3int],
            valid_lifetime: be32(d, o + 4int),
            preferred_lifetime: be32(d, o + 8int),
            reserved: be32(d, o + 12int),
            prefix: v6_from_segments(v6_segments_at(d, o + 16int)),
        },
        offset: o as usize,
    }
}

/// What the option read at `o` of `d` holds: each field from its octets
/// (the lifetimes and the prefix in network order), and `o` itself as its
/// offset.
pub proof fn lemma_prefix_information_at(d: Seq<u8>, o: nat)
    requires
        o <= usize::MAX,
    ensures
        prefix_information_at(d, o).spec_offset() == o,
        prefix_information_at(d, o).spec_option_type() == d[o as int],
        prefix_information_at(d, o).spec_length() == d[o + 1int],
        prefix_information_at(d, o).spec_prefix_length() == d[o + 2int],
        prefix_information_at(d, o).spec_flags() == d[o + 3int],
        prefix_information_at(d, o).spec_valid_lifetime() == be32(d, o + 4int),
        prefix_information_at(d, o).spec_preferred_lifetime() == be32(d, o + 8int),
        prefix_information_at(d, o).spec_prefix() == v6_from_segments(v6_segments_at(d, o + 16int)),
{
}

impl PrefixInformation {
    pub closed spec fn spec_option_type(&self) -> u8 {
        self.fields.option_type
    }

    pub closed spec fn spec_length(&self) -> u8 {
        self.fields.length
    }

    pub closed spec fn spec_prefix_length(&self) -> u8 {
        self.fields.prefix_length
    }

    pub closed spec fn spec_flags(&self) -> u8 {
        self.fields.flags
    }

    pub closed spec fn spec_valid_lifetime(&self) -> u32 {
        self.fields.valid_lifetime
    }

    pub closed spec fn spec_preferred_lifetime(&self) -> u32 {
        self.fields.preferred_lifetime
    }

    pub closed spec fn spec_prefix(&self) -> Ipv6Addr {
        self.fields.prefix
    }

    pub closed spec fn spec_offset(&self) -> nat {
        self.offset as nat
    }

    /// Parses the prefix information option from the message buffer at
    /// offset
    pub fn parse(mbuf: &MBuf, offset: usize) -> (r: Result<PrefixInformation, PacketError>)
        ensures
            match read_spec(mbuf.view().len(), offset as nat, 32) {
                Err(e) => r == Err::<PrefixInformation, PacketError>(PacketError::Buffer(e)),
                Ok(_) => if mbuf.view()[offset + 1] != 4 {
                    r matches Err(PacketError::Parse(pe)) && pe.message()
                        == "Invalid prefix information option length"@
                } else {
                    r == Ok::<PrefixInformation, PacketError>(
                        prefix_information_at(mbuf.view(), offset as nat),
                    )
                },
            },
            r matches Ok(p) ==> {
                &&& p.spec_offset() == offset
                &&& p.spec_option_type() == mbuf.view()[offset as int]
                &&& p.spec_length() == 4
                &&& p.spec_prefix_length() == mbuf.view()[offset + 2]
                &&& p.spec_flags() == mbuf.view()[offset + 3]
                &&& p.spec_valid_lifetime() == be32(mbuf.view(), offset + 4)
                &&& p.spec_preferred_lifetime() == be32(mbuf.view(), offset + 8)
                &&& p.spec_prefix() == v6_from_segments(v6_segments_at(mbuf.view(), offset + 16))
            },
    {
        let _len = mbuf.data_len();
        match read_item::<PrefixInformationFields>(mbuf, offset) {
            Ok(_) => {},
            Err(e) => {
                return Err(PacketError::Buffer(e));
            },
        }
        let length = mbuf.read_u8(offset + 1);
        if length != 4 {
            Err(PacketError::Parse(ParseError::new("Invalid prefix information option length")))
        } else {
            let p = offset + 16;
            let prefix = Ipv6Addr(
                [
                    mbuf.read_be16(p),
                    mbuf.read_be16(p + 2),
                    mbuf.read_be16(p + 4),
                    mbuf.read_be16(p + 6),
                    mbuf.read_be16(p + 8),
                    mbuf.read_be16(p + 10),
                    mbuf.read_be16(p + 12),
                    mbuf.read_be16(p + 14),
                ],
            );
            proof {
                lemma_v6_from_segments(prefix);
                assert(prefix.0@ =~= v6_segments_at(mbuf.view(), p as int));
            }
            let fields = PrefixInformationFields {
                option_type: mbuf.read_u8(offset),
                length,
                prefix_length: mbuf.read_u8(offset + 2),
                flags: mbuf.read_u8(offset + 3),
                valid_lifetime: mbuf.read_be32(offset + 4),
                preferred_lifetime: mbuf.read_be32(offset + 8),
                reserved: mbuf.read_be32(offset + 12),
                prefix,
            };
            Ok(PrefixInformation { fields, offset })
        }
    }

    /// Returns the message buffer offset for this option
    pub fn offset(&self) -> (r: usize)
        ensures
            r == self.spec_offset(),
    {
        self.offset
    }

    #[inline]
    pub fn option_type(&self) -> (r: u8)
        ensures
            r == self.spec_option_type(),
    {
        self.fields.option_type
    }

    #[inline]
    pub fn length(&self) -> (r: u8)
        ensures
            r == self.spec_length(),
    {
        self.fields.length
    }

    #[inline]
    pub fn prefix_length(&self) -> (r: u8)
        ensures
            r == self.spec_prefix_length(),
    {
        self.fields.prefix_length
    }

    #[inline]
    pub fn on_link(&self) -> (r: bool)
        ensures
            r == (self.spec_flags() & ONLINK > 0),
    {
        self.fields.flags & ONLINK > 0
    }

    #[inline]
    pub fn autonomous(&self) -> (r: bool)
        ensures
            r == (self.spec_flags() & AUTO > 0),
    {
        self.fields.flags & AUTO > 0
    }

    #[inline]
    pub fn valid_lifetime(&self) -> (r: u32)
        ensures
            r == self.spec_valid_lifetime(),
    {
        self.fields.valid_lifetime
    }

    #[inline]
    pub fn preferred_lifetime(&self) -> (r: u32)
        ensures
            r == self.spec_preferred_lifetime(),
    {
        self.fields.preferred_lifetime
    }

    #[inline]
    pub fn prefix(&self) -> (r: Ipv6Addr)
        ensures
            r == self.spec_prefix(),
    {
        self.fields.prefix
    }

    /// Sets the octet at `i` of the option to `v`, in the payload of
    /// `packet` that holds it.
    fn write_u8<P: Packet>(&self, packet: &mut P, i: usize, v: u8)
        requires
            old(packet).inv(),
            old(packet).spec_offset() + old(packet).spec_header_len() <= self.spec_offset(),
            self.spec_offset() + 32 <= old(packet).spec_mbuf().view().len(),
            i < 32,
        ensures
            final(packet).inv(),
            final(packet).spec_mbuf().view() == splice(
                old(packet).spec_mbuf().view(),
                (self.spec_offset() + i) as nat,
                seq![v],
            ),
            final(packet).spec_offset() == old(packet).spec_offset(),
    {
        proof {
            packet.lemma_inv();
        }
        let b = [v];
        write_option_bytes(packet, self.offset + i, b.as_slice());
    }

    /// Sets the number of leading bits of the prefix that are valid.
    #[inline]
    pub fn set_prefix_length<P: Packet>(&mut self, packet: &mut P, prefix_length: u8)
        requires
            old(packet).inv(),
            old(packet).spec_offset() + old(packet).spec_header_len() <= old(self).spec_offset(),
            old(self).spec_offset() + 32 <= old(packet).spec_mbuf().view().len(),
        ensures
            final(packet).inv(),
            final(packet).spec_mbuf().view() == splice(
                old(packet).spec_mbuf().view(),
                old(self).spec_offset() + 2,
                seq![prefix_length],
            ),
            final(packet).spec_offset() == old(packet).spec_offset(),
            final(self).spec_prefix_length() == prefix_length,
            final(self).spec_offset() == old(self).spec_offset(),
            *old(self) == prefix_information_at(old(packet).spec_mbuf().view(), old(self).spec_offset())
                ==> *final(self) == prefix_information_at(final(packet).spec_mbuf().view(), old(self).spec_offset()),
    {
        self.write_u8(packet, 2, prefix_length);
        self.fields.prefix_length = prefix_length;
    }

    /// Sets the flags octet to `flags`.
    fn write_flags<P: Packet>(&mut self, packet: &mut P, flags: u8)
        requires
            old(packet).inv(),
            old(packet).spec_offset() + old(packet).spec_header_len() <= old(self).spec_offset(),
            old(self).spec_offset() + 32 <= old(packet).spec_mbuf().view().len(),
        ensures
            final(packet).inv(),
            final(packet).spec_mbuf().view() == splice(
                old(packet).spec_mbuf().view(),
                old(self).spec_offset() + 3,
                seq![flags],
            ),
            final(packet).spec_offset() == old(packet).spec_offset(),
            final(self).spec_flags() == flags,
            final(self).spec_offset() == old(self).spec_offset(),
            *old(self) == prefix_information_at(old(packet).spec_mbuf().view(), old(self).spec_offset())
                ==> *final(self) == prefix_information_at(final(packet).spec_mbuf().view(), old(self).spec_offset()),
    {
        self.write_u8(packet, 3, flags);
        self.fields.flags = flags;
    }

    #[inline]
    pub fn set_on_link<P: Packet>(&mut self, packet: &mut P)
        requires
            old(packet).inv(),
            old(packet).spec_offset() + old(packet).spec_header_len() <= old(self).spec_offset(),
            old(self).spec_offset() + 32 <= old(packet).spec_mbuf().view().len(),
        ensures
            final(packet).inv(),
            final(packet).spec_mbuf().view() == splice(
                old(packet).spec_mbuf().view(),
                old(self).spec_offset() + 3,
                seq![old(self).spec_flags() | ONLINK],
            ),
            final(self).spec_flags() == old(self).spec_flags() | ONLINK,
            final(self).spec_offset() == old(self).spec_offset(),
            *old(self) == prefix_information_at(old(packet).spec_mbuf().view(), old(self).spec_offset())
                ==> *final(self) == prefix_information_at(final(packet).spec_mbuf().view(), old(self).spec_offset()),
    {
        let f = self.fields.flags | ONLINK;
        self.write_flags(packet, f);
    }

    #[inline]
    pub fn unset_on_link<P: Packet>(&mut self, packet: &mut P)
        requires
            old(packet).inv(),
            old(packet).spec_offset() + old(packet).spec_header_len() <= old(self).spec_offset(),
            old(self).spec_offset() + 32 <= old(packet).spec_mbuf().view().len(),
        ensures
            final(packet).inv(),
            final(packet).spec_mbuf().view() == splice(
                old(packet).spec_mbuf().view(),
                old(self).spec_offset() + 3,
                seq![old(self).spec_flags() & !ONLINK],
            ),
            final(self).spec_flags() == old(self).spec_flags() & !ONLINK,
            final(self).spec_offset() == old(self).spec_offset(),
            *old(self) == prefix_information_at(old(packet).spec_mbuf().view(), old(self).spec_offset())
                ==> *final(self) == prefix_information_at(final(packet).spec_mbuf().view(), old(self).spec_offset()),
    {
        let f = self.fields.flags & !ONLINK;
        self.write_flags(packet, f);
    }

    #[inline]
    pub fn set_autonomous<P: Packet>(&mut self, packet: &mut P)
        requires
            old(packet).inv(),
            old(packet).spec_offset() + old(packet).spec_header_len() <= old(self).spec_offset(),
            old(self).spec_offset() + 32 <= old(packet).spec_mbuf().view().len(),
        ensures
            final(packet).inv(),
            final(packet).spec_mbuf().view() == splice(
                old(packet).spec_mbuf().view(),
                old(self).spec_offset() + 3,
                seq![old(self).spec_flags() | AUTO],
            ),
            final(self).spec_flags() == old(self).spec_flags() | AUTO,
            final(self).spec_offset() == old(self).spec_offset(),
            *old(self) == prefix_information_at(old(packet).spec_mbuf().view(), old(self).spec_offset())
                ==> *final(self) == prefix_information_at(final(packet).spec_mbuf().view(), old(self).spec_offset()),
    {
        let f = self.fields.flags | AUTO;
        self.write_flags(packet, f);
    }

    #[inline]
    pub fn unset_autonomous<P: Packet>(&mut self, packet: &mut P)
        requires
            old(packet).inv(),
            old(packet).spec_offset() + old(packet).spec_header_len() <= old(self).spec_offset(),
            old(self).spec_offset() + 32 <= old(packet).spec_mbuf().view().len(),
        ensures
            final(packet).inv(),
            final(packet).spec_mbuf().view() == splice(
                old(packet).spec_mbuf().view(),
                old(self).spec_offset() + 3,
                seq![old(self).spec_flags() & !AUTO],
            ),
            final(self).spec_flags() == old(self).spec_flags() & !AUTO,
            final(self).spec_offset() == old(self).spec_offset(),
            *old(self) == prefix_information_at(old(packet).spec_mbuf().view(), old(self).spec_offset())
                ==> *final(self) == prefix_information_at(final(packet).spec_mbuf().view(), old(self).spec_offset()),
    {
        let f = self.fields.flags & !AUTO;
        self.write_flags(packet, f);
    }

    #[inline]
    pub fn set_valid_lifetime<P: Packet>(&mut self, packet: &mut P, valid_lifetime: u32)
        requires
            old(packet).inv(),
            old(packet).spec_offset() + old(packet).spec_header_len() <= old(self).spec_offset(),
            old(self).spec_offset() + 32 <= old(packet).spec_mbuf().view().len(),
        ensures
            final(packet).inv(),
            final(packet).spec_mbuf().view() == splice(
                old(packet).spec_mbuf().view(),
                old(self).spec_offset() + 4,
                be32_bytes(valid_lifetime),
            ),
            final(self).spec_valid_lifetime() == valid_lifetime,
            final(self).spec_offset() == old(self).spec_offset(),
            *old(self) == prefix_information_at(old(packet).spec_mbuf().view(), old(self).spec_offset())
                ==> *final(self) == prefix_information_at(final(packet).spec_mbuf().view(), old(self).spec_offset()),
    {
        proof {
            packet.lemma_inv();
        }
        let b = u32_to_be(valid_lifetime);
        write_option_bytes(packet, self.offset + 4, b.as_slice());
        self.fields.valid_lifetime = valid_lifetime;
    }

    #[inline]
    pub fn set_preferred_lifetime<P: Packet>(&mut self, packet: &mut P, preferred_lifetime: u32)
        requires
            old(packet).inv(),
            old(packet).spec_offset() + old(packet).spec_header_len() <= old(self).spec_offset(),
            old(self).spec_offset() + 32 <= old(packet).spec_mbuf().view().len(),
        ensures
            final(packet).inv(),
            final(packet).spec_mbuf().view() == splice(
                old(packet).spec_mbuf().view(),
                old(self).spec_offset() + 8,
                be32_bytes(preferred_lifetime),
            ),
            final(self).spec_preferred_lifetime() == preferred_lifetime,
            final(self).spec_offset() == old(self).spec_offset(),
            *old(self) == prefix_information_at(old(packet).spec_mbuf().view(), old(self).spec_offset())
                ==> *final(self) == prefix_information_at(final(packet).spec_mbuf().view(), old(self).spec_offset()),
    {
        proof {
            packet.lemma_inv();
        }
        let b = u32_to_be(preferred_lifetime);
        write_option_bytes(packet, self.offset + 8, b.as_slice());
        self.fields.preferred_lifetime = preferred_lifetime;
    }

    #[inline]
    pub fn set_prefix<P: Packet>(&mut self, packet: &mut P, prefix: Ipv6Addr)
        requires
            old(packet).inv(),
            old(packet).spec_offset() + old(packet).spec_header_len() <= old(self).spec_offset(),
            old(self).spec_offset() + 32 <= old(packet).spec_mbuf().view().len(),
        ensures
            final(packet).inv(),
            final(packet).spec_mbuf().view() == splice(
                old(packet).spec_mbuf().view(),
                old(self).spec_offset() + 16,
                v6_bytes(prefix.0@),
            ),
            final(self).spec_prefix() == prefix,
            final(self).spec_offset() == old(self).spec_offset(),
            *old(self) == prefix_information_at(old(packet).spec_mbuf().view(), old(self).spec_offset())
                ==> *final(self) == prefix_information_at(final(packet).spec_mbuf().view(), old(self).spec_offset()),
    {
        proof {
            packet.lemma_inv();
        }
        let b = prefix.to_bytes();
        write_option_bytes(packet, self.offset + 16, b.as_slice());
        self.fields.prefix = prefix;
        proof {
            crate::packets::ip::lemma_v6_roundtrip(
                old(packet).spec_mbuf().view(),
                (self.offset + 16) as nat,
                prefix.0@,
            );
            lemma_v6_from_segments(prefix);
        }
    }

    /// `type: .., length: .., prefix_length: .., on_link: .., autonomous: ..,
    /// valid_lifetime: .., preferred_lifetime: .., prefix: ..`
    pub fn to_string(&self) -> (r: String)
        ensures
            r@ == "type: "@ + dec_text(self.spec_option_type() as nat) + ", length: "@ + dec_text(
                self.spec_length() as nat,
            ) + ", prefix_length: "@ + dec_text(self.spec_prefix_length() as nat)
                + ", on_link: "@ + bool_text(self.spec_flags() & ONLINK > 0) + ", autonomous: "@
                + bool_text(self.spec_flags() & AUTO > 0) + ", valid_lifetime: "@ + dec_text(
                self.spec_valid_lifetime() as nat,
            ) + ", preferred_lifetime: "@ + dec_text(self.spec_preferred_lifetime() as nat)
                + ", prefix: "@ + ipv6_text(self.spec_prefix().0@),
    {
        let mut s = String::from_str("type: ");
        push_dec(&mut s, self.fields.option_type as u64);
        push_str(&mut s, ", length: ");
        push_dec(&mut s, self.fields.length as u64);
        push_str(&mut s, ", prefix_length: ");
        push_dec(&mut s, self.fields.prefix_length as u64);
        push_str(&mut s, ", on_link: ");
        push_bool(&mut s, self.on_link());
        push_str(&mut s, ", autonomous: ");
        push_bool(&mut s, self.autonomous());
        push_str(&mut s, ", valid_lifetime: ");
        push_dec(&mut s, self.fields.valid_lifetime as u64);
        push_str(&mut s, ", preferred_lifetime: ");
        push_dec(&mut s, self.fields.preferred_lifetime as u64);
        push_str(&mut s, ", prefix: ");
        let p = self.fields.prefix.to_string();
        push_str(&mut s, p.as_str());
        proof {
            reveal_strlit("type: ");
        }
        s
    }
}

} // verus!
