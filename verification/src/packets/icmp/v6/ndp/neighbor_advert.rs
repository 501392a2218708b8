//! Neighbor advertisement messages (RFC 4861, section 4.4).
//!
//! ```text
//!  0                   1                   2                   3
//!  0 1 2 3 4 5 6 7 8 9 0 1 2 3 4 5 6 7 8 9 0 1 2 3 4 5 6 7 8 9 0 1
//! +-+-+-+-+-+-+-+-+-+-+-+-+-+-+-+-+-+-+-+-+-+-+-+-+-+-+-+-+-+-+-+-+
//! |     Type      |     Code      |          Checksum             |
//! +-+-+-+-+-+-+-+-+-+-+-+-+-+-+-+-+-+-+-+-+-+-+-+-+-+-+-+-+-+-+-+-+
//! |R|S|O|                     Reserved                            |
//! +-+-+-+-+-+-+-+-+-+-+-+-+-+-+-+-+-+-+-+-+-+-+-+-+-+-+-+-+-+-+-+-+
//! |                       Target Address                          |
//! +-+-+-+-+-+-+-+-+-+-+-+-+-+-+-+-+-+-+-+-+-+-+-+-+-+-+-+-+-+-+-+-+
//! |   Options ...
//! ```
//!
//! R: the sender is a router. S: the advertisement answers a solicitation.
//! O: the advertisement overrides a cached link-layer address.
use crate::packets::icmp::v6::ndp::NdpPayload;
use crate::packets::icmp::v6::{icmpv6_type_text, Icmpv6, Icmpv6Packet, Icmpv6Payload};
use crate::packets::ip::v6::Ipv6Packet;
use crate::packets::ip::{
    ipv6_text, lemma_v6_from_segments, lemma_v6_roundtrip, v6_bytes, v6_from_segments,
    v6_segments_at, Ipv6Addr,
};
use crate::packets::mbuf::{splice, u16_to_be};
use crate::packets::{Fixed, Packet};
use crate::text::{bool_text, dec32, dec8, hex16, push_bool, push_dec32, push_dec8, push_hex16, push_str};
use vstd::prelude::*;

verus! {

/// Router flag.
pub const R_FLAG: u8 = 0b1000_0000;

/// Solicited flag.
pub const S_FLAG: u8 = 0b0100_0000;

/// Override flag.
pub const O_FLAG: u8 = 0b0010_0000;

/// NDP neighbor advertisement message
#[derive(Debug, Copy, Clone)]
pub struct NeighborAdvertisement {
    flags: u8,
    reserved1: u8,
    reserved2: u16,
    target_addr: Ipv6Addr,
}

impl Default for NeighborAdvertisement {
    fn default() -> (r: NeighborAdvertisement)
        ensures
            r.spec_bytes() == Seq::new(20, |i: int| 0u8),
    {
        let r = NeighborAdvertisement {
            flags: 0,
            reserved1: 0,
            reserved2: 0,
            target_addr: Ipv6Addr::unspecified(),
        };
        assert(v6_bytes(r.target_addr.0@) =~= Seq::new(16, |i: int| 0u8));
        assert(r.spec_bytes() =~= Seq::new(20, |i: int| 0u8));
        r
    }
}

impl Fixed for NeighborAdvertisement {
    open spec fn spec_size() -> nat {
        20
    }

    closed spec fn spec_bytes(&self) -> Seq<u8> {
        seq![
            self.flags,
            self.reserved1,
            (self.reserved2 / 256) as u8,
            (self.reserved2 % 256) as u8,
        ] + v6_bytes(self.target_addr.0@)
    }

    fn size() -> (r: usize) {
        20
    }

    fn to_bytes(&self) -> (r: Vec<u8>) {
        let b = u16_to_be(self.reserved2);
        let mut v = vec![self.flags, self.reserved1, b[0], b[1]];
        let t = self.target_addr.to_bytes();
        let ghost head = v@;
        let mut i: usize = 0;
        while i < 16
            invariant
                i <= 16,
                t@ == v6_bytes(self.target_addr.0@),
                v@ == head + t@.take(i as int),
            decreases 16 - i,
        {
            v.push(t[i]);
            i = i + 1;
            assert(v@ =~= head + t@.take(i as int));
        }
        assert(t@.take(16) =~= t@);
        assert(v@ =~= self.spec_bytes());
        v
    }

    proof fn lemma_bytes_len(&self) {
    }
}

impl Icmpv6Payload for NeighborAdvertisement {

}

impl NdpPayload for NeighborAdvertisement {

}

/// NDP neighbor advertisement packet
impl<E: Ipv6Packet> Icmpv6<E, NeighborAdvertisement> {
    pub open spec fn spec_flags(&self) -> u8 {
        self.spec_byte(4)
    }

    pub open spec fn spec_target_addr(&self) -> Ipv6Addr {
        v6_from_segments(v6_segments_at(self.spec_mbuf().view(), self.spec_offset() + 8int))
    }

    /// Sets the flags of mask `m` to `on`.
    fn write_flag(&mut self, m: u8, on: bool)
        requires
            old(self).inv(),
        ensures
            final(self).inv(),
            final(self).spec_offset() == old(self).spec_offset(),
            final(self).spec_flags() == if on { old(self).spec_flags() | m } else { old(self).spec_flags() & !m },
            final(self).spec_mbuf().view() == splice(
                old(self).spec_mbuf().view(),
                old(self).spec_offset() + 4,
                seq![if on { old(self).spec_flags() | m } else { old(self).spec_flags() & !m }],
            ),
    {
        let f = self.read_u8(4);
        let b = if on {
            [f | m]
        } else {
            [f & !m]
        };
        self.write_at(4, b.as_slice());
    }

    #[inline]
    pub fn router(&self) -> (r: bool)
        requires
            self.inv(),
        ensures
            r == (self.spec_flags() & R_FLAG != 0),
    {
        self.read_u8(4) & R_FLAG != 0
    }

    #[inline]
    pub fn set_router(&mut self)
        requires
            old(self).inv(),
        ensures
            final(self).inv(),
            final(self).spec_flags() == old(self).spec_flags() | R_FLAG,
            final(self).spec_mbuf().view() == splice(
                old(self).spec_mbuf().view(),
                old(self).spec_offset() + 4,
                seq![old(self).spec_flags() | R_FLAG],
            ),
    {
        self.write_flag(R_FLAG, true);
    }

    #[inline]
    pub fn unset_router(&mut self)
        requires
            old(self).inv(),
        ensures
            final(self).inv(),
            final(self).spec_flags() == old(self).spec_flags() & !R_FLAG,
            final(self).spec_mbuf().view() == splice(
                old(self).spec_mbuf().view(),
                old(self).spec_offset() + 4,
                seq![old(self).spec_flags() & !R_FLAG],
            ),
    {
        self.write_flag(R_FLAG, false);
    }

    #[inline]
    pub fn solicited(&self) -> (r: bool)
        requires
            self.inv(),
        ensures
            r == (self.spec_flags() & S_FLAG != 0),
    {
        self.read_u8(4) & S_FLAG != 0
    }

    #[inline]
    pub fn set_solicited(&mut self)
        requires
            old(self).inv(),
        ensures
            final(self).inv(),
            final(self).spec_flags() == old(self).spec_flags() | S_FLAG,
            final(self).spec_mbuf().view() == splice(
                old(self).spec_mbuf().view(),
                old(self).spec_offset() + 4,
                seq![old(self).spec_flags() | S_FLAG],
            ),
    {
        self.write_flag(S_FLAG, true);
    }

    #[inline]
    pub fn unset_solicited(&mut self)
        requires
            old(self).inv(),
        ensures
            final(self).inv(),
            final(self).spec_flags() == old(self).spec_flags() & !S_FLAG,
            final(self).spec_mbuf().view() == splice(
                old(self).spec_mbuf().view(),
                old(self).spec_offset() + 4,
                seq![old(self).spec_flags() & !S_FLAG],
            ),
    {
        self.write_flag(S_FLAG, false);
    }

    #[inline]
    pub fn override_flag(&self) -> (r: bool)
        requires
            self.inv(),
        ensures
            r == (self.spec_flags() & O_FLAG != 0),
    {
        self.read_u8(4) & O_FLAG != 0
    }

    #[inline]
    pub fn set_override(&mut self)
        requires
            old(self).inv(),
        ensures
            final(self).inv(),
            final(self).spec_flags() == old(self).spec_flags() | O_FLAG,
            final(self).spec_mbuf().view() == splice(
                old(self).spec_mbuf().view(),
                old(self).spec_offset() + 4,
                seq![old(self).spec_flags() | O_FLAG],
            ),
    {
        self.write_flag(O_FLAG, true);
    }

    #[inline]
    pub fn unset_override(&mut self)
        requires
            old(self).inv(),
        ensures
            final(self).inv(),
            final(self).spec_flags() == old(self).spec_flags() & !O_FLAG,
            final(self).spec_mbuf().view() == splice(
                old(self).spec_mbuf().view(),
                old(self).spec_offset() + 4,
                seq![old(self).spec_flags() & !O_FLAG],
            ),
    {
        self.write_flag(O_FLAG, false);
    }

    #[inline]
    pub fn target_addr(&self) -> (r: Ipv6Addr)
        requires
            self.inv(),
        ensures
            r == self.spec_target_addr(),
    {
        let r = Ipv6Addr(
            [
                self.read_be16(8),
                self.read_be16(10),
                self.read_be16(12),
                self.read_be16(14),
                self.read_be16(16),
                self.read_be16(18),
                self.read_be16(20),
                self.read_be16(22),
            ],
        );
        proof {
            lemma_v6_from_segments(r);
            assert(r.0@ =~= v6_segments_at(self.spec_mbuf().view(), self.spec_offset() + 8int));
        }
        r
    }

    #[inline]
    pub fn set_target_addr(&mut self, target_addr: Ipv6Addr)
        requires
            old(self).inv(),
        ensures
            final(self).inv(),
            final(self).spec_mbuf().view() == splice(
                old(self).spec_mbuf().view(),
                old(self).spec_offset() + 8,
                v6_bytes(target_addr.0@),
            ),
            final(self).spec_target_addr() == target_addr,
    {
        proof {
            self.lemma_payload_fits();
        }
        let b = target_addr.to_bytes();
        self.write_at(8, b.as_slice());
        proof {
            lemma_v6_roundtrip(
                old(self).spec_mbuf().view(),
                old(self).spec_offset() + 8,
                target_addr.0@,
            );
            lemma_v6_from_segments(target_addr);
        }
    }

    /// `type: .., code: .., checksum: 0x...., router: .., solicited: ..,
    /// override: .., target address: ..`
    pub fn to_string(&self) -> (r: String)
        requires
            self.inv(),
        ensures
            r@ == "type: "@ + icmpv6_type_text(self.spec_msg_type()) + ", code: "@ + dec8(self.spec_code()) + ", checksum: 0x"@ + hex16(self.spec_checksum()) + ", router: "@
                + bool_text(self.spec_flags() & R_FLAG != 0) + ", solicited: "@ + bool_text(
                self.spec_flags() & S_FLAG != 0,
            ) + ", override: "@ + bool_text(self.spec_flags() & O_FLAG != 0)
                + ", target address: "@ + ipv6_text(self.spec_target_addr().0@),
    {
        let mut s = String::from_str("type: ");
        let t = self.msg_type().to_string();
        push_str(&mut s, t.as_str());
        push_str(&mut s, ", code: ");
        push_dec8(&mut s, self.code());
        push_str(&mut s, ", checksum: 0x");
        push_hex16(&mut s, self.checksum());
        push_str(&mut s, ", router: ");
        push_bool(&mut s, self.router());
        push_str(&mut s, ", solicited: ");
        push_bool(&mut s, self.solicited());
        push_str(&mut s, ", override: ");
        push_bool(&mut s, self.override_flag());
        push_str(&mut s, ", target address: ");
        let a = self.target_addr().to_string();
        push_str(&mut s, a.as_str());
        proof {
            reveal_strlit("type: ");
        }
        s
    }
}

} // verus!
