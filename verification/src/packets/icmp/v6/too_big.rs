//! Packet Too Big messages (RFC 4443, section 3.2).
//!
//! ```text
//!  0                   1                   2                   3
//!  0 1 2 3 4 5 6 7 8 9 0 1 2 3 4 5 6 7 8 9 0 1 2 3 4 5 6 7 8 9 0 1
//! +-+-+-+-+-+-+-+-+-+-+-+-+-+-+-+-+-+-+-+-+-+-+-+-+-+-+-+-+-+-+-+-+
//! |     Type      |     Code      |          Checksum             |
//! +-+-+-+-+-+-+-+-+-+-+-+-+-+-+-+-+-+-+-+-+-+-+-+-+-+-+-+-+-+-+-+-+
//! |                             MTU                               |
//! +-+-+-+-+-+-+-+-+-+-+-+-+-+-+-+-+-+-+-+-+-+-+-+-+-+-+-+-+-+-+-+-+
//! |                    As much of invoking packet                 |
//! +               as possible without the ICMPv6 packet           +
//! |               exceeding the minimum IPv6 MTU [IPv6]           |
//! ```
//!
//! MTU: the Maximum Transmission Unit of the next-hop link.
use crate::packets::icmp::v6::{icmpv6_type_text, Icmpv6, Icmpv6Packet, Icmpv6Payload};
use crate::packets::ip::v6::Ipv6Packet;
use crate::packets::mbuf::{be32, be32_bytes, splice, u32_to_be};
use crate::packets::{Fixed, Packet};
use crate::text::{bool_text, dec32, dec8, hex16, push_bool, push_dec32, push_dec8, push_hex16, push_str};
use vstd::prelude::*;

verus! {

/// Packet too big message
#[derive(Default, Debug, Copy, Clone)]
pub struct PacketTooBig {
    mtu: u32,
}

impl Fixed for PacketTooBig {
    open spec fn spec_size() -> nat {
        4
    }

    closed spec fn spec_bytes(&self) -> Seq<u8> {
        be32_bytes(self.mtu)
    }

    fn size() -> (r: usize) {
        4
    }

    fn to_bytes(&self) -> (r: Vec<u8>) {
        let b = u32_to_be(self.mtu);
        let v = vec![b[0], b[1], b[2], b[3]];
        assert(v@ =~= self.spec_bytes());
        v
    }

    proof fn lemma_bytes_len(&self) {
    }
}

impl Icmpv6Payload for PacketTooBig {

}

impl<E: Ipv6Packet> Icmpv6<E, PacketTooBig> {
    pub open spec fn spec_mtu(&self) -> u32 {
        be32(self.spec_mbuf().view(), self.spec_offset() + 4int)
    }

    #[inline]
    pub fn mtu(&self) -> (r: u32)
        requires
            self.inv(),
        ensures
            r == self.spec_mtu(),
    {
        self.read_be32(4)
    }

    #[inline]
    pub fn set_mtu(&mut self, mtu: u32)
        requires
            old(self).inv(),
        ensures
            final(self).inv(),
            final(self).spec_offset() == old(self).spec_offset(),
            final(self).spec_mbuf().view() == splice(
                old(self).spec_mbuf().view(),
                old(self).spec_offset() + 4,
                be32_bytes(mtu),
            ),
            final(self).spec_mtu() == mtu,
    {
        self.write_be32(4, mtu);
    }

    /// `type: .. code: .. checksum: 0x.... mtu: ..`
    pub fn to_string(&self) -> (r: String)
        requires
            self.inv(),
        ensures
            r@ == "type: "@ + icmpv6_type_text(self.spec_msg_type()) + " code: "@ + dec8(self.spec_code()) + " checksum: 0x"@ + hex16(self.spec_checksum()) + " mtu: "@
                + dec32(self.spec_mtu()),
    {
        let mut s = String::from_str("type: ");
        let t = self.msg_type().to_string();
        push_str(&mut s, t.as_str());
        push_str(&mut s, " code: ");
        push_dec8(&mut s, self.code());
        push_str(&mut s, " checksum: 0x");
        push_hex16(&mut s, self.checksum());
        push_str(&mut s, " mtu: ");
        push_dec32(&mut s, self.mtu());
        proof {
            reveal_strlit("type: ");
        }
        s
    }
}

} // verus!
