//! Neighbor discovery messages (RFC 4861): ICMPv6 messages whose body is
//! followed by options.
use crate::packets::icmp::v6::ndp::options::NdpOptionsIterator;
use crate::packets::icmp::v6::{Icmpv6, Icmpv6Packet, Icmpv6Payload};
use crate::packets::ip::v6::Ipv6Packet;
use crate::packets::{Fixed, Packet};
use vstd::prelude::*;

pub mod neighbor_advert;
pub mod option_values;
pub mod options;
pub mod router_solicit;

verus! {

/// NDP message payload marker
pub trait NdpPayload: Icmpv6Payload {

}

/// Common behaviors shared by NDP packets
///
/// NDP packets are also ICMPv6 packets.
pub trait NdpPacket: Icmpv6Packet {
    /// The buffer offset where the options begin.
    spec fn spec_options_offset(&self) -> nat;

    /// Returns an iterator that iterates through the options in the NDP packet
    fn options(&self) -> (r: NdpOptionsIterator<'_>)
        requires
            self.inv(),
        ensures
            r.spec_offset() == self.spec_options_offset(),
            r.spec_mbuf() == self.spec_mbuf(),
    ;
}

impl<E: Ipv6Packet, P: NdpPayload> NdpPacket for Icmpv6<E, P> {
    open spec fn spec_options_offset(&self) -> nat {
        self.spec_offset() + 4 + P::spec_size()
    }

    fn options(&self) -> (r: NdpOptionsIterator<'_>) {
        proof {
            self.lemma_inv();
            self.lemma_payload_fits();
        }
        let offset = self.payload_offset();
        NdpOptionsIterator::new(self.mbuf(), offset)
    }
}

} // verus!
