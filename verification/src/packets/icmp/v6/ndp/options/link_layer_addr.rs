//! The source and target link-layer address options (RFC 4861, section
//! 4.6.1).
//!
//! ```text
//!  0                   1                   2                   3
//!  0 1 2 3 4 5 6 7 8 9 0 1 2 3 4 5 6 7 8 9 0 1 2 3 4 5 6 7 8 9 0 1
//! +-+-+-+-+-+-+-+-+-+-+-+-+-+-+-+-+-+-+-+-+-+-+-+-+-+-+-+-+-+-+-+-+
//! |     Type      |    Length     |    Link-Layer Address ...
//! +-+-+-+-+-+-+-+-+-+-+-+-+-+-+-+-+-+-+-+-+-+-+-+-+-+-+-+-+-+-+-+-+
//! ```
//!
//! Type 1 for the source address, 2 for the target address; length 1 for
//! an IEEE 802 address.
use super::write_option_bytes;
use crate::packets::buffer::{read_item, read_spec};
use crate::packets::ethernet::{mac_text, MacAddr};
use crate::packets::mbuf::{splice, MBuf};
use crate::packets::{Packet, PacketError, ParseError};
use crate::text::{dec_text, push_dec, push_str};
use vstd::prelude::*;

verus! {

/// Link-layer address option, as parsed at `offset`.
#[derive(Debug, Copy, Clone)]
pub struct LinkLayerAddress {
    option_type: u8,
    length: u8,
    addr: [u8; 6],
    offset: usize,
}

/// The option read from the eight octets at `o` of `d`.
pub closed spec fn link_layer_addr_at(d: Seq<u8>, o: nat) -> LinkLayerAddress {
    LinkLayerAddress {
        option_type: d[o as int],
        length: d[o + 1int],
        addr: [d[o + 2int], d[o + 3int], d[o + 4int], d[o + 5int], d[o + 6int], d[o + 7int]],
        offset: o as usize,
    }
}

/// What the option read at `o` of `d` holds: the type octet there, the
/// length octet after it, the six address octets that follow, and `o`
/// itself as its offset.
pub proof fn lemma_link_layer_addr_at(d: Seq<u8>, o: nat)
    requires
        o <= usize::MAX,
    ensures
        link_layer_addr_at(d, o).spec_offset() == o,
        link_layer_addr_at(d, o).spec_option_type() == d[o as int],
        link_layer_addr_at(d, o).spec_length() == d[o + 1int],
        link_layer_addr_at(d, o).spec_addr() == seq![d[o + 2int], d[o + 3int], d[o + 4int], d[o + 5int], d[o + 6int], d[o + 7int]],
{
    let a = link_layer_addr_at(d, o);
    assert(a.spec_addr() =~= seq![d[o + 2int], d[o + 3int], d[o + 4int], d[o + 5int], d[o + 6int], d[o + 7int]]);
}

impl LinkLayerAddress {
    pub closed spec fn spec_option_type(&self) -> u8 {
        self.option_type
    }

    pub closed spec fn spec_length(&self) -> u8 {
        self.length
    }

    /// The octets of the address.
    pub closed spec fn spec_addr(&self) -> Seq<u8> {
        self.addr@
    }

    pub closed spec fn spec_offset(&self) -> nat {
        self.offset as nat
    }

    /// Parses the link-layer address option from the message buffer at
    /// offset
    pub fn parse(mbuf: &MBuf, offset: usize) -> (r: Result<LinkLayerAddress, PacketError>)
        ensures
            match read_spec(mbuf.view().len(), offset as nat, 8) {
                Err(e) => r == Err::<LinkLayerAddress, PacketError>(PacketError::Buffer(e)),
                Ok(_) => if mbuf.view()[offset + 1] != 1 {
                    r matches Err(PacketError::Parse(pe)) && pe.message()
                        == "Invalid link-layer address option length"@
                } else {
                    r == Ok::<LinkLayerAddress, PacketError>(
                        link_layer_addr_at(mbuf.view(), offset as nat),
                    )
                },
            },
            r matches Ok(a) ==> {
                &&& a.spec_offset() == offset
                &&& a.spec_option_type() == mbuf.view()[offset as int]
                &&& a.spec_length() == 1
                &&& a.spec_addr() == mbuf.view().subrange(offset + 2, offset + 8)
            },
    {
        let _len = mbuf.data_len();
        match read_item::<[u8; 8]>(mbuf, offset) {
            Ok(_) => {},
            Err(e) => {
                return Err(PacketError::Buffer(e));
            },
        }
        let length = mbuf.read_u8(offset + 1);
        if length != 1 {
            Err(PacketError::Parse(ParseError::new("Invalid link-layer address option length")))
        } else {
            let addr = [
                mbuf.read_u8(offset + 2),
                mbuf.read_u8(offset + 3),
                mbuf.read_u8(offset + 4),
                mbuf.read_u8(offset + 5),
                mbuf.read_u8(offset + 6),
                mbuf.read_u8(offset + 7),
            ];
            Ok(LinkLayerAddress { option_type: mbuf.read_u8(offset), length, addr, offset })
        }
    }

    /// Returns the message buffer offset for this option
    pub fn offset(&self) -> (r: usize)
        ensures
            r == self.spec_offset(),
    {
        self.offset
    }

    pub fn option_type(&self) -> (r: u8)
        ensures
            r == self.spec_option_type(),
    {
        self.option_type
    }

    pub fn length(&self) -> (r: u8)
        ensures
            r == self.spec_length(),
    {
        self.length
    }

    pub fn addr(&self) -> (r: MacAddr)
        ensures
            r.spec_octets() == self.spec_addr(),
    {
        MacAddr::from_octets(self.addr)
    }

    /// Sets the address, in the option and in the payload of `packet` that
    /// holds it.
    pub fn set_addr<P: Packet>(&mut self, packet: &mut P, addr: MacAddr)
        requires
            old(packet).inv(),
            old(packet).spec_offset() + old(packet).spec_header_len() <= old(self).spec_offset(),
            old(self).spec_offset() + 8 <= old(packet).spec_mbuf().view().len(),
        ensures
            final(packet).inv(),
            final(packet).spec_mbuf().view() == splice(
                old(packet).spec_mbuf().view(),
                old(self).spec_offset() + 2,
                addr.spec_octets(),
            ),
            final(packet).spec_offset() == old(packet).spec_offset(),
            final(self).spec_addr() == addr.spec_octets(),
            final(self).spec_option_type() == old(self).spec_option_type(),
            final(self).spec_length() == old(self).spec_length(),
            final(self).spec_offset() == old(self).spec_offset(),
            *old(self) == link_layer_addr_at(old(packet).spec_mbuf().view(), old(self).spec_offset())
                ==> *final(self) == link_layer_addr_at(final(packet).spec_mbuf().view(), old(self).spec_offset()),
    {
        proof {
            packet.lemma_inv();
        }
        let o = addr.octets();
        write_option_bytes(packet, self.offset + 2, o.as_slice());
        self.addr = o;
        proof {
            broadcast use vstd::array::group_array_axioms;

            let d = packet.spec_mbuf().view();
            let b = link_layer_addr_at(d, self.offset as nat);
            assert(self.addr =~= b.addr);
        }
    }

    /// `type: .., length: .., addr: ..`
    pub fn to_string(&self) -> (r: String)
        ensures
            r@ == "type: "@ + dec_text(self.spec_option_type() as nat) + ", length: "@ + dec_text(
                self.spec_length() as nat,
            ) + ", addr: "@ + mac_text(self.spec_addr()),
    {
        let mut s = String::from_str("type: ");
        push_dec(&mut s, self.option_type as u64);
        push_str(&mut s, ", length: ");
        push_dec(&mut s, self.length as u64);
        push_str(&mut s, ", addr: ");
        let a = self.addr().to_string();
        push_str(&mut s, a.as_str());
        proof {
            reveal_strlit("type: ");
        }
        s
    }
}

} // verus!
