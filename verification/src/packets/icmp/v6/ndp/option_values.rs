//! NDP options as plain values (RFC 4861, section 4.6), each with the
//! type and length octets it carries on the wire.
use crate::packets::ethernet::{mac_text, MacAddr};
use crate::packets::icmp::v6::ndp::options::{
    MTU as OPT_MTU, PREFIX_INFORMATION as OPT_PREFIX_INFORMATION,
    SOURCE_LINK_LAYER_ADDR as OPT_SOURCE_LINK_LAYER_ADDR,
    TARGET_LINK_LAYER_ADDR as OPT_TARGET_LINK_LAYER_ADDR,
};
use crate::packets::ip::{ipv6_text, Ipv6Addr};
use crate::text::{bool_text, dec_text, push_bool, push_dec, push_str};
use vstd::prelude::*;

verus! {

/// Neighbor discovery message option
pub trait NdpOption {
    /// Returns the size of the NDP option in bytes
    fn size() -> usize;

    /// Returns the type code of the NDP option
    fn option_type() -> u8;
}

/// Source link-layer address option
#[derive(Debug, Copy, Clone)]
pub struct SourceLinkLayerAddress {
    option_type: u8,
    length: u8,
    addr: MacAddr,
}

impl SourceLinkLayerAddress {
    pub closed spec fn spec_option_type(&self) -> u8 {
        self.option_type
    }

    pub closed spec fn spec_length(&self) -> u8 {
        self.length
    }

    pub closed spec fn spec_addr(&self) -> MacAddr {
        self.addr
    }

    #[inline]
    pub fn length(&self) -> (r: u8)
        ensures
            r == self.spec_length(),
    {
        self.length
    }

    #[inline]
    pub fn addr(&self) -> (r: MacAddr)
        ensures
            r == self.spec_addr(),
    {
        self.addr
    }

    #[inline]
    pub fn set_addr(&mut self, addr: MacAddr)
        ensures
            final(self).spec_addr() == addr,
            final(self).spec_length() == old(self).spec_length(),
    {
        self.addr = addr;
    }

    /// `type: .., length: .., addr: ..`
    pub fn to_string(&self) -> (r: String)
        ensures
            r@ == "type: "@ + dec_text(self.spec_option_type() as nat) + ", length: "@ + dec_text(
                self.spec_length() as nat,
            ) + ", addr: "@ + mac_text(self.spec_addr().spec_octets()),
    {
        let mut s = String::from_str("type: ");
        push_dec(&mut s, self.option_type as u64);
        push_str(&mut s, ", length: ");
        push_dec(&mut s, self.length as u64);
        push_str(&mut s, ", addr: ");
        let a = self.addr.to_string();
        push_str(&mut s, a.as_str());
        proof {
            reveal_strlit("type: ");
        }
        s
    }
}

impl Default for SourceLinkLayerAddress {
    fn default() -> (r: SourceLinkLayerAddress)
        ensures
            r.spec_option_type() == OPT_SOURCE_LINK_LAYER_ADDR,
            r.spec_length() == 1,
            r.spec_addr().spec_octets() == seq![0u8, 0, 0, 0, 0, 0],
    {
        SourceLinkLayerAddress {
            option_type: OPT_SOURCE_LINK_LAYER_ADDR,
            length: 1,
            addr: MacAddr::unspecified(),
        }
    }
}

impl NdpOption for SourceLinkLayerAddress {
    #[inline]
    fn size() -> usize {
        8
    }

    #[inline]
    fn option_type() -> u8 {
        OPT_SOURCE_LINK_LAYER_ADDR
    }
}

/// Target link-layer address option
#[derive(Debug, Copy, Clone)]
pub struct TargetLinkLayerAddress {
    option_type: u8,
    length: u8,
    addr: MacAddr,
}

impl TargetLinkLayerAddress {
    pub closed spec fn spec_option_type(&self) -> u8 {
        self.option_type
    }

    pub closed spec fn spec_length(&self) -> u8 {
        self.length
    }

    pub closed spec fn spec_addr(&self) -> MacAddr {
        self.addr
    }

    #[inline]
    pub fn length(&self) -> (r: u8)
        ensures
            r == self.spec_length(),
    {
        self.length
    }

    #[inline]
    pub fn addr(&self) -> (r: MacAddr)
        ensures
            r == self.spec_addr(),
    {
        self.addr
    }

    #[inline]
    pub fn set_addr(&mut self, addr: MacAddr)
        ensures
            final(self).spec_addr() == addr,
            final(self).spec_length() == old(self).spec_length(),
    {
        self.addr = addr;
    }

    /// `type: .., length: .., addr: ..`
    pub fn to_string(&self) -> (r: String)
        ensures
            r@ == "type: "@ + dec_text(self.spec_option_type() as nat) + ", length: "@ + dec_text(
                self.spec_length() as nat,
            ) + ", addr: "@ + mac_text(self.spec_addr().spec_octets()),
    {
        let mut s = String::from_str("type: ");
        push_dec(&mut s, self.option_type as u64);
        push_str(&mut s, ", length: ");
        push_dec(&mut s, self.length as u64);
        push_str(&mut s, ", addr: ");
        let a = self.addr.to_string();
        push_str(&mut s, a.as_str());
        proof {
            reveal_strlit("type: ");
        }
        s
    }
}

impl Default for TargetLinkLayerAddress {
    fn default() -> (r: TargetLinkLayerAddress)
        ensures
            r.spec_option_type() == OPT_TARGET_LINK_LAYER_ADDR,
            r.spec_length() == 1,
            r.spec_addr().spec_octets() == seq![0u8, 0, 0, 0, 0, 0],
    {
        TargetLinkLayerAddress {
            option_type: OPT_TARGET_LINK_LAYER_ADDR,
            length: 1,
            addr: MacAddr::unspecified(),
        }
    }
}

impl NdpOption for TargetLinkLayerAddress {
    #[inline]
    fn size() -> usize {
        8
    }

    #[inline]
    fn option_type() -> u8 {
        OPT_TARGET_LINK_LAYER_ADDR
    }
}

/// Prefix information option
#[derive(Debug, Copy, Clone)]
pub struct PrefixInformation {
    option_type: u8,
    length: u8,
    prefix_length: u8,
    flags: u8,
    valid_lifetime: u32,
    preferred_lifetime: u32,
    reserved: u32,
    prefix: Ipv6Addr,
}

impl PrefixInformation {
    pub closed spec fn spec_reserved(&self) -> u32 {
        self.reserved
    }

    pub closed spec fn spec_option_type(&self) -> u8 {
        self.option_type
    }

    pub closed spec fn spec_length(&self) -> u8 {
        self.length
    }

    pub closed spec fn spec_prefix_length(&self) -> u8 {
        self.prefix_length
    }

    pub closed spec fn spec_flags(&self) -> u8 {
        self.flags
    }

    pub closed spec fn spec_valid_lifetime(&self) -> u32 {
        self.valid_lifetime
    }

    pub closed spec fn spec_preferred_lifetime(&self) -> u32 {
        self.preferred_lifetime
    }

    pub closed spec fn spec_prefix(&self) -> Ipv6Addr {
        self.prefix
    }

    #[inline]
    pub fn length(&self) -> (r: u8)
        ensures
            r == self.spec_length(),
    {
        self.length
    }

    #[inline]
    pub fn prefix_length(&self) -> (r: u8)
        ensures
            r == self.spec_prefix_length(),
    {
        self.prefix_length
    }

    #[inline]
    pub fn set_prefix_length(&mut self, prefix_length: u8)
        ensures
            final(self).spec_option_type() == old(self).spec_option_type(),
            final(self).spec_length() == old(self).spec_length(),
            final(self).spec_prefix_length() == prefix_length,
            final(self).spec_flags() == old(self).spec_flags(),
            final(self).spec_valid_lifetime() == old(self).spec_valid_lifetime(),
            final(self).spec_preferred_lifetime() == old(self).spec_preferred_lifetime(),
            final(self).spec_reserved() == old(self).spec_reserved(),
            final(self).spec_prefix() == old(self).spec_prefix(),
    {
        self.prefix_length = prefix_length
    }

    #[inline]
    pub fn on_link(&self) -> (r: bool)
        ensures
            r == (self.spec_flags() & 0x80 > 0),
    {
        self.flags & 0x80 > 0
    }

    #[inline]
    pub fn set_on_link(&mut self)
        ensures
            final(self).spec_option_type() == old(self).spec_option_type(),
            final(self).spec_length() == old(self).spec_length(),
            final(self).spec_prefix_length() == old(self).spec_prefix_length(),
            final(self).spec_flags() == old(self).spec_flags() | 0x80,
            final(self).spec_valid_lifetime() == old(self).spec_valid_lifetime(),
            final(self).spec_preferred_lifetime() == old(self).spec_preferred_lifetime(),
            final(self).spec_reserved() == old(self).spec_reserved(),
            final(self).spec_prefix() == old(self).spec_prefix(),
    {
        self.flags = self.flags | 0x80;
    }

    #[inline]
    pub fn unset_on_link(&mut self)
        ensures
            final(self).spec_option_type() == old(self).spec_option_type(),
            final(self).spec_length() == old(self).spec_length(),
            final(self).spec_prefix_length() == old(self).spec_prefix_length(),
            final(self).spec_flags() == old(self).spec_flags() & 0x7f,
            final(self).spec_valid_lifetime() == old(self).spec_valid_lifetime(),
            final(self).spec_preferred_lifetime() == old(self).spec_preferred_lifetime(),
            final(self).spec_reserved() == old(self).spec_reserved(),
            final(self).spec_prefix() == old(self).spec_prefix(),
    {
        self.flags = self.flags & 0x7f;
    }

    #[inline]
    pub fn autonomous(&self) -> (r: bool)
        ensures
            r == (self.spec_flags() & 0x40 > 0),
    {
        self.flags & 0x40 > 0
    }

    #[inline]
    pub fn set_autonomous(&mut self)
        ensures
            final(self).spec_option_type() == old(self).spec_option_type(),
            final(self).spec_length() == old(self).spec_length(),
            final(self).spec_prefix_length() == old(self).spec_prefix_length(),
            final(self).spec_flags() == old(self).spec_flags() | 0x40,
            final(self).spec_valid_lifetime() == old(self).spec_valid_lifetime(),
            final(self).spec_preferred_lifetime() == old(self).spec_preferred_lifetime(),
            final(self).spec_reserved() == old(self).spec_reserved(),
            final(self).spec_prefix() == old(self).spec_prefix(),
    {
        self.flags = self.flags | 0x40;
    }

    #[inline]
    pub fn unset_autonomous(&mut self)
        ensures
            final(self).spec_option_type() == old(self).spec_option_type(),
            final(self).spec_length() == old(self).spec_length(),
            final(self).spec_prefix_length() == old(self).spec_prefix_length(),
            final(self).spec_flags() == old(self).spec_flags() & 0xbf,
            final(self).spec_valid_lifetime() == old(self).spec_valid_lifetime(),
            final(self).spec_preferred_lifetime() == old(self).spec_preferred_lifetime(),
            final(self).spec_reserved() == old(self).spec_reserved(),
            final(self).spec_prefix() == old(self).spec_prefix(),
    {
        self.flags = self.flags & 0xbf;
    }

    #[inline]
    pub fn valid_lifetime(&self) -> (r: u32)
        ensures
            r == self.spec_valid_lifetime(),
    {
        self.valid_lifetime
    }

    #[inline]
    pub fn set_valid_lifetime(&mut self, valid_lifetime: u32)
        ensures
            final(self).spec_option_type() == old(self).spec_option_type(),
            final(self).spec_length() == old(self).spec_length(),
            final(self).spec_prefix_length() == old(self).spec_prefix_length(),
            final(self).spec_flags() == old(self).spec_flags(),
            final(self).spec_valid_lifetime() == valid_lifetime,
            final(self).spec_preferred_lifetime() == old(self).spec_preferred_lifetime(),
            final(self).spec_reserved() == old(self).spec_reserved(),
            final(self).spec_prefix() == old(self).spec_prefix(),
    {
        self.valid_lifetime = valid_lifetime;
    }

    #[inline]
    pub fn preferred_lifetime(&self) -> (r: u32)
        ensures
            r == self.spec_preferred_lifetime(),
    {
        self.preferred_lifetime
    }

    #[inline]
    pub fn set_preferred_lifetime(&mut self, preferred_lifetime: u32)
        ensures
            final(self).spec_option_type() == old(self).spec_option_type(),
            final(self).spec_length() == old(self).spec_length(),
            final(self).spec_prefix_length() == old(self).spec_prefix_length(),
            final(self).spec_flags() == old(self).spec_flags(),
            final(self).spec_valid_lifetime() == old(self).spec_valid_lifetime(),
            final(self).spec_preferred_lifetime() == preferred_lifetime,
            final(self).spec_reserved() == old(self).spec_reserved(),
            final(self).spec_prefix() == old(self).spec_prefix(),
    {
        self.preferred_lifetime = preferred_lifetime;
    }

    #[inline]
    pub fn prefix(&self) -> (r: Ipv6Addr)
        ensures
            r == self.spec_prefix(),
    {
        self.prefix
    }

    #[inline]
    pub fn set_prefix(&mut self, prefix: Ipv6Addr)
        ensures
            final(self).spec_option_type() == old(self).spec_option_type(),
            final(self).spec_length() == old(self).spec_length(),
            final(self).spec_prefix_length() == old(self).spec_prefix_length(),
            final(self).spec_flags() == old(self).spec_flags(),
            final(self).spec_valid_lifetime() == old(self).spec_valid_lifetime(),
            final(self).spec_preferred_lifetime() == old(self).spec_preferred_lifetime(),
            final(self).spec_reserved() == old(self).spec_reserved(),
            final(self).spec_prefix() == prefix,
    {
        self.prefix = prefix;
    }

    /// `type: .., length: .., prefix_length: .., on_link: .., autonomous: ..,
    /// valid_lifetime: .., preferred_lifetime: .., prefix: ..`
    pub fn to_string(&self) -> (r: String)
        ensures
            r@ == "type: "@ + dec_text(self.spec_option_type() as nat) + ", length: "@ + dec_text(
                self.spec_length() as nat,
            ) + ", prefix_length: "@ + dec_text(self.spec_prefix_length() as nat) + ", on_link: "@
                + bool_text(self.spec_flags() & 0x80 > 0) + ", autonomous: "@ + bool_text(
                self.spec_flags() & 0x40 > 0,
            ) + ", valid_lifetime: "@ + dec_text(self.spec_valid_lifetime() as nat)
                + ", preferred_lifetime: "@ + dec_text(self.spec_preferred_lifetime() as nat)
                + ", prefix: "@ + ipv6_text(self.spec_prefix().0@),
    {
        let mut s = String::from_str("type: ");
        push_dec(&mut s, self.option_type as u64);
        push_str(&mut s, ", length: ");
        push_dec(&mut s, self.length as u64);
        push_str(&mut s, ", prefix_length: ");
        push_dec(&mut s, self.prefix_length as u64);
        push_str(&mut s, ", on_link: ");
        push_bool(&mut s, self.on_link());
        push_str(&mut s, ", autonomous: ");
        push_bool(&mut s, self.autonomous());
        push_str(&mut s, ", valid_lifetime: ");
        push_dec(&mut s, self.valid_lifetime as u64);
        push_str(&mut s, ", preferred_lifetime: ");
        push_dec(&mut s, self.preferred_lifetime as u64);
        push_str(&mut s, ", prefix: ");
        let p = self.prefix.to_string();
        push_str(&mut s, p.as_str());
        proof {
            reveal_strlit("type: ");
        }
        s
    }
}

impl Default for PrefixInformation {
    fn default() -> (r: PrefixInformation)
        ensures
            r.spec_option_type() == OPT_PREFIX_INFORMATION,
            r.spec_length() == 4,
            r.spec_prefix_length() == 0,
            r.spec_flags() == 0,
            r.spec_valid_lifetime() == 0,
            r.spec_preferred_lifetime() == 0,
            r.spec_reserved() == 0,
            r.spec_prefix().0@ == Seq::new(8, |i: int| 0u16),
    {
        PrefixInformation {
            option_type: OPT_PREFIX_INFORMATION,
            length: 4,
            prefix_length: 0,
            flags: 0,
            valid_lifetime: 0,
            preferred_lifetime: 0,
            reserved: 0,
            prefix: Ipv6Addr::unspecified(),
        }
    }
}

impl NdpOption for PrefixInformation {
    fn size() -> usize {
        32
    }

    fn option_type() -> u8 {
        OPT_PREFIX_INFORMATION
    }
}

/// Maximum transmission unit option
#[derive(Debug, Copy, Clone)]
pub struct Mtu {
    option_type: u8,
    length: u8,
    reserved: u16,
    mtu: u32,
}

impl Mtu {
    pub closed spec fn spec_reserved(&self) -> u16 {
        self.reserved
    }

    pub closed spec fn spec_option_type(&self) -> u8 {
        self.option_type
    }

    pub closed spec fn spec_length(&self) -> u8 {
        self.length
    }

    pub closed spec fn spec_mtu(&self) -> u32 {
        self.mtu
    }

    pub fn length(&self) -> (r: u8)
        ensures
            r == self.spec_length(),
    {
        self.length
    }

    pub fn mtu(&self) -> (r: u32)
        ensures
            r == self.spec_mtu(),
    {
        self.mtu
    }

    pub fn set_mtu(&mut self, mtu: u32)
        ensures
            final(self).spec_mtu() == mtu,
            final(self).spec_option_type() == old(self).spec_option_type(),
            final(self).spec_length() == old(self).spec_length(),
            final(self).spec_reserved() == old(self).spec_reserved(),
    {
        self.mtu = mtu;
    }

    /// `type: .., length: .., mtu: ..`
    pub fn to_string(&self) -> (r: String)
        ensures
            r@ == "type: "@ + dec_text(self.spec_option_type() as nat) + ", length: "@ + dec_text(
                self.spec_length() as nat,
            ) + ", mtu: "@ + dec_text(self.spec_mtu() as nat),
    {
        let mut s = String::from_str("type: ");
        push_dec(&mut s, self.option_type as u64);
        push_str(&mut s, ", length: ");
        push_dec(&mut s, self.length as u64);
        push_str(&mut s, ", mtu: ");
        push_dec(&mut s, self.mtu as u64);
        proof {
            reveal_strlit("type: ");
        }
        s
    }
}

impl Default for Mtu {
    fn default() -> (r: Mtu)
        ensures
            r.spec_option_type() == OPT_MTU,
            r.spec_length() == 1,
            r.spec_reserved() == 0,
            r.spec_mtu() == 0,
    {
        Mtu { option_type: OPT_MTU, length: 1, reserved: 0, mtu: 0 }
    }
}

impl NdpOption for Mtu {
    fn size() -> usize {
        8
    }

    fn option_type() -> u8 {
        OPT_MTU
    }
}

} // verus!
