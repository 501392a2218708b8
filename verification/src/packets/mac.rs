//! MAC addresses, ether types and the MAC header as plain values.
use crate::packets::ethernet::mac_text;
use crate::text::{hex_text, push_hex, push_str};
use vstd::prelude::*;

#[allow(non_snake_case)]
pub mod EtherTypes;

verus! {

/// MAC address
#[derive(Default, Debug, Copy, Clone)]
pub struct MacAddr(pub [u8; 6]);

impl MacAddr {
    pub fn new(a: u8, b: u8, c: u8, d: u8, e: u8, f: u8) -> (r: Self)
        ensures
            r.0@ == seq![a, b, c, d, e, f],
    {
        let r = MacAddr([a, b, c, d, e, f]);
        assert(r.0@ =~= seq![a, b, c, d, e, f]);
        r
    }

    /// The address of the first six octets of `slice`.
    pub fn new_from_slice(slice: &[u8]) -> (r: Self)
        requires
            slice@.len() >= 6,
        ensures
            r.0@ == slice@.take(6),
    {
        let r = MacAddr([slice[0], slice[1], slice[2], slice[3], slice[4], slice[5]]);
        assert(r.0@ =~= slice@.take(6));
        r
    }

    /// The address as six two-digit hexadecimal octets separated by colons.
    pub fn to_string(&self) -> (r: String)
        ensures
            r@ == mac_text(self.0@),
    {
        let mut s = String::new();
        push_hex(&mut s, self.0[0] as u64, 2);
        push_str(&mut s, ":");
        push_hex(&mut s, self.0[1] as u64, 2);
        push_str(&mut s, ":");
        push_hex(&mut s, self.0[2] as u64, 2);
        push_str(&mut s, ":");
        push_hex(&mut s, self.0[3] as u64, 2);
        push_str(&mut s, ":");
        push_hex(&mut s, self.0[4] as u64, 2);
        push_str(&mut s, ":");
        push_hex(&mut s, self.0[5] as u64, 2);
        assert(s@ =~= mac_text(self.0@));
        s
    }
}

/// ethernet type
#[derive(Default, Debug, Copy, Clone, PartialEq, Eq)]
pub struct EtherType(pub u16);

/// The text of an ether type: `Ipv4`, `Ipv6`, or its value as four
/// hexadecimal digits.
pub open spec fn mac_ether_type_text(v: u16) -> Seq<char> {
    if v == 0x0800 {
        "Ipv4"@
    } else if v == 0x86DD {
        "Ipv6"@
    } else {
        "0x"@ + hex_text(v as nat, 4)
    }
}

impl EtherType {
    pub fn new(value: u16) -> (r: Self)
        ensures
            r.0 == value,
    {
        EtherType(value)
    }

    /// The protocol's name, or its number as `0x....`.
    pub fn to_string(&self) -> (r: String)
        ensures
            r@ == mac_ether_type_text(self.0),
    {
        if self.0 == 0x0800 {
            String::from_str("Ipv4")
        } else if self.0 == 0x86DD {
            String::from_str("Ipv6")
        } else {
            let mut s = String::from_str("0x");
            push_hex(&mut s, self.0 as u64, 4);
            s
        }
    }
}

/// ethernet header
#[derive(Default, Debug)]
pub struct MacHeader {
    pub dst: MacAddr,
    pub src: MacAddr,
    pub ether_type: EtherType,
}

impl MacHeader {
    /// A header of zero addresses and ether type.
    pub fn new() -> (r: Self)
        ensures
            r.dst.0@ == seq![0u8, 0, 0, 0, 0, 0],
            r.src.0@ == seq![0u8, 0, 0, 0, 0, 0],
            r.ether_type.0 == 0,
    {
        MacHeader {
            dst: MacAddr::new(0, 0, 0, 0, 0, 0),
            src: MacAddr::new(0, 0, 0, 0, 0, 0),
            ether_type: EtherType::new(0),
        }
    }

    /// `src > dst [ether type]`
    pub fn to_string(&self) -> (r: String)
        ensures
            r@ == mac_text(self.src.0@) + " > "@ + mac_text(self.dst.0@) + " ["@
                + mac_ether_type_text(self.ether_type.0) + "]"@,
    {
        let mut s = self.src.to_string();
        push_str(&mut s, " > ");
        let d = self.dst.to_string();
        push_str(&mut s, d.as_str());
        push_str(&mut s, " [");
        let t = self.ether_type.to_string();
        push_str(&mut s, t.as_str());
        push_str(&mut s, "]");
        s
    }
}

} // verus!
