//! Supported ICMPv6 message types
#![allow(non_snake_case)]
use super::Icmpv6Type;
use vstd::prelude::*;

verus! {

pub fn PacketTooBig() -> (r: Icmpv6Type)
    ensures
        r.0 == 2,
{
    Icmpv6Type(2)
}

pub fn RouterSolicitation() -> (r: Icmpv6Type)
    ensures
        r.0 == 133,
{
    Icmpv6Type(133)
}

pub fn RouterAdvertisement() -> (r: Icmpv6Type)
    ensures
        r.0 == 134,
{
    Icmpv6Type(134)
}

pub fn NeighborSolicitation() -> (r: Icmpv6Type)
    ensures
        r.0 == 135,
{
    Icmpv6Type(135)
}

pub fn NeighborAdvertisement() -> (r: Icmpv6Type)
    ensures
        r.0 == 136,
{
    Icmpv6Type(136)
}

pub fn Redirect() -> (r: Icmpv6Type)
    ensures
        r.0 == 137,
{
    Icmpv6Type(137)
}

} // verus!
