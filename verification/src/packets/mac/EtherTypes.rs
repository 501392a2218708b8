//! The ether types of the payloads that the MAC header names
#![allow(non_snake_case)]
use super::EtherType;
use vstd::prelude::*;

verus! {

/// Internet Protocol version 4
pub fn Ipv4() -> (r: EtherType)
    ensures
        r.0 == 0x0800,
{
    EtherType(0x0800)
}

/// Internet Protocol version 6
pub fn Ipv6() -> (r: EtherType)
    ensures
        r.0 == 0x86DD,
{
    EtherType(0x86DD)
}

} // verus!
