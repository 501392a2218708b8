//! Supported protocol numbers
#![allow(non_snake_case)]
use super::ProtocolNumber;
use vstd::prelude::*;

verus! {

/// Transmission Control Protocol
pub fn Tcp() -> (r: ProtocolNumber)
    ensures
        r.0 == 0x06,
{
    ProtocolNumber(0x06)
}

/// User Datagram Protocol
pub fn Udp() -> (r: ProtocolNumber)
    ensures
        r.0 == 0x11,
{
    ProtocolNumber(0x11)
}

/// Routing Header for IPv6
pub fn Ipv6Route() -> (r: ProtocolNumber)
    ensures
        r.0 == 0x2B,
{
    ProtocolNumber(0x2B)
}

/// Internet Control Message Protocol for IPv6
pub fn Icmpv6() -> (r: ProtocolNumber)
    ensures
        r.0 == 0x3A,
{
    ProtocolNumber(0x3A)
}

} // verus!
