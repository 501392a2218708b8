//! IPv6 packets (RFC 8200, with RFC 3168 for the traffic class).
//!
//! ```text
//! +-+-+-+-+-+-+-+-+-+-+-+-+-+-+-+-+-+-+-+-+-+-+-+-+-+-+-+-+-+-+-+-+
//! |Version|    DSCP_ECN   |           Flow Label                  |
//! +-+-+-+-+-+-+-+-+-+-+-+-+-+-+-+-+-+-+-+-+-+-+-+-+-+-+-+-+-+-+-+-+
//! |         Payload Length        |  Next Header  |   Hop Limit   |
//! +-+-+-+-+-+-+-+-+-+-+-+-+-+-+-+-+-+-+-+-+-+-+-+-+-+-+-+-+-+-+-+-+
//! |                         Source Address                        |
//! |                      Destination Address                      |
//! +-+-+-+-+-+-+-+-+-+-+-+-+-+-+-+-+-+-+-+-+-+-+-+-+-+-+-+-+-+-+-+-+
//! ```
use crate::packets::buffer::{read_item, read_spec, BufferError};
use crate::packets::checksum::PseudoHeader;
use crate::packets::ethernet::Ethernet;
use crate::packets::ip::{
    ipv6_text, protocol_number_text, lemma_v6_from_segments, lemma_v6_roundtrip, v6_bytes, v6_from_segments, v6_segments_at, IpAddr,
    IpAddrMismatchError, IpPacket, Ipv6Addr, ProtocolNumber,
};
use crate::packets::mbuf::{
    be16, be16_bytes, be32, be32_bytes, splice, u16_to_be, u32_to_be, MBuf,
};
use crate::packets::{
    bytes_of, payload_offset_of, resize_fails, resize_spec, Fixed, Header, Packet, PacketError,
    ParsedPacket,
};
use crate::text::{dec_text, push_dec, push_str};
use vstd::prelude::*;

pub mod srh;

verus! {

/// Common behaviors shared by IPv6 and extension packets
pub trait Ipv6Packet: IpPacket {
    /// The packet carries IPv6 addresses.
    proof fn lemma_v6(&self)
        ensures
            self.spec_v6(),
    ;
}

/// The minimum IPv6 MTU
///
/// https://tools.ietf.org/html/rfc2460#section-5
pub const IPV6_MIN_MTU: usize = 1280;

/// Mask of the DSCP bits of the first word.
pub const DSCP: u32 = 0x0fc0_0000;

/// Mask of the ECN bits of the first word.
pub const ECN: u32 = 0x0030_0000;

/// Mask of the flow label bits of the first word.
pub const FLOW: u32 = 0xfffff;

/// Size of the IPv6 header.
pub const IPV6_HEADER_LEN: usize = 40;

/// IPv6 header
#[derive(Debug, Copy, Clone)]
pub struct Ipv6Header {
    version_to_flow_label: u32,
    payload_length: u16,
    next_header: u8,
    hop_limit: u8,
    src: Ipv6Addr,
    dst: Ipv6Addr,
}

impl Default for Ipv6Header {
    fn default() -> (r: Ipv6Header)
        ensures
            r.spec_bytes() == seq![0x60u8] + Seq::new(39, |i: int| 0u8),
    {
        let r = Ipv6Header {
            version_to_flow_label: 0x6000_0000,
            payload_length: 0,
            next_header: 0,
            hop_limit: 0,
            src: Ipv6Addr::unspecified(),
            dst: Ipv6Addr::unspecified(),
        };
        let ghost z = Seq::new(8, |i: int| 0u16);
        assert(v6_bytes(z) =~= Seq::new(16, |i: int| 0u8));
        assert(be32_bytes(0x6000_0000u32) =~= seq![0x60u8, 0, 0, 0]);
        assert(be16_bytes(0u16) =~= seq![0u8, 0]);
        assert(r.spec_bytes() =~= seq![0x60u8] + Seq::new(39, |i: int| 0u8));
        r
    }
}

impl Fixed for Ipv6Header {
    open spec fn spec_size() -> nat {
        40
    }

    closed spec fn spec_bytes(&self) -> Seq<u8> {
        be32_bytes(self.version_to_flow_label) + be16_bytes(self.payload_length) + seq![
            self.next_header,
            self.hop_limit,
        ] + v6_bytes(self.src.0@) + v6_bytes(self.dst.0@)
    }

    fn size() -> (r: usize) {
        40
    }

    fn to_bytes(&self) -> (r: Vec<u8>) {
        let mut v: Vec<u8> = Vec::new();
        let a = u32_to_be(self.version_to_flow_label);
        v.push(a[0]);
        v.push(a[1]);
        v.push(a[2]);
        v.push(a[3]);
        let b = u16_to_be(self.payload_length);
        v.push(b[0]);
        v.push(b[1]);
        v.push(self.next_header);
        v.push(self.hop_limit);
        let ghost head = v@;
        let s = self.src.to_bytes();
        let d = self.dst.to_bytes();
        let mut i: usize = 0;
        while i < 16
            invariant
                i <= 16,
                s@ == v6_bytes(self.src.0@),
                v@ == head + s@.take(i as int),
            decreases 16 - i,
        {
            v.push(s[i]);
            i = i + 1;
            assert(v@ =~= head + s@.take(i as int));
        }
        let ghost mid = v@;
        let mut j: usize = 0;
        while j < 16
            invariant
                j <= 16,
                d@ == v6_bytes(self.dst.0@),
                v@ == mid + d@.take(j as int),
            decreases 16 - j,
        {
            v.push(d[j]);
            j = j + 1;
            assert(v@ =~= mid + d@.take(j as int));
        }
        assert(s@.take(16) =~= s@);
        assert(d@.take(16) =~= d@);
        assert(v@ =~= self.spec_bytes());
        v
    }

    proof fn lemma_bytes_len(&self) {
    }
}

impl Header for Ipv6Header {

}

/// IPv6 packet
#[derive(Debug)]
pub struct Ipv6 {
    envelope: Ethernet,
    offset: usize,
}

impl Ipv6 {
    /// The header octet at `i`.
    pub open spec fn spec_byte(&self, i: int) -> u8 {
        self.spec_mbuf().view()[self.spec_offset() + i]
    }

    /// The first 32-bit word: version, traffic class and flow label.
    pub open spec fn spec_vtf(&self) -> u32 {
        be32(self.spec_mbuf().view(), self.spec_offset() as int)
    }

    pub open spec fn spec_version(&self) -> u8 {
        ((self.spec_vtf() & 0xf000_0000) >> 28) as u8
    }

    pub open spec fn spec_dscp(&self) -> u8 {
        ((self.spec_vtf() & DSCP) >> 22) as u8
    }

    pub open spec fn spec_ecn(&self) -> u8 {
        ((self.spec_vtf() & ECN) >> 20) as u8
    }

    pub open spec fn spec_flow_label(&self) -> u32 {
        self.spec_vtf() & FLOW
    }

    pub open spec fn spec_payload_length(&self) -> u16 {
        be16(self.spec_mbuf().view(), self.spec_offset() + 4int)
    }

    pub open spec fn spec_next_header(&self) -> u8 {
        self.spec_byte(6)
    }

    pub open spec fn spec_hop_limit(&self) -> u8 {
        self.spec_byte(7)
    }

    pub open spec fn spec_src_segments(&self) -> Seq<u16> {
        v6_segments_at(self.spec_mbuf().view(), self.spec_offset() + 8int)
    }

    pub open spec fn spec_dst_segments(&self) -> Seq<u16> {
        v6_segments_at(self.spec_mbuf().view(), self.spec_offset() + 24int)
    }

    fn read_u8(&self, i: usize) -> (r: u8)
        requires
            self.inv(),
            i < 40,
        ensures
            r == self.spec_byte(i as int),
    {
        proof {
            self.lemma_inv();
        }
        self.envelope.mbuf().read_u8(self.offset + i)
    }

    fn read_vtf(&self) -> (r: u32)
        requires
            self.inv(),
        ensures
            r == self.spec_vtf(),
    {
        proof {
            self.lemma_inv();
        }
        self.envelope.mbuf().read_be32(self.offset)
    }

    fn read_addr(&self, i: usize) -> (r: Ipv6Addr)
        requires
            self.inv(),
            i == 8 || i == 24,
        ensures
            r.0@ == v6_segments_at(self.spec_mbuf().view(), self.spec_offset() + i),
    {
        proof {
            self.lemma_inv();
        }
        let m = self.envelope.mbuf();
        let p = self.offset + i;
        let r = Ipv6Addr(
            [
                m.read_be16(p),
                m.read_be16(p + 2),
                m.read_be16(p + 4),
                m.read_be16(p + 6),
                m.read_be16(p + 8),
                m.read_be16(p + 10),
                m.read_be16(p + 12),
                m.read_be16(p + 14),
            ],
        );
        assert(r.0@ =~= v6_segments_at(self.spec_mbuf().view(), self.spec_offset() + i));
        r
    }

    /// Writes `bytes` into the header at `i`.
    fn write_header(&mut self, i: usize, bytes: &[u8])
        requires
            old(self).inv(),
            i + bytes@.len() <= 40,
        ensures
            final(self).inv(),
            final(self).spec_mbuf().view() == splice(
                old(self).spec_mbuf().view(),
                (old(self).spec_offset() + i) as nat,
                bytes@,
            ),
            final(self).spec_offset() == old(self).spec_offset(),
            final(self).spec_mbuf().spec_headroom() == old(self).spec_mbuf().spec_headroom(),
            final(self).spec_mbuf().spec_tailroom() == old(self).spec_mbuf().spec_tailroom(),
    {
        proof {
            self.lemma_inv();
            self.envelope.lemma_inv();
        }
        let pos = self.offset + i;
        self.envelope.write_bytes(pos, bytes);
    }

    fn write_vtf(&mut self, v: u32)
        requires
            old(self).inv(),
        ensures
            final(self).inv(),
            final(self).spec_mbuf().view() == splice(
                old(self).spec_mbuf().view(),
                old(self).spec_offset(),
                be32_bytes(v),
            ),
            final(self).spec_vtf() == v,
            final(self).spec_offset() == old(self).spec_offset(),
            final(self).spec_mbuf().spec_tailroom() == old(self).spec_mbuf().spec_tailroom(),
    {
        let b = u32_to_be(v);
        self.write_header(0, b.as_slice());
        proof {
            crate::packets::mbuf::lemma_be32_roundtrip(
                old(self).spec_mbuf().view(),
                old(self).spec_offset(),
                v,
            );
        }
    }

    #[inline]
    pub fn version(&self) -> (r: u8)
        requires
            self.inv(),
        ensures
            r == self.spec_version(),
    {
        // Protocol Version, should always be `6`
        ((self.read_vtf() & 0xf000_0000) >> 28) as u8
    }

    #[inline]
    pub fn dscp(&self) -> (r: u8)
        requires
            self.inv(),
        ensures
            r == self.spec_dscp(),
    {
        ((self.read_vtf() & DSCP) >> 22) as u8
    }

    #[inline]
    pub fn set_dscp(&mut self, dscp: u8)
        requires
            old(self).inv(),
        ensures
            final(self).inv(),
            final(self).spec_offset() == old(self).spec_offset(),
            final(self).spec_vtf() == (old(self).spec_vtf() & !DSCP) | (((dscp as u32) << 22)
                & DSCP),
            final(self).spec_mbuf().view() == splice(
                old(self).spec_mbuf().view(),
                old(self).spec_offset(),
                be32_bytes((old(self).spec_vtf() & !DSCP) | (((dscp as u32) << 22) & DSCP)),
            ),
            final(self).spec_dscp() == dscp & 0x3f,
            final(self).spec_ecn() == old(self).spec_ecn(),
            final(self).spec_flow_label() == old(self).spec_flow_label(),
            final(self).spec_version() == old(self).spec_version(),
            final(self).spec_mbuf().spec_tailroom() == old(self).spec_mbuf().spec_tailroom(),
    {
        let v = self.read_vtf();
        let n = (v & !DSCP) | (((dscp as u32) << 22) & DSCP);
        self.write_vtf(n);
        let d = dscp;
        assert(((((v & !0x0fc0_0000u32) | (((d as u32) << 22) & 0x0fc0_0000u32)) & 0x0fc0_0000u32)
            >> 22) as u8 == d & 0x3f) by (bit_vector);
        assert((((v & !0x0fc0_0000u32) | (((d as u32) << 22) & 0x0fc0_0000u32)) & 0x0030_0000u32)
            == v & 0x0030_0000u32) by (bit_vector);
        assert((((v & !0x0fc0_0000u32) | (((d as u32) << 22) & 0x0fc0_0000u32)) & 0xfffffu32) == v
            & 0xfffffu32) by (bit_vector);
        assert((((v & !0x0fc0_0000u32) | (((d as u32) << 22) & 0x0fc0_0000u32)) & 0xf000_0000u32)
            == v & 0xf000_0000u32) by (bit_vector);
    }

    #[inline]
    pub fn ecn(&self) -> (r: u8)
        requires
            self.inv(),
        ensures
            r == self.spec_ecn(),
    {
        ((self.read_vtf() & ECN) >> 20) as u8
    }

    #[inline]
    pub fn set_ecn(&mut self, ecn: u8)
        requires
            old(self).inv(),
        ensures
            final(self).inv(),
            final(self).spec_offset() == old(self).spec_offset(),
            final(self).spec_vtf() == (old(self).spec_vtf() & !ECN) | (((ecn as u32) << 20) & ECN),
            final(self).spec_mbuf().view() == splice(
                old(self).spec_mbuf().view(),
                old(self).spec_offset(),
                be32_bytes((old(self).spec_vtf() & !ECN) | (((ecn as u32) << 20) & ECN)),
            ),
            final(self).spec_ecn() == ecn & 0x3,
            final(self).spec_dscp() == old(self).spec_dscp(),
            final(self).spec_flow_label() == old(self).spec_flow_label(),
            final(self).spec_version() == old(self).spec_version(),
            final(self).spec_mbuf().spec_tailroom() == old(self).spec_mbuf().spec_tailroom(),
    {
        let v = self.read_vtf();
        let n = (v & !ECN) | (((ecn as u32) << 20) & ECN);
        self.write_vtf(n);
        let e = ecn;
        assert(((((v & !0x0030_0000u32) | (((e as u32) << 20) & 0x0030_0000u32)) & 0x0030_0000u32)
            >> 20) as u8 == e & 3) by (bit_vector);
        assert((((v & !0x0030_0000u32) | (((e as u32) << 20) & 0x0030_0000u32)) & 0x0fc0_0000u32)
            == v & 0x0fc0_0000u32) by (bit_vector);
        assert((((v & !0x0030_0000u32) | (((e as u32) << 20) & 0x0030_0000u32)) & 0xfffffu32) == v
            & 0xfffffu32) by (bit_vector);
        assert((((v & !0x0030_0000u32) | (((e as u32) << 20) & 0x0030_0000u32)) & 0xf000_0000u32)
            == v & 0xf000_0000u32) by (bit_vector);
    }

    #[inline]
    pub fn flow_label(&self) -> (r: u32)
        requires
            self.inv(),
        ensures
            r == self.spec_flow_label(),
    {
        self.read_vtf() & FLOW
    }

    #[inline]
    pub fn set_flow_label(&mut self, flow_label: u32)
        requires
            old(self).inv(),
        ensures
            final(self).inv(),
            final(self).spec_offset() == old(self).spec_offset(),
            final(self).spec_vtf() == (old(self).spec_vtf() & !FLOW) | (flow_label & FLOW),
            final(self).spec_mbuf().view() == splice(
                old(self).spec_mbuf().view(),
                old(self).spec_offset(),
                be32_bytes((old(self).spec_vtf() & !FLOW) | (flow_label & FLOW)),
            ),
            final(self).spec_flow_label() == flow_label & FLOW,
            final(self).spec_dscp() == old(self).spec_dscp(),
            final(self).spec_ecn() == old(self).spec_ecn(),
            final(self).spec_version() == old(self).spec_version(),
            final(self).spec_mbuf().spec_tailroom() == old(self).spec_mbuf().spec_tailroom(),
    {
        let v = self.read_vtf();
        let n = (v & !FLOW) | (flow_label & FLOW);
        self.write_vtf(n);
        let f = flow_label;
        assert((((v & !0xfffffu32) | (f & 0xfffffu32)) & 0xfffffu32) == f & 0xfffffu32) by (
        bit_vector);
        assert((((v & !0xfffffu32) | (f & 0xfffffu32)) & 0x0fc0_0000u32) == v & 0x0fc0_0000u32) by (
        bit_vector);
        assert((((v & !0xfffffu32) | (f & 0xfffffu32)) & 0x0030_0000u32) == v & 0x0030_0000u32) by (
        bit_vector);
        assert((((v & !0xfffffu32) | (f & 0xfffffu32)) & 0xf000_0000u32) == v & 0xf000_0000u32) by (
        bit_vector);
    }

    #[inline]
    pub fn payload_length(&self) -> (r: u16)
        requires
            self.inv(),
        ensures
            r == self.spec_payload_length(),
    {
        proof {
            self.lemma_inv();
        }
        self.envelope.mbuf().read_be16(self.offset + 4)
    }

    #[inline]
    fn set_payload_length(&mut self, payload_length: u16)
        requires
            old(self).inv(),
        ensures
            final(self).inv(),
            final(self).spec_offset() == old(self).spec_offset(),
            final(self).spec_mbuf().view() == splice(
                old(self).spec_mbuf().view(),
                old(self).spec_offset() + 4,
                be16_bytes(payload_length),
            ),
            final(self).spec_payload_length() == payload_length,
            final(self).spec_mbuf().spec_headroom() == old(self).spec_mbuf().spec_headroom(),
            final(self).spec_mbuf().spec_tailroom() == old(self).spec_mbuf().spec_tailroom(),
    {
        let b = u16_to_be(payload_length);
        self.write_header(4, b.as_slice());
        proof {
            crate::packets::mbuf::lemma_be16_roundtrip(
                old(self).spec_mbuf().view(),
                old(self).spec_offset() + 4,
                payload_length,
            );
        }
    }

    #[inline]
    pub fn next_header(&self) -> (r: ProtocolNumber)
        requires
            self.inv(),
        ensures
            r.0 == self.spec_next_header(),
    {
        ProtocolNumber::new(self.read_u8(6))
    }

    #[inline]
    pub fn set_next_header(&mut self, next_header: ProtocolNumber)
        requires
            old(self).inv(),
        ensures
            final(self).inv(),
            final(self).spec_offset() == old(self).spec_offset(),
            final(self).spec_mbuf().view() == old(self).spec_mbuf().view().update(
                old(self).spec_offset() + 6int,
                next_header.0,
            ),
            final(self).spec_next_header() == next_header.0,
            final(self).spec_mbuf().spec_tailroom() == old(self).spec_mbuf().spec_tailroom(),
    {
        let b = [next_header.0];
        self.write_header(6, b.as_slice());
        assert(self.spec_mbuf().view() =~= old(self).spec_mbuf().view().update(
            old(self).spec_offset() + 6int,
            next_header.0,
        ));
    }

    #[inline]
    pub fn hop_limit(&self) -> (r: u8)
        requires
            self.inv(),
        ensures
            r == self.spec_hop_limit(),
    {
        self.read_u8(7)
    }

    #[inline]
    pub fn set_hop_limit(&mut self, hop_limit: u8)
        requires
            old(self).inv(),
        ensures
            final(self).inv(),
            final(self).spec_offset() == old(self).spec_offset(),
            final(self).spec_mbuf().view() == old(self).spec_mbuf().view().update(
                old(self).spec_offset() + 7int,
                hop_limit,
            ),
            final(self).spec_hop_limit() == hop_limit,
            final(self).spec_mbuf().spec_tailroom() == old(self).spec_mbuf().spec_tailroom(),
    {
        let b = [hop_limit];
        self.write_header(7, b.as_slice());
        assert(self.spec_mbuf().view() =~= old(self).spec_mbuf().view().update(
            old(self).spec_offset() + 7int,
            hop_limit,
        ));
    }

    #[inline]
    pub fn src(&self) -> (r: Ipv6Addr)
        requires
            self.inv(),
        ensures
            r.0@ == self.spec_src_segments(),
    {
        self.read_addr(8)
    }

    #[inline]
    pub fn set_src(&mut self, src: Ipv6Addr)
        requires
            old(self).inv(),
        ensures
            final(self).inv(),
            final(self).spec_offset() == old(self).spec_offset(),
            final(self).spec_mbuf().view() == splice(
                old(self).spec_mbuf().view(),
                old(self).spec_offset() + 8,
                v6_bytes(src.0@),
            ),
            final(self).spec_src_segments() == src.0@,
            final(self).spec_dst_segments() == old(self).spec_dst_segments(),
            final(self).spec_next_header() == old(self).spec_next_header(),
            final(self).spec_mbuf().spec_headroom() == old(self).spec_mbuf().spec_headroom(),
            final(self).spec_mbuf().spec_tailroom() == old(self).spec_mbuf().spec_tailroom(),
    {
        proof {
            self.lemma_inv();
        }
        let b = src.to_bytes();
        self.write_header(8, b.as_slice());
        proof {
            lemma_v6_roundtrip(old(self).spec_mbuf().view(), old(self).spec_offset() + 8, src.0@);
            assert(self.spec_dst_segments() =~= old(self).spec_dst_segments());
        }
    }

    #[inline]
    pub fn dst(&self) -> (r: Ipv6Addr)
        requires
            self.inv(),
        ensures
            r.0@ == self.spec_dst_segments(),
    {
        self.read_addr(24)
    }

    #[inline]
    pub fn set_dst(&mut self, dst: Ipv6Addr)
        requires
            old(self).inv(),
        ensures
            final(self).inv(),
            final(self).spec_offset() == old(self).spec_offset(),
            final(self).spec_mbuf().view() == splice(
                old(self).spec_mbuf().view(),
                old(self).spec_offset() + 24,
                v6_bytes(dst.0@),
            ),
            final(self).spec_dst_segments() == dst.0@,
            final(self).spec_src_segments() == old(self).spec_src_segments(),
            final(self).spec_next_header() == old(self).spec_next_header(),
            final(self).spec_mbuf().spec_headroom() == old(self).spec_mbuf().spec_headroom(),
            final(self).spec_mbuf().spec_tailroom() == old(self).spec_mbuf().spec_tailroom(),
    {
        proof {
            self.lemma_inv();
        }
        let b = dst.to_bytes();
        self.write_header(24, b.as_slice());
        proof {
            lemma_v6_roundtrip(old(self).spec_mbuf().view(), old(self).spec_offset() + 24, dst.0@);
            assert(self.spec_src_segments() =~= old(self).spec_src_segments());
        }
    }

    /// `src > dst, version: .., dscp: .., ecn: .., flow_label: .., len: ..,
    /// next_header: .., hop_limit: ..`
    pub fn to_string(&self) -> (r: String)
        requires
            self.inv(),
        ensures
            r@ == ipv6_text(self.spec_src_segments()) + " > "@ + ipv6_text(self.spec_dst_segments())
                + ", version: "@ + dec_text(self.spec_version() as nat) + ", dscp: "@ + dec_text(
                self.spec_dscp() as nat,
            ) + ", ecn: "@ + dec_text(self.spec_ecn() as nat) + ", flow_label: "@ + dec_text(
                self.spec_flow_label() as nat,
            ) + ", len: "@ + dec_text(
                (self.spec_mbuf().view().len() - (self.spec_offset() + 40)) as nat,
            ) + ", next_header: "@ + protocol_number_text(self.spec_next_header())
                + ", hop_limit: "@ + dec_text(self.spec_hop_limit() as nat),
    {
        proof {
            self.lemma_inv();
        }
        let a = Ipv6::src(self);
        let b = Ipv6::dst(self);
        let mut s = a.to_string();
        push_str(&mut s, " > ");
        let d = b.to_string();
        push_str(&mut s, d.as_str());
        push_str(&mut s, ", version: ");
        push_dec(&mut s, self.version() as u64);
        push_str(&mut s, ", dscp: ");
        push_dec(&mut s, self.dscp() as u64);
        push_str(&mut s, ", ecn: ");
        push_dec(&mut s, self.ecn() as u64);
        push_str(&mut s, ", flow_label: ");
        push_dec(&mut s, self.flow_label() as u64);
        push_str(&mut s, ", len: ");
        push_dec(&mut s, self.payload_len() as u64);
        push_str(&mut s, ", next_header: ");
        let n = self.next_header().to_string();
        push_str(&mut s, n.as_str());
        push_str(&mut s, ", hop_limit: ");
        push_dec(&mut s, self.hop_limit() as u64);
        s
    }

}

impl Ipv6 {
    /// An IPv6 packet's cascade writes the payload length, the bytes after
    /// the fixed header, and leaves every other byte as it is.
    pub proof fn lemma_cascade_view(&self)
        ensures
            forall|v: Seq<u8>| #[trigger] self.spec_cascade_view(v) == splice(v, self.spec_offset() + 4, be16_bytes((v.len() - self.spec_offset() - 40) as u16)),
    {
        self.envelope.lemma_cascade_view();
    }
}

impl Packet for Ipv6 {
    /// The payload length set to the bytes after the header, then the
    /// envelope's cascade.
    closed spec fn spec_cascade_view(&self, v: Seq<u8>) -> Seq<u8> {
        self.envelope.spec_cascade_view(
            splice(v, (self.offset + 4) as nat, be16_bytes((v.len() - self.offset - 40) as u16)),
        )
    }

    closed spec fn spec_mbuf(&self) -> MBuf {
        self.envelope.spec_mbuf()
    }

    closed spec fn spec_offset(&self) -> nat {
        self.offset as nat
    }

    open spec fn spec_header_len(&self) -> nat {
        40
    }

    closed spec fn inv(&self) -> bool {
        &&& self.envelope.inv()
        &&& self.offset == payload_offset_of(&self.envelope)
        &&& self.offset + 40 <= bytes_of(&self.envelope).len()
    }

    proof fn lemma_inv(&self) {
        self.envelope.lemma_inv();
        assert(self.spec_offset() == self.offset);
        assert(self.spec_mbuf() == self.envelope.spec_mbuf());
        assert(self.offset + 40 <= bytes_of(&self.envelope).len());
        assert(self.spec_header_len() == 40);
    }

    fn mbuf(&self) -> (r: &MBuf) {
        self.envelope.mbuf()
    }

    fn offset(&self) -> (r: usize) {
        self.offset
    }

    fn header_len(&self) -> (r: usize) {
        40
    }

    fn write_bytes(&mut self, pos: usize, bytes: &[u8]) {
        proof {
            self.envelope.lemma_inv();
        }
        self.envelope.write_bytes(pos, bytes);
    }

    fn resize(&mut self, pos: usize, len: isize) -> (r: Result<(), BufferError>) {
        proof {
            self.envelope.lemma_inv();
        }
        let r = self.envelope.resize(pos, len);
        proof {
            if r is Ok && pos <= bytes_of(&old(self).envelope).len() {
                crate::packets::lemma_resize_len(bytes_of(&old(self).envelope), pos as nat, len as int);
            }
        }
        r
    }

    fn cascade(&mut self)
        ensures
            final(self).spec_payload_length() == (old(self).spec_mbuf().view().len() - old(
                self,
            ).spec_offset() - 40) as u16,
    {
        proof {
            self.lemma_inv();
        }
        let len = self.payload_len() as u16;
        self.set_payload_length(len);
        let ghost mid = self.spec_mbuf().view();
        proof {
            self.envelope.lemma_inv();
        }
        let ghost e_mid = self.envelope;
        self.envelope.cascade();
        proof {
            e_mid.lemma_cascade_view();
            old(self).envelope.lemma_cascade_view();
        }
        assert(self.spec_payload_length() == len) by {
            assert(self.spec_mbuf().view()[self.offset + 4] == mid[self.offset + 4]);
            assert(self.spec_mbuf().view()[self.offset + 5] == mid[self.offset + 5]);
        }
    }

    fn into_mbuf(self) -> (r: MBuf) {
        proof {
            self.envelope.lemma_inv();
        }
        self.envelope.into_mbuf()
    }
}

impl ParsedPacket for Ipv6 {
    type Envelope = Ethernet;

    open spec fn spec_parses(envelope: Ethernet) -> bool {
        read_spec(bytes_of(&envelope).len(), payload_offset_of(&envelope), 40) is Ok
    }

    open spec fn spec_default_header(envelope: Ethernet) -> Seq<u8> {
        seq![0x60u8] + Seq::new(39, |i: int| 0u8)
    }


    closed spec fn spec_envelope(&self) -> Ethernet {
        self.envelope
    }

    proof fn lemma_envelope(&self) {
    }

    fn envelope(&self) -> (r: &Ethernet) {
        &self.envelope
    }

    fn deparse(self) -> (r: Ethernet) {
        self.envelope
    }

    fn do_parse(envelope: Ethernet) -> (r: Result<Self, PacketError>)
        ensures
            match read_spec(bytes_of(&envelope).len(), payload_offset_of(&envelope), 40) {
                Ok(_) => r matches Ok(p) && p.spec_offset() == payload_offset_of(&envelope),
                Err(e) => r matches Err(PacketError::Buffer(e2)) && e2 == e,
            },
    {
        proof {
            envelope.lemma_inv();
        }
        let offset = envelope.payload_offset();
        match read_item::<Ipv6Header>(envelope.mbuf(), offset) {
            Ok(_) => Ok(Ipv6 { envelope, offset }),
            Err(e) => Err(PacketError::Buffer(e)),
        }
    }

    fn do_push(envelope: Ethernet) -> (r: Result<Self, PacketError>)
        ensures
            !resize_fails(envelope.spec_mbuf(), payload_offset_of(&envelope), 40) ==> (r matches Ok(
                p,
            ) && bytes_of(&p) == splice(
                resize_spec(bytes_of(&envelope), payload_offset_of(&envelope), 40),
                payload_offset_of(&envelope),
                seq![0x60u8] + Seq::new(39, |i: int| 0u8),
            )),
            resize_fails(envelope.spec_mbuf(), payload_offset_of(&envelope), 40) ==> r matches Err(
                PacketError::Buffer(BufferError::NotResized),
            ),
    {
        let mut envelope = envelope;
        proof {
            envelope.lemma_inv();
        }
        let offset = envelope.payload_offset();
        let ghost before = bytes_of(&envelope);
        match envelope.resize(offset, 40) {
            Ok(_) => {},
            Err(e) => {
                return Err(PacketError::Buffer(e));
            },
        }
        proof {
            crate::packets::lemma_resize_len(before, offset as nat, 40);
        }
        let header = Ipv6Header::default();
        let bytes = header.to_bytes();
        envelope.write_bytes(offset, bytes.as_slice());
        Ok(Ipv6 { envelope, offset })
    }

    fn remove(self) -> (r: Result<Ethernet, PacketError>)
        ensures
            r matches Ok(e) && bytes_of(&e) == crate::packets::buffer::dealloc_spec(
                bytes_of(&self),
                self.spec_offset(),
                40,
            ),
    {
        let mut envelope = self.envelope;
        let offset = self.offset;
        proof {
            envelope.lemma_inv();
        }
        match envelope.resize(offset, -40) {
            Ok(_) => Ok(envelope),
            Err(e) => Err(PacketError::Buffer(e)),
        }
    }
}

impl IpPacket for Ipv6 {
    open spec fn spec_next_proto(&self) -> u8 {
        self.spec_next_header()
    }

    open spec fn spec_src(&self) -> IpAddr {
        IpAddr::V6(v6_from_segments(self.spec_src_segments()))
    }

    open spec fn spec_dst(&self) -> IpAddr {
        IpAddr::V6(v6_from_segments(self.spec_dst_segments()))
    }

    open spec fn spec_v6(&self) -> bool {
        true
    }

    open spec fn spec_dst_after(&self, dst: IpAddr) -> IpAddr {
        dst
    }

    open spec fn spec_pseudo_header(&self, packet_len: u16, protocol: ProtocolNumber) -> PseudoHeader {
        PseudoHeader::V6 {
            src: v6_from_segments(self.spec_src_segments()),
            dst: v6_from_segments(self.spec_dst_segments()),
            packet_len,
            protocol,
        }
    }

    proof fn lemma_addr_version(&self) {
    }

    #[inline]
    fn next_proto(&self) -> (r: ProtocolNumber) {
        self.next_header()
    }

    #[inline]
    fn src(&self) -> (r: IpAddr) {
        let a = Ipv6::src(self);
        proof {
            lemma_v6_from_segments(a);
        }
        IpAddr::V6(a)
    }

    #[inline]
    fn set_src(&mut self, src: IpAddr) -> (r: Result<(), PacketError>) {
        match src {
            IpAddr::V6(addr) => {
                Ipv6::set_src(self, addr);
                proof {
                    lemma_v6_from_segments(addr);
                }
                Ok(())
            },
            _ => Err(PacketError::IpAddrMismatch(IpAddrMismatchError)),
        }
    }

    #[inline]
    fn dst(&self) -> (r: IpAddr) {
        let a = Ipv6::dst(self);
        proof {
            lemma_v6_from_segments(a);
        }
        IpAddr::V6(a)
    }

    #[inline]
    fn set_dst(&mut self, dst: IpAddr) -> (r: Result<(), PacketError>) {
        match dst {
            IpAddr::V6(addr) => {
                Ipv6::set_dst(self, addr);
                proof {
                    lemma_v6_from_segments(addr);
                }
                Ok(())
            },
            _ => Err(PacketError::IpAddrMismatch(IpAddrMismatchError)),
        }
    }

    #[inline]
    fn pseudo_header(&self, packet_len: u16, protocol: ProtocolNumber) -> (r: PseudoHeader) {
        let src = Ipv6::src(self);
        let dst = Ipv6::dst(self);
        proof {
            lemma_v6_from_segments(src);
            lemma_v6_from_segments(dst);
        }
        PseudoHeader::V6 { src, dst, packet_len, protocol }
    }

    fn write_payload(&mut self, pos: usize, bytes: &[u8]) {
        let ghost before = self.spec_mbuf().view();
        proof {
            self.lemma_inv();
        }
        self.write_bytes(pos, bytes);
        proof {
            old(self).envelope.lemma_cascade_view();
            self.envelope.lemma_cascade_view();
            let after = self.spec_mbuf().view();
            assert(forall|i: int| 0 <= i < self.spec_offset() + self.spec_header_len() ==> after[i] == before[i]);
            assert(self.spec_src_segments() =~= old(self).spec_src_segments());
            assert(self.spec_dst_segments() =~= old(self).spec_dst_segments());
        }
    }

    fn resize_payload(&mut self, pos: usize, len: isize) -> (r: Result<(), BufferError>) {
        let ghost before = self.spec_mbuf().view();
        proof {
            self.lemma_inv();
        }
        let r = self.resize(pos, len);
        proof {
            if r is Ok && pos <= before.len() {
                crate::packets::lemma_resize_len(before, pos as nat, len as int);
            }
            old(self).envelope.lemma_cascade_view();
            self.envelope.lemma_cascade_view();
            let after = self.spec_mbuf().view();
            assert(forall|i: int| 0 <= i < self.spec_offset() + self.spec_header_len() ==> after[i] == before[i]);
            assert(self.spec_src_segments() =~= old(self).spec_src_segments());
            assert(self.spec_dst_segments() =~= old(self).spec_dst_segments());
        }
        r
    }

}

impl Ipv6Packet for Ipv6 {
    proof fn lemma_v6(&self) {
    }
}

impl Ipv6 {
    /// The pseudo header of an IPv6 packet (RFC 8200, 8.1) carries the
    /// packet's source address, as `src` reads it from octets 8 to 23 of
    /// the header, and its destination address, as `dst` reads it from
    /// octets 24 to 39, with the length and protocol it is asked for.
    pub proof fn law_pseudo_header_addresses(&self, packet_len: u16, protocol: ProtocolNumber)
        ensures
            self.spec_pseudo_header(packet_len, protocol) matches PseudoHeader::V6 {
                src,
                dst,
                packet_len: l,
                protocol: p,
            } && {
                &&& self.spec_src() == IpAddr::V6(src)
                &&& self.spec_dst() == IpAddr::V6(dst)
                &&& src.0@ == v6_segments_at(self.spec_mbuf().view(), self.spec_offset() + 8int)
                &&& dst.0@ == v6_segments_at(self.spec_mbuf().view(), self.spec_offset() + 24int)
                &&& l == packet_len
                &&& p == protocol
            },
    {
        broadcast use vstd::array::group_array_axioms;

        let s = v6_from_segments(self.spec_src_segments());
        let d = v6_from_segments(self.spec_dst_segments());
        assert(s.0@ =~= self.spec_src_segments());
        assert(d.0@ =~= self.spec_dst_segments());
    }

    /// Writing an address into the destination field of an IPv6 packet, as
    /// `set_dst` does, makes it the destination of the pseudo header, and
    /// leaves the source the packet had.
    pub proof fn law_pseudo_header_after_dst(
        before: Ipv6,
        after: Ipv6,
        dst: Ipv6Addr,
        packet_len: u16,
        protocol: ProtocolNumber,
    )
        requires
            before.inv(),
            after.spec_offset() == before.spec_offset(),
            after.spec_mbuf().view() == splice(
                before.spec_mbuf().view(),
                before.spec_offset() + 24,
                v6_bytes(dst.0@),
            ),
        ensures
            after.spec_pseudo_header(packet_len, protocol) == (PseudoHeader::V6 {
                src: v6_from_segments(v6_segments_at(before.spec_mbuf().view(), before.spec_offset() + 8int)),
                dst,
                packet_len,
                protocol,
            }),
    {
        before.lemma_inv();
        lemma_v6_roundtrip(before.spec_mbuf().view(), before.spec_offset() + 24, dst.0@);
        lemma_v6_from_segments(dst);
        assert(after.spec_src_segments() =~= v6_segments_at(
            before.spec_mbuf().view(),
            before.spec_offset() + 8int,
        ));
    }

    /// Writing an address into the source field of an IPv6 packet, as
    /// `set_src` does, makes it the source of the pseudo header, and leaves
    /// the destination the packet had.
    pub proof fn law_pseudo_header_after_src(
        before: Ipv6,
        after: Ipv6,
        src: Ipv6Addr,
        packet_len: u16,
        protocol: ProtocolNumber,
    )
        requires
            before.inv(),
            after.spec_offset() == before.spec_offset(),
            after.spec_mbuf().view() == splice(
                before.spec_mbuf().view(),
                before.spec_offset() + 8,
                v6_bytes(src.0@),
            ),
        ensures
            after.spec_pseudo_header(packet_len, protocol) == (PseudoHeader::V6 {
                src,
                dst: v6_from_segments(v6_segments_at(before.spec_mbuf().view(), before.spec_offset() + 24int)),
                packet_len,
                protocol,
            }),
    {
        before.lemma_inv();
        lemma_v6_roundtrip(before.spec_mbuf().view(), before.spec_offset() + 8, src.0@);
        lemma_v6_from_segments(src);
        assert(after.spec_dst_segments() =~= v6_segments_at(
            before.spec_mbuf().view(),
            before.spec_offset() + 24int,
        ));
    }
}

} // verus!
