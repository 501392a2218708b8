//! IPv4 packets (RFC 791).
//!
//! ```text
//!  0                   1                   2                   3
//!  0 1 2 3 4 5 6 7 8 9 0 1 2 3 4 5 6 7 8 9 0 1 2 3 4 5 6 7 8 9 0 1
//! +-+-+-+-+-+-+-+-+-+-+-+-+-+-+-+-+-+-+-+-+-+-+-+-+-+-+-+-+-+-+-+-+
//! |Version|  IHL  |    DSCP_ECN   |          Total Length         |
//! +-+-+-+-+-+-+-+-+-+-+-+-+-+-+-+-+-+-+-+-+-+-+-+-+-+-+-+-+-+-+-+-+
//! |         Identification        |Flags|      Fragment Offset    |
//! +-+-+-+-+-+-+-+-+-+-+-+-+-+-+-+-+-+-+-+-+-+-+-+-+-+-+-+-+-+-+-+-+
//! |  Time to Live |    Protocol   |         Header Checksum       |
//! +-+-+-+-+-+-+-+-+-+-+-+-+-+-+-+-+-+-+-+-+-+-+-+-+-+-+-+-+-+-+-+-+
//! |                       Source Address                          |
//! +-+-+-+-+-+-+-+-+-+-+-+-+-+-+-+-+-+-+-+-+-+-+-+-+-+-+-+-+-+-+-+-+
//! |                    Destination Address                        |
//! +-+-+-+-+-+-+-+-+-+-+-+-+-+-+-+-+-+-+-+-+-+-+-+-+-+-+-+-+-+-+-+-+
//! ```
use crate::packets::buffer::{read_item, read_spec, BufferError};
use crate::packets::checksum::PseudoHeader;
use crate::packets::ethernet::Ethernet;
use crate::packets::ip::{
    ipv4_text, lemma_v4_from_octets, protocol_number_text, v4_from_octets, IpAddr,
    IpAddrMismatchError, IpPacket, Ipv4Addr, ProtocolNumber,
};
use crate::packets::mbuf::{be16, be16_bytes, splice, u16_to_be, MBuf};
use crate::packets::{
    bytes_of, payload_offset_of, resize_fails, resize_spec, Fixed, Header, Packet, PacketError,
    ParsedPacket,
};
use crate::text::{bool_text, dec_text, push_bool, push_dec, push_str};
use vstd::prelude::*;

verus! {

/// Mask of the DSCP bits of the DSCP/ECN octet.
pub const DSCP: u8 = 0b1111_1100;

/// Mask of the ECN bits of the DSCP/ECN octet.
pub const ECN: u8 = 0b0000_0011;

/// The "don't fragment" flag.
pub const FLAGS_DF: u16 = 0b0100_0000_0000_0000;

/// The "more fragments" flag.
pub const FLAGS_MF: u16 = 0b0010_0000_0000_0000;

/// Size of the fixed portion of the IPv4 header.
pub const IPV4_HEADER_LEN: usize = 20;

/// IPv4 header
///
/// The header only include the fixed portion of the IPv4 header.
/// Options are parsed separately.
#[derive(Debug, Copy, Clone)]
pub struct Ipv4Header {
    version_ihl: u8,
    dscp_ecn: u8,
    total_length: u16,
    identification: u16,
    flags_to_frag_offset: u16,
    ttl: u8,
    protocol: u8,
    checksum: u16,
    src: Ipv4Addr,
    dst: Ipv4Addr,
}

impl Default for Ipv4Header {
    fn default() -> (r: Ipv4Header)
        ensures
            r.spec_bytes() == seq![0x45u8] + Seq::new(19, |i: int| 0u8),
    {
        let r = Ipv4Header {
            version_ihl: 0x45,
            dscp_ecn: 0,
            total_length: 0,
            identification: 0,
            flags_to_frag_offset: 0,
            ttl: 0,
            protocol: 0,
            checksum: 0,
            src: Ipv4Addr::unspecified(),
            dst: Ipv4Addr::unspecified(),
        };
        assert(r.spec_bytes() =~= seq![0x45u8] + Seq::new(19, |i: int| 0u8));
        r
    }
}

impl Fixed for Ipv4Header {
    open spec fn spec_size() -> nat {
        20
    }

    closed spec fn spec_bytes(&self) -> Seq<u8> {
        seq![self.version_ihl, self.dscp_ecn] + be16_bytes(self.total_length) + be16_bytes(
            self.identification,
        ) + be16_bytes(self.flags_to_frag_offset) + seq![self.ttl, self.protocol] + be16_bytes(
            self.checksum,
        ) + self.src.0@ + self.dst.0@
    }

    fn size() -> (r: usize) {
        20
    }

    fn to_bytes(&self) -> (r: Vec<u8>) {
        let mut v: Vec<u8> = Vec::new();
        v.push(self.version_ihl);
        v.push(self.dscp_ecn);
        let a = u16_to_be(self.total_length);
        v.push(a[0]);
        v.push(a[1]);
        let b = u16_to_be(self.identification);
        v.push(b[0]);
        v.push(b[1]);
        let c = u16_to_be(self.flags_to_frag_offset);
        v.push(c[0]);
        v.push(c[1]);
        v.push(self.ttl);
        v.push(self.protocol);
        let d = u16_to_be(self.checksum);
        v.push(d[0]);
        v.push(d[1]);
        v.push(self.src.0[0]);
        v.push(self.src.0[1]);
        v.push(self.src.0[2]);
        v.push(self.src.0[3]);
        v.push(self.dst.0[0]);
        v.push(self.dst.0[1]);
        v.push(self.dst.0[2]);
        v.push(self.dst.0[3]);
        assert(v@ =~= self.spec_bytes());
        v
    }

    proof fn lemma_bytes_len(&self) {
    }
}

impl Header for Ipv4Header {

}

/// IPv4 packet
#[derive(Debug)]
pub struct Ipv4 {
    envelope: Ethernet,
    offset: usize,
}

impl Ipv4 {
    /// The header octet at `i`.
    pub open spec fn spec_byte(&self, i: int) -> u8 {
        self.spec_mbuf().view()[self.spec_offset() + i]
    }

    /// The big-endian 16-bit header field at `i`.
    pub open spec fn spec_be16(&self, i: int) -> u16 {
        be16(self.spec_mbuf().view(), self.spec_offset() + i)
    }

    /// The four header octets at `i`.
    pub open spec fn spec_octets(&self, i: int) -> Seq<u8> {
        self.spec_mbuf().view().subrange(self.spec_offset() + i, self.spec_offset() + i + 4)
    }

    pub open spec fn spec_version(&self) -> u8 {
        self.spec_byte(0) >> 4
    }

    pub open spec fn spec_ihl(&self) -> u8 {
        self.spec_byte(0) & 0x0f
    }

    pub open spec fn spec_dscp(&self) -> u8 {
        self.spec_byte(1) >> 2
    }

    pub open spec fn spec_ecn(&self) -> u8 {
        self.spec_byte(1) & ECN
    }

    pub open spec fn spec_total_length(&self) -> u16 {
        self.spec_be16(2)
    }

    pub open spec fn spec_identification(&self) -> u16 {
        self.spec_be16(4)
    }

    pub open spec fn spec_flags_to_frag_offset(&self) -> u16 {
        self.spec_be16(6)
    }

    pub open spec fn spec_dont_fragment(&self) -> bool {
        self.spec_flags_to_frag_offset() & FLAGS_DF != 0
    }

    pub open spec fn spec_more_fragments(&self) -> bool {
        self.spec_flags_to_frag_offset() & FLAGS_MF != 0
    }

    pub open spec fn spec_fragment_offset(&self) -> u16 {
        self.spec_flags_to_frag_offset() & 0x1fff
    }

    pub open spec fn spec_ttl(&self) -> u8 {
        self.spec_byte(8)
    }

    pub open spec fn spec_protocol(&self) -> u8 {
        self.spec_byte(9)
    }

    pub open spec fn spec_checksum(&self) -> u16 {
        self.spec_be16(10)
    }

    pub open spec fn spec_src_octets(&self) -> Seq<u8> {
        self.spec_octets(12)
    }

    pub open spec fn spec_dst_octets(&self) -> Seq<u8> {
        self.spec_octets(16)
    }

    fn read_u8(&self, i: usize) -> (r: u8)
        requires
            self.inv(),
            i < 20,
        ensures
            r == self.spec_byte(i as int),
    {
        proof {
            self.lemma_inv();
        }
        self.envelope.mbuf().read_u8(self.offset + i)
    }

    fn read_be16(&self, i: usize) -> (r: u16)
        requires
            self.inv(),
            i + 2 <= 20,
        ensures
            r == self.spec_be16(i as int),
    {
        proof {
            self.lemma_inv();
        }
        self.envelope.mbuf().read_be16(self.offset + i)
    }

    fn read_addr(&self, i: usize) -> (r: Ipv4Addr)
        requires
            self.inv(),
            i + 4 <= 20,
        ensures
            r.0@ == self.spec_octets(i as int),
    {
        proof {
            self.lemma_inv();
        }
        let m = self.envelope.mbuf();
        let p = self.offset + i;
        let r = Ipv4Addr([m.read_u8(p), m.read_u8(p + 1), m.read_u8(p + 2), m.read_u8(p + 3)]);
        assert(r.0@ =~= self.spec_octets(i as int));
        r
    }

    /// Writes `bytes` into the header at `i`.
    fn write_header(&mut self, i: usize, bytes: &[u8])
        requires
            old(self).inv(),
            i + bytes@.len() <= 20,
        ensures
            final(self).inv(),
            final(self).spec_mbuf().view() == splice(old(self).spec_mbuf().view(), (old(self).spec_offset() + i) as nat, bytes@),
            final(self).spec_offset() == old(self).spec_offset(),
            final(self).spec_mbuf().spec_headroom() == old(self).spec_mbuf().spec_headroom(),
            final(self).spec_mbuf().spec_tailroom() == old(self).spec_mbuf().spec_tailroom(),
    {
        proof {
            self.lemma_inv();
            self.envelope.lemma_inv();
        }
        let pos = self.offset + i;
        self.envelope.write_bytes(pos, bytes);
    }

    fn write_u8(&mut self, i: usize, v: u8)
        requires
            old(self).inv(),
            i < 20,
        ensures
            final(self).inv(),
            final(self).spec_mbuf().view() == old(self).spec_mbuf().view().update((old(self).spec_offset() + i) as int, v),
            final(self).spec_offset() == old(self).spec_offset(),
            final(self).spec_mbuf().spec_headroom() == old(self).spec_mbuf().spec_headroom(),
            final(self).spec_mbuf().spec_tailroom() == old(self).spec_mbuf().spec_tailroom(),
    {
        let b = [v];
        self.write_header(i, b.as_slice());
        assert(self.spec_mbuf().view() =~= old(self).spec_mbuf().view().update((old(self).spec_offset() + i) as int, v));
    }

    fn write_be16(&mut self, i: usize, v: u16)
        requires
            old(self).inv(),
            i + 2 <= 20,
        ensures
            final(self).inv(),
            final(self).spec_mbuf().view() == splice(old(self).spec_mbuf().view(), (old(self).spec_offset() + i) as nat, be16_bytes(v)),
            final(self).spec_be16(i as int) == v,
            final(self).spec_offset() == old(self).spec_offset(),
            final(self).spec_mbuf().spec_headroom() == old(self).spec_mbuf().spec_headroom(),
            final(self).spec_mbuf().spec_tailroom() == old(self).spec_mbuf().spec_tailroom(),
    {
        proof {
            self.lemma_inv();
        }
        let b = u16_to_be(v);
        self.write_header(i, b.as_slice());
        proof {
            crate::packets::mbuf::lemma_be16_roundtrip(
                old(self).spec_mbuf().view(),
                (old(self).spec_offset() + i) as nat,
                v,
            );
        }
    }

    #[inline]
    pub fn version(&self) -> (r: u8)
        requires
            self.inv(),
        ensures
            r == self.spec_version(),
    {
        // Protocol Version, should always be `4`
        let b = self.read_u8(0);
        assert((b & 0xf0) >> 4 == b >> 4) by (bit_vector);
        (b & 0xf0) >> 4
    }

    #[inline]
    pub fn ihl(&self) -> (r: u8)
        requires
            self.inv(),
        ensures
            r == self.spec_ihl(),
    {
        self.read_u8(0) & 0x0f
    }

    /// Replaces the low four bits of the version/IHL octet by the IHL bits
    /// of both the old octet and `ihl`.
    #[allow(dead_code)]
    fn set_ihl(&mut self, ihl: u8)
        requires
            old(self).inv(),
        ensures
            final(self).inv(),
            final(self).spec_mbuf().view() == old(self).spec_mbuf().view().update(old(self).spec_offset() as int,
                (old(self).spec_byte(0) & 0x0f) | (ihl & 0x0f),
            ),
    {
        let b = (self.read_u8(0) & 0x0f) | (ihl & 0x0f);
        self.write_u8(0, b);
    }

    #[inline]
    pub fn dscp(&self) -> (r: u8)
        requires
            self.inv(),
        ensures
            r == self.spec_dscp(),
    {
        self.read_u8(1) >> 2
    }

    #[inline]
    pub fn set_dscp(&mut self, dscp: u8)
        requires
            old(self).inv(),
        ensures
            final(self).inv(),
            final(self).spec_offset() == old(self).spec_offset(),
            final(self).spec_mbuf().view() == old(self).spec_mbuf().view().update((old(self).spec_offset() + 1) as int,
                (old(self).spec_byte(1) & ECN) | (dscp << 2),
            ),
            final(self).spec_dscp() == dscp & 0x3f,
            final(self).spec_ecn() == old(self).spec_ecn(),
    {
        let old_b = self.read_u8(1);
        let b = (old_b & ECN) | (dscp << 2);
        self.write_u8(1, b);
        assert(((old_b & 3) | (dscp << 2)) >> 2 == dscp & 0x3f && ((old_b & 3) | (dscp << 2)) & 3
            == old_b & 3) by (bit_vector);
    }

    #[inline]
    pub fn ecn(&self) -> (r: u8)
        requires
            self.inv(),
        ensures
            r == self.spec_ecn(),
    {
        self.read_u8(1) & ECN
    }

    #[inline]
    pub fn set_ecn(&mut self, ecn: u8)
        requires
            old(self).inv(),
        ensures
            final(self).inv(),
            final(self).spec_offset() == old(self).spec_offset(),
            final(self).spec_mbuf().view() == old(self).spec_mbuf().view().update((old(self).spec_offset() + 1) as int,
                (old(self).spec_byte(1) & DSCP) | (ecn & ECN),
            ),
            final(self).spec_ecn() == ecn & ECN,
            final(self).spec_dscp() == old(self).spec_dscp(),
    {
        let old_b = self.read_u8(1);
        let b = (old_b & DSCP) | (ecn & ECN);
        self.write_u8(1, b);
        assert(((old_b & 0xfc) | (ecn & 3)) >> 2 == old_b >> 2 && ((old_b & 0xfc) | (ecn & 3)) & 3
            == ecn & 3) by (bit_vector);
    }

    #[inline]
    pub fn total_length(&self) -> (r: u16)
        requires
            self.inv(),
        ensures
            r == self.spec_total_length(),
    {
        self.read_be16(2)
    }

    #[inline]
    fn set_total_length(&mut self, total_length: u16)
        requires
            old(self).inv(),
        ensures
            final(self).inv(),
            final(self).spec_offset() == old(self).spec_offset(),
            final(self).spec_mbuf().view() == splice(old(self).spec_mbuf().view(), (old(self).spec_offset() + 2) as nat, be16_bytes(total_length)),
            final(self).spec_total_length() == total_length,
            final(self).spec_mbuf().spec_headroom() == old(self).spec_mbuf().spec_headroom(),
            final(self).spec_mbuf().spec_tailroom() == old(self).spec_mbuf().spec_tailroom(),
    {
        self.write_be16(2, total_length);
    }

    #[inline]
    pub fn identification(&self) -> (r: u16)
        requires
            self.inv(),
        ensures
            r == self.spec_identification(),
    {
        self.read_be16(4)
    }

    #[inline]
    pub fn set_identification(&mut self, identification: u16)
        requires
            old(self).inv(),
        ensures
            final(self).inv(),
            final(self).spec_offset() == old(self).spec_offset(),
            final(self).spec_mbuf().view() == splice(old(self).spec_mbuf().view(), (old(self).spec_offset() + 4) as nat, be16_bytes(identification)),
            final(self).spec_identification() == identification,
    {
        self.write_be16(4, identification);
    }

    #[inline]
    pub fn dont_fragment(&self) -> (r: bool)
        requires
            self.inv(),
        ensures
            r == self.spec_dont_fragment(),
    {
        self.read_be16(6) & FLAGS_DF != 0
    }

    /// Sets the flags and fragment offset field.
    fn set_flags_to_frag_offset(&mut self, v: u16)
        requires
            old(self).inv(),
        ensures
            final(self).inv(),
            final(self).spec_offset() == old(self).spec_offset(),
            final(self).spec_mbuf().view() == splice(old(self).spec_mbuf().view(), (old(self).spec_offset() + 6) as nat, be16_bytes(v)),
            final(self).spec_flags_to_frag_offset() == v,
    {
        self.write_be16(6, v);
    }

    #[inline]
    pub fn set_dont_fragment(&mut self)
        requires
            old(self).inv(),
        ensures
            final(self).inv(),
            final(self).spec_offset() == old(self).spec_offset(),
            final(self).spec_flags_to_frag_offset() == old(self).spec_flags_to_frag_offset()
                | FLAGS_DF,
            final(self).spec_dont_fragment(),
            final(self).spec_more_fragments() == old(self).spec_more_fragments(),
            final(self).spec_fragment_offset() == old(self).spec_fragment_offset(),
            final(self).spec_mbuf().view() == splice(old(self).spec_mbuf().view(), (old(self).spec_offset() + 6) as nat,
                be16_bytes(old(self).spec_flags_to_frag_offset() | FLAGS_DF),
            ),
    {
        let f = self.read_be16(6);
        self.set_flags_to_frag_offset(f | FLAGS_DF);
        assert((f | 0x4000) & 0x4000 != 0 && ((f | 0x4000) & 0x2000 != 0) == (f & 0x2000 != 0)
            && (f | 0x4000) & 0x1fff == f & 0x1fff) by (bit_vector);
    }

    #[inline]
    pub fn unset_dont_fragment(&mut self)
        requires
            old(self).inv(),
        ensures
            final(self).inv(),
            final(self).spec_offset() == old(self).spec_offset(),
            final(self).spec_flags_to_frag_offset() == old(self).spec_flags_to_frag_offset()
                & !FLAGS_DF,
            !final(self).spec_dont_fragment(),
            final(self).spec_more_fragments() == old(self).spec_more_fragments(),
            final(self).spec_fragment_offset() == old(self).spec_fragment_offset(),
            final(self).spec_mbuf().view() == splice(old(self).spec_mbuf().view(), (old(self).spec_offset() + 6) as nat,
                be16_bytes(old(self).spec_flags_to_frag_offset() & !FLAGS_DF),
            ),
    {
        let f = self.read_be16(6);
        self.set_flags_to_frag_offset(f & !FLAGS_DF);
        assert((f & !0x4000u16) & 0x4000 == 0 && ((f & !0x4000u16) & 0x2000 != 0) == (f & 0x2000
            != 0) && (f & !0x4000u16) & 0x1fff == f & 0x1fff) by (bit_vector);
    }

    #[inline]
    pub fn more_fragments(&self) -> (r: bool)
        requires
            self.inv(),
        ensures
            r == self.spec_more_fragments(),
    {
        self.read_be16(6) & FLAGS_MF != 0
    }

    #[inline]
    pub fn set_more_fragments(&mut self)
        requires
            old(self).inv(),
        ensures
            final(self).inv(),
            final(self).spec_offset() == old(self).spec_offset(),
            final(self).spec_flags_to_frag_offset() == old(self).spec_flags_to_frag_offset()
                | FLAGS_MF,
            final(self).spec_more_fragments(),
            final(self).spec_dont_fragment() == old(self).spec_dont_fragment(),
            final(self).spec_fragment_offset() == old(self).spec_fragment_offset(),
            final(self).spec_mbuf().view() == splice(old(self).spec_mbuf().view(), (old(self).spec_offset() + 6) as nat,
                be16_bytes(old(self).spec_flags_to_frag_offset() | FLAGS_MF),
            ),
    {
        let f = self.read_be16(6);
        self.set_flags_to_frag_offset(f | FLAGS_MF);
        assert((f | 0x2000) & 0x2000 != 0 && ((f | 0x2000) & 0x4000 != 0) == (f & 0x4000 != 0)
            && (f | 0x2000) & 0x1fff == f & 0x1fff) by (bit_vector);
    }

    #[inline]
    pub fn unset_more_fragments(&mut self)
        requires
            old(self).inv(),
        ensures
            final(self).inv(),
            final(self).spec_offset() == old(self).spec_offset(),
            final(self).spec_flags_to_frag_offset() == old(self).spec_flags_to_frag_offset()
                & !FLAGS_MF,
            !final(self).spec_more_fragments(),
            final(self).spec_dont_fragment() == old(self).spec_dont_fragment(),
            final(self).spec_fragment_offset() == old(self).spec_fragment_offset(),
            final(self).spec_mbuf().view() == splice(old(self).spec_mbuf().view(), (old(self).spec_offset() + 6) as nat,
                be16_bytes(old(self).spec_flags_to_frag_offset() & !FLAGS_MF),
            ),
    {
        let f = self.read_be16(6);
        self.set_flags_to_frag_offset(f & !FLAGS_MF);
        assert((f & !0x2000u16) & 0x2000 == 0 && ((f & !0x2000u16) & 0x4000 != 0) == (f & 0x4000
            != 0) && (f & !0x2000u16) & 0x1fff == f & 0x1fff) by (bit_vector);
    }

    /// Clears the three flag bits.
    #[inline]
    pub fn clear_flags(&mut self)
        requires
            old(self).inv(),
        ensures
            final(self).inv(),
            final(self).spec_offset() == old(self).spec_offset(),
            final(self).spec_flags_to_frag_offset() == old(self).spec_flags_to_frag_offset()
                & !0xe000u16,
            !final(self).spec_more_fragments(),
            !final(self).spec_dont_fragment(),
            final(self).spec_fragment_offset() == old(self).spec_fragment_offset(),
            final(self).spec_mbuf().view() == splice(old(self).spec_mbuf().view(), (old(self).spec_offset() + 6) as nat,
                be16_bytes(old(self).spec_flags_to_frag_offset() & !0xe000u16),
            ),
    {
        let f = self.read_be16(6);
        self.set_flags_to_frag_offset(f & !0xe000);
        assert((f & !0xe000u16) & 0x2000 == 0 && (f & !0xe000u16) & 0x4000 == 0 && (f
            & !0xe000u16) & 0x1fff == f & 0x1fff) by (bit_vector);
    }

    #[inline]
    pub fn fragment_offset(&self) -> (r: u16)
        requires
            self.inv(),
        ensures
            r == self.spec_fragment_offset(),
    {
        self.read_be16(6) & 0x1fff
    }

    #[inline]
    pub fn set_fragment_offset(&mut self, offset: u16)
        requires
            old(self).inv(),
        ensures
            final(self).inv(),
            final(self).spec_offset() == old(self).spec_offset(),
            final(self).spec_flags_to_frag_offset() == (old(self).spec_flags_to_frag_offset()
                & 0xe000) | (offset & 0x1fff),
            final(self).spec_fragment_offset() == offset & 0x1fff,
            final(self).spec_dont_fragment() == old(self).spec_dont_fragment(),
            final(self).spec_more_fragments() == old(self).spec_more_fragments(),
            final(self).spec_mbuf().view() == splice(old(self).spec_mbuf().view(), (old(self).spec_offset() + 6) as nat,
                be16_bytes((old(self).spec_flags_to_frag_offset() & 0xe000) | (offset & 0x1fff)),
            ),
    {
        let f = self.read_be16(6);
        self.set_flags_to_frag_offset((f & 0xe000) | (offset & 0x1fff));
        assert(((f & 0xe000) | (offset & 0x1fff)) & 0x1fff == offset & 0x1fff && (((f & 0xe000) | (
        offset & 0x1fff)) & 0x4000 != 0) == (f & 0x4000 != 0) && (((f & 0xe000) | (offset
            & 0x1fff)) & 0x2000 != 0) == (f & 0x2000 != 0)) by (bit_vector);
    }

    #[inline]
    pub fn ttl(&self) -> (r: u8)
        requires
            self.inv(),
        ensures
            r == self.spec_ttl(),
    {
        self.read_u8(8)
    }

    #[inline]
    pub fn set_ttl(&mut self, ttl: u8)
        requires
            old(self).inv(),
        ensures
            final(self).inv(),
            final(self).spec_offset() == old(self).spec_offset(),
            final(self).spec_mbuf().view() == old(self).spec_mbuf().view().update((old(self).spec_offset() + 8) as int, ttl),
            final(self).spec_ttl() == ttl,
    {
        self.write_u8(8, ttl);
    }

    #[inline]
    pub fn protocol(&self) -> (r: ProtocolNumber)
        requires
            self.inv(),
        ensures
            r.0 == self.spec_protocol(),
    {
        ProtocolNumber::new(self.read_u8(9))
    }

    #[inline]
    pub fn set_protocol(&mut self, protocol: ProtocolNumber)
        requires
            old(self).inv(),
        ensures
            final(self).inv(),
            final(self).spec_offset() == old(self).spec_offset(),
            final(self).spec_mbuf().view() == old(self).spec_mbuf().view().update((old(self).spec_offset() + 9) as int, protocol.0),
            final(self).spec_protocol() == protocol.0,
    {
        self.write_u8(9, protocol.0);
    }

    #[inline]
    pub fn checksum(&self) -> (r: u16)
        requires
            self.inv(),
        ensures
            r == self.spec_checksum(),
    {
        self.read_be16(10)
    }

    #[allow(dead_code)]
    #[inline]
    fn set_checksum(&mut self, checksum: u16)
        requires
            old(self).inv(),
        ensures
            final(self).inv(),
            final(self).spec_mbuf().view() == splice(old(self).spec_mbuf().view(), (old(self).spec_offset() + 10) as nat, be16_bytes(checksum)),
            final(self).spec_checksum() == checksum,
    {
        self.write_be16(10, checksum);
    }

    #[inline]
    pub fn src(&self) -> (r: Ipv4Addr)
        requires
            self.inv(),
        ensures
            r.0@ == self.spec_src_octets(),
    {
        self.read_addr(12)
    }

    #[inline]
    pub fn set_src(&mut self, src: Ipv4Addr)
        requires
            old(self).inv(),
        ensures
            final(self).inv(),
            final(self).spec_offset() == old(self).spec_offset(),
            final(self).spec_mbuf().view() == splice(old(self).spec_mbuf().view(), (old(self).spec_offset() + 12) as nat, src.0@),
            final(self).spec_src_octets() == src.0@,
            final(self).spec_dst_octets() == old(self).spec_dst_octets(),
            final(self).spec_mbuf().spec_headroom() == old(self).spec_mbuf().spec_headroom(),
            final(self).spec_mbuf().spec_tailroom() == old(self).spec_mbuf().spec_tailroom(),
    {
        let o = src.octets();
        self.write_header(12, o.as_slice());
        assert(self.spec_src_octets() =~= src.0@);
        assert(self.spec_dst_octets() =~= old(self).spec_dst_octets());
    }

    #[inline]
    pub fn dst(&self) -> (r: Ipv4Addr)
        requires
            self.inv(),
        ensures
            r.0@ == self.spec_dst_octets(),
    {
        self.read_addr(16)
    }

    #[inline]
    pub fn set_dst(&mut self, dst: Ipv4Addr)
        requires
            old(self).inv(),
        ensures
            final(self).inv(),
            final(self).spec_offset() == old(self).spec_offset(),
            final(self).spec_mbuf().view() == splice(old(self).spec_mbuf().view(), (old(self).spec_offset() + 16) as nat, dst.0@),
            final(self).spec_dst_octets() == dst.0@,
            final(self).spec_src_octets() == old(self).spec_src_octets(),
            final(self).spec_mbuf().spec_headroom() == old(self).spec_mbuf().spec_headroom(),
            final(self).spec_mbuf().spec_tailroom() == old(self).spec_mbuf().spec_tailroom(),
    {
        let o = dst.octets();
        self.write_header(16, o.as_slice());
        assert(self.spec_dst_octets() =~= dst.0@);
        assert(self.spec_src_octets() =~= old(self).spec_src_octets());
    }

    /// `src > dst version: .., ihl: .., dscp: .., ecn: .., len: ..,
    /// dont_fragment: .., more_fragments: .., fragment_offset: .., ttl: ..,
    /// protocol: .., checksum: ..`
    pub fn to_string(&self) -> (r: String)
        requires
            self.inv(),
        ensures
            r@ == ipv4_text(self.spec_src_octets()) + " > "@ + ipv4_text(self.spec_dst_octets())
                + " version: "@ + dec_text(self.spec_version() as nat) + ", ihl: "@ + dec_text(
                self.spec_ihl() as nat,
            ) + ", dscp: "@ + dec_text(self.spec_dscp() as nat) + ", ecn: "@ + dec_text(
                self.spec_ecn() as nat,
            ) + ", len: "@ + dec_text(self.spec_total_length() as nat) + ", dont_fragment: "@
                + bool_text(self.spec_dont_fragment()) + ", more_fragments: "@ + bool_text(
                self.spec_more_fragments(),
            ) + ", fragment_offset: "@ + dec_text(self.spec_fragment_offset() as nat)
                + ", ttl: "@ + dec_text(self.spec_ttl() as nat) + ", protocol: "@
                + protocol_number_text(self.spec_protocol()) + ", checksum: "@ + dec_text(
                self.spec_checksum() as nat,
            ),
    {
        let mut s = self.src().to_string();
        push_str(&mut s, " > ");
        let d = self.dst().to_string();
        push_str(&mut s, d.as_str());
        push_str(&mut s, " version: ");
        push_dec(&mut s, self.version() as u64);
        push_str(&mut s, ", ihl: ");
        push_dec(&mut s, self.ihl() as u64);
        push_str(&mut s, ", dscp: ");
        push_dec(&mut s, self.dscp() as u64);
        push_str(&mut s, ", ecn: ");
        push_dec(&mut s, self.ecn() as u64);
        push_str(&mut s, ", len: ");
        push_dec(&mut s, self.total_length() as u64);
        push_str(&mut s, ", dont_fragment: ");
        push_bool(&mut s, self.dont_fragment());
        push_str(&mut s, ", more_fragments: ");
        push_bool(&mut s, self.more_fragments());
        push_str(&mut s, ", fragment_offset: ");
        push_dec(&mut s, self.fragment_offset() as u64);
        push_str(&mut s, ", ttl: ");
        push_dec(&mut s, self.ttl() as u64);
        push_str(&mut s, ", protocol: ");
        let p = self.protocol().to_string();
        push_str(&mut s, p.as_str());
        push_str(&mut s, ", checksum: ");
        push_dec(&mut s, self.checksum() as u64);
        s
    }
}

impl Ipv4 {
    /// An IPv4 packet's cascade writes the total length, the bytes from the
    /// header on, and leaves every other byte as it is.
    pub proof fn lemma_cascade_view(&self)
        ensures
            forall|v: Seq<u8>| #[trigger] self.spec_cascade_view(v) == splice(v, self.spec_offset() + 2, be16_bytes((v.len() - self.spec_offset()) as u16)),
    {
        self.envelope.lemma_cascade_view();
    }
}

impl Packet for Ipv4 {
    /// The total length set to the bytes from the header on, then the
    /// envelope's cascade.
    closed spec fn spec_cascade_view(&self, v: Seq<u8>) -> Seq<u8> {
        self.envelope.spec_cascade_view(
            splice(v, (self.offset + 2) as nat, be16_bytes((v.len() - self.offset) as u16)),
        )
    }

    closed spec fn spec_mbuf(&self) -> MBuf {
        self.envelope.spec_mbuf()
    }

    closed spec fn spec_offset(&self) -> nat {
        self.offset as nat
    }

    open spec fn spec_header_len(&self) -> nat {
        20
    }

    closed spec fn inv(&self) -> bool {
        &&& self.envelope.inv()
        &&& self.offset == payload_offset_of(&self.envelope)
        &&& self.offset + 20 <= bytes_of(&self.envelope).len()
    }

    proof fn lemma_inv(&self) {
        self.envelope.lemma_inv();
        assert(self.spec_offset() == self.offset);
        assert(self.spec_mbuf() == self.envelope.spec_mbuf());
        assert(self.offset + 20 <= bytes_of(&self.envelope).len());
        assert(self.spec_header_len() == 20);
    }

    fn mbuf(&self) -> (r: &MBuf) {
        self.envelope.mbuf()
    }

    fn offset(&self) -> (r: usize) {
        self.offset
    }

    fn header_len(&self) -> (r: usize) {
        20
    }

    fn write_bytes(&mut self, pos: usize, bytes: &[u8]) {
        proof {
            self.envelope.lemma_inv();
        }
        self.envelope.write_bytes(pos, bytes);
    }

    fn resize(&mut self, pos: usize, len: isize) -> (r: Result<(), BufferError>) {
        proof {
            self.envelope.lemma_inv();
        }
        let r = self.envelope.resize(pos, len);
        proof {
            if r is Ok && pos <= bytes_of(&old(self).envelope).len() {
                crate::packets::lemma_resize_len(bytes_of(&old(self).envelope), pos as nat, len as int);
            }
        }
        r
    }

    fn cascade(&mut self)
        ensures
            final(self).spec_total_length() == (old(self).spec_mbuf().view().len() - old(self).spec_offset()) as u16,
    {
        proof {
            self.lemma_inv();
            self.spec_mbuf().lemma_len_bound();
        }
        let len = self.len() as u16;
        self.set_total_length(len);
        let ghost mid = self.spec_mbuf().view();
        proof {
            self.envelope.lemma_inv();
        }
        let ghost e_mid = self.envelope;
        self.envelope.cascade();
        proof {
            e_mid.lemma_cascade_view();
            old(self).envelope.lemma_cascade_view();
        }
        assert(self.spec_total_length() == len) by {
            assert(self.spec_mbuf().view()[self.offset + 2] == mid[self.offset + 2]);
            assert(self.spec_mbuf().view()[self.offset + 3] == mid[self.offset + 3]);
        }
    }

    fn into_mbuf(self) -> (r: MBuf) {
        proof {
            self.envelope.lemma_inv();
        }
        self.envelope.into_mbuf()
    }
}

impl ParsedPacket for Ipv4 {
    type Envelope = Ethernet;

    open spec fn spec_parses(envelope: Ethernet) -> bool {
        read_spec(bytes_of(&envelope).len(), payload_offset_of(&envelope), 20) is Ok
    }

    open spec fn spec_default_header(envelope: Ethernet) -> Seq<u8> {
        seq![0x45u8] + Seq::new(19, |i: int| 0u8)
    }


    closed spec fn spec_envelope(&self) -> Ethernet {
        self.envelope
    }

    proof fn lemma_envelope(&self) {
    }

    fn envelope(&self) -> (r: &Ethernet) {
        &self.envelope
    }

    fn deparse(self) -> (r: Ethernet) {
        self.envelope
    }

    fn do_parse(envelope: Ethernet) -> (r: Result<Self, PacketError>)
        ensures
            match read_spec(bytes_of(&envelope).len(), payload_offset_of(&envelope), 20) {
                Ok(_) => r matches Ok(p) && p.spec_offset() == payload_offset_of(&envelope),
                Err(e) => r matches Err(PacketError::Buffer(e2)) && e2 == e,
            },
    {
        proof {
            envelope.lemma_inv();
        }
        let offset = envelope.payload_offset();
        match read_item::<Ipv4Header>(envelope.mbuf(), offset) {
            Ok(_) => Ok(Ipv4 { envelope, offset }),
            Err(e) => Err(PacketError::Buffer(e)),
        }
    }

    fn do_push(envelope: Ethernet) -> (r: Result<Self, PacketError>)
        ensures
            !resize_fails(envelope.spec_mbuf(), payload_offset_of(&envelope), 20) ==> (r matches Ok(
                p,
            ) && bytes_of(&p) == splice(
                resize_spec(bytes_of(&envelope), payload_offset_of(&envelope), 20),
                payload_offset_of(&envelope),
                seq![0x45u8] + Seq::new(19, |i: int| 0u8),
            )),
            resize_fails(envelope.spec_mbuf(), payload_offset_of(&envelope), 20) ==> r matches Err(
                PacketError::Buffer(BufferError::NotResized),
            ),
    {
        let mut envelope = envelope;
        proof {
            envelope.lemma_inv();
        }
        let offset = envelope.payload_offset();
        let ghost before = bytes_of(&envelope);
        match envelope.resize(offset, 20) {
            Ok(_) => {},
            Err(e) => {
                return Err(PacketError::Buffer(e));
            },
        }
        proof {
            crate::packets::lemma_resize_len(before, offset as nat, 20);
        }
        let header = Ipv4Header::default();
        let bytes = header.to_bytes();
        envelope.write_bytes(offset, bytes.as_slice());
        Ok(Ipv4 { envelope, offset })
    }

    fn remove(self) -> (r: Result<Ethernet, PacketError>)
        ensures
            r matches Ok(e) && bytes_of(&e) == crate::packets::buffer::dealloc_spec(
                bytes_of(&self),
                self.spec_offset(),
                20,
            ),
    {
        let mut envelope = self.envelope;
        let offset = self.offset;
        proof {
            envelope.lemma_inv();
        }
        match envelope.resize(offset, -20) {
            Ok(_) => Ok(envelope),
            Err(e) => Err(PacketError::Buffer(e)),
        }
    }
}

impl IpPacket for Ipv4 {
    open spec fn spec_next_proto(&self) -> u8 {
        self.spec_protocol()
    }

    open spec fn spec_src(&self) -> IpAddr {
        IpAddr::V4(v4_from_octets(self.spec_src_octets()))
    }

    open spec fn spec_dst(&self) -> IpAddr {
        IpAddr::V4(v4_from_octets(self.spec_dst_octets()))
    }

    open spec fn spec_v6(&self) -> bool {
        false
    }

    open spec fn spec_dst_after(&self, dst: IpAddr) -> IpAddr {
        dst
    }

    open spec fn spec_pseudo_header(&self, packet_len: u16, protocol: ProtocolNumber) -> PseudoHeader {
        PseudoHeader::V4 {
            src: v4_from_octets(self.spec_src_octets()),
            dst: v4_from_octets(self.spec_dst_octets()),
            packet_len,
            protocol,
        }
    }

    proof fn lemma_addr_version(&self) {
    }

    #[inline]
    fn next_proto(&self) -> (r: ProtocolNumber) {
        self.protocol()
    }

    #[inline]
    fn src(&self) -> (r: IpAddr) {
        let a = Ipv4::src(self);
        proof {
            lemma_v4_from_octets(a);
        }
        IpAddr::V4(a)
    }

    #[inline]
    fn set_src(&mut self, src: IpAddr) -> (r: Result<(), PacketError>) {
        match src {
            IpAddr::V4(addr) => {
                Ipv4::set_src(self, addr);
                proof {
                    lemma_v4_from_octets(addr);
                    assert(self.spec_protocol() == old(self).spec_protocol());
                }
                Ok(())
            },
            _ => Err(PacketError::IpAddrMismatch(IpAddrMismatchError)),
        }
    }

    #[inline]
    fn dst(&self) -> (r: IpAddr) {
        let a = Ipv4::dst(self);
        proof {
            lemma_v4_from_octets(a);
        }
        IpAddr::V4(a)
    }

    #[inline]
    fn set_dst(&mut self, dst: IpAddr) -> (r: Result<(), PacketError>) {
        match dst {
            IpAddr::V4(addr) => {
                Ipv4::set_dst(self, addr);
                proof {
                    lemma_v4_from_octets(addr);
                    assert(self.spec_protocol() == old(self).spec_protocol());
                }
                Ok(())
            },
            _ => Err(PacketError::IpAddrMismatch(IpAddrMismatchError)),
        }
    }

    #[inline]
    fn pseudo_header(&self, packet_len: u16, protocol: ProtocolNumber) -> (r: PseudoHeader) {
        let src = Ipv4::src(self);
        let dst = Ipv4::dst(self);
        proof {
            lemma_v4_from_octets(src);
            lemma_v4_from_octets(dst);
        }
        PseudoHeader::V4 { src, dst, packet_len, protocol }
    }

    fn write_payload(&mut self, pos: usize, bytes: &[u8]) {
        let ghost before = self.spec_mbuf().view();
        proof {
            self.lemma_inv();
        }
        self.write_bytes(pos, bytes);
        proof {
            old(self).envelope.lemma_cascade_view();
            self.envelope.lemma_cascade_view();
            let after = self.spec_mbuf().view();
            assert(forall|i: int| 0 <= i < self.spec_offset() + self.spec_header_len() ==> after[i] == before[i]);
            assert(self.spec_src_octets() =~= old(self).spec_src_octets());
            assert(self.spec_dst_octets() =~= old(self).spec_dst_octets());
        }
    }

    fn resize_payload(&mut self, pos: usize, len: isize) -> (r: Result<(), BufferError>) {
        let ghost before = self.spec_mbuf().view();
        proof {
            self.lemma_inv();
        }
        let r = self.resize(pos, len);
        proof {
            if r is Ok && pos <= before.len() {
                crate::packets::lemma_resize_len(before, pos as nat, len as int);
            }
            old(self).envelope.lemma_cascade_view();
            self.envelope.lemma_cascade_view();
            let after = self.spec_mbuf().view();
            assert(forall|i: int| 0 <= i < self.spec_offset() + self.spec_header_len() ==> after[i] == before[i]);
            assert(self.spec_src_octets() =~= old(self).spec_src_octets());
            assert(self.spec_dst_octets() =~= old(self).spec_dst_octets());
        }
        r
    }

}

impl Ipv4 {
    /// The pseudo header of an IPv4 packet (RFC 793, 3.1) carries the
    /// packet's source address, as `src` reads it from octets 12 to 15 of
    /// the header, and its destination address, as `dst` reads it from
    /// octets 16 to 19, with the length and protocol it is asked for.
    pub proof fn law_pseudo_header_addresses(&self, packet_len: u16, protocol: ProtocolNumber)
        requires
            self.inv(),
        ensures
            self.spec_pseudo_header(packet_len, protocol) matches PseudoHeader::V4 {
                src,
                dst,
                packet_len: l,
                protocol: p,
            } && {
                &&& self.spec_src() == IpAddr::V4(src)
                &&& self.spec_dst() == IpAddr::V4(dst)
                &&& src.0@ == self.spec_mbuf().view().subrange(self.spec_offset() + 12int, self.spec_offset() + 16int)
                &&& dst.0@ == self.spec_mbuf().view().subrange(self.spec_offset() + 16int, self.spec_offset() + 20int)
                &&& l == packet_len
                &&& p == protocol
            },
    {
        broadcast use vstd::array::group_array_axioms;

        self.lemma_inv();
        let v = self.spec_mbuf().view();
        let o = self.spec_offset();
        let s = v4_from_octets(self.spec_src_octets());
        let d = v4_from_octets(self.spec_dst_octets());
        assert(s.0@ =~= v.subrange(o + 12int, o + 16int));
        assert(d.0@ =~= v.subrange(o + 16int, o + 20int));
    }
}

} // verus!
