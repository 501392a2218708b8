//! TCP segments (RFC 793, with RFC 3168 and RFC 3540 for the NS, CWR and
//! ECE bits).
//!
//! ```text
//!  0                   1                   2                   3
//!  0 1 2 3 4 5 6 7 8 9 0 1 2 3 4 5 6 7 8 9 0 1 2 3 4 5 6 7 8 9 0 1
//! +-+-+-+-+-+-+-+-+-+-+-+-+-+-+-+-+-+-+-+-+-+-+-+-+-+-+-+-+-+-+-+-+
//! |          Source Port          |       Destination Port        |
//! +-+-+-+-+-+-+-+-+-+-+-+-+-+-+-+-+-+-+-+-+-+-+-+-+-+-+-+-+-+-+-+-+
//! |                        Sequence Number                        |
//! +-+-+-+-+-+-+-+-+-+-+-+-+-+-+-+-+-+-+-+-+-+-+-+-+-+-+-+-+-+-+-+-+
//! |                    Acknowledgment Number                      |
//! +-+-+-+-+-+-+-+-+-+-+-+-+-+-+-+-+-+-+-+-+-+-+-+-+-+-+-+-+-+-+-+-+
//! |  Data |     |N|C|E|U|A|P|R|S|F|                               |
//! | Offset| Res |S|W|C|R|C|S|S|Y|I|            Window             |
//! +-+-+-+-+-+-+-+-+-+-+-+-+-+-+-+-+-+-+-+-+-+-+-+-+-+-+-+-+-+-+-+-+
//! |           Checksum            |         Urgent Pointer        |
//! +-+-+-+-+-+-+-+-+-+-+-+-+-+-+-+-+-+-+-+-+-+-+-+-+-+-+-+-+-+-+-+-+
//! ```
//!
//! The checksum covers a pseudo header of the addresses, the protocol and
//! the segment length, followed by the whole segment with the checksum
//! field taken as zero.
use crate::packets::buffer::{dealloc_spec, read_item, read_spec, BufferError};
use crate::packets::checksum::{
    checksum_spec, compute, compute_with_ipaddr, fold16, inc_spec, ip_words, pseudo_header_raw_sum,
};
use crate::packets::ip::ProtocolNumbers;
use crate::packets::ip::{is_v6, Flow, IpAddr, IpPacket, ProtocolNumber};
use crate::packets::mbuf::{
    be16, be16_bytes, be32, be32_bytes, splice, u16_to_be, u32_to_be, MBuf,
};
use crate::packets::{resize_fails, resize_spec, Fixed, Header, Packet, PacketError, ParsedPacket};
use crate::text::{bool_text, dec_text, push_bool, push_dec, push_str};
use vstd::prelude::*;

verus! {

/// TCP header
///
/// The header only include the fixed portion of the TCP header.
/// Options are parsed separately.
#[derive(Debug, Copy, Clone)]
pub struct TcpHeader {
    src_port: u16,
    dst_port: u16,
    seq_no: u32,
    ack_no: u32,
    offset_to_ns: u8,
    flags: u8,
    window: u16,
    checksum: u16,
    urgent_pointer: u16,
}

/// The bytes of the default TCP header: all zero but a data offset of five
/// words.
pub open spec fn default_tcp_header_bytes() -> Seq<u8> {
    seq![0u8, 0, 0, 0, 0, 0, 0, 0, 0, 0, 0, 0, 0x50, 0, 0, 0, 0, 0, 0, 0]
}

impl Default for TcpHeader {
    fn default() -> (r: TcpHeader)
        ensures
            r.spec_bytes() == default_tcp_header_bytes(),
    {
        let r = TcpHeader {
            src_port: 0,
            dst_port: 0,
            seq_no: 0,
            ack_no: 0,
            offset_to_ns: 0x50,
            flags: 0,
            window: 0,
            checksum: 0,
            urgent_pointer: 0,
        };
        assert(be16_bytes(0u16) =~= seq![0u8, 0]);
        assert(be32_bytes(0u32) =~= seq![0u8, 0, 0, 0]);
        assert(r.spec_bytes() =~= default_tcp_header_bytes());
        r
    }
}

impl Fixed for TcpHeader {
    open spec fn spec_size() -> nat {
        20
    }

    closed spec fn spec_bytes(&self) -> Seq<u8> {
        be16_bytes(self.src_port) + be16_bytes(self.dst_port) + be32_bytes(self.seq_no)
            + be32_bytes(self.ack_no) + seq![self.offset_to_ns, self.flags] + be16_bytes(
            self.window,
        ) + be16_bytes(self.checksum) + be16_bytes(self.urgent_pointer)
    }

    fn size() -> (r: usize) {
        20
    }

    fn to_bytes(&self) -> (r: Vec<u8>) {
        let a = u16_to_be(self.src_port);
        let b = u16_to_be(self.dst_port);
        let c = u32_to_be(self.seq_no);
        let d = u32_to_be(self.ack_no);
        let e = u16_to_be(self.window);
        let f = u16_to_be(self.checksum);
        let g = u16_to_be(self.urgent_pointer);
        let v = vec![
            a[0], a[1], b[0], b[1], c[0], c[1], c[2], c[3], d[0], d[1], d[2], d[3],
            self.offset_to_ns, self.flags, e[0], e[1], f[0], f[1], g[0], g[1],
        ];
        assert(v@ =~= self.spec_bytes());
        v
    }

    proof fn lemma_bytes_len(&self) {
    }
}

impl Header for TcpHeader {

}

/// Congestion window reduced flag.
pub const CWR: u8 = 0b1000_0000;

/// ECN echo flag.
pub const ECE: u8 = 0b0100_0000;

/// Urgent pointer significant flag.
pub const URG: u8 = 0b0010_0000;

/// Acknowledgment significant flag.
pub const ACK: u8 = 0b0001_0000;

/// Push flag.
pub const PSH: u8 = 0b0000_1000;

/// Reset the connection flag.
pub const RST: u8 = 0b0000_0100;

/// Synchronize sequence numbers flag.
pub const SYN: u8 = 0b0000_0010;

/// No more data from sender flag.
pub const FIN: u8 = 0b0000_0001;

/// TCP packet
#[derive(Debug)]
pub struct Tcp<E: IpPacket> {
    envelope: E,
    offset: usize,
}

impl<E: IpPacket> Tcp<E> {
    /// The header octet at `i`.
    pub open spec fn spec_byte(&self, i: int) -> u8 {
        self.spec_mbuf().view()[self.spec_offset() + i]
    }

    pub open spec fn spec_src_port(&self) -> u16 {
        be16(self.spec_mbuf().view(), self.spec_offset() as int)
    }

    pub open spec fn spec_dst_port(&self) -> u16 {
        be16(self.spec_mbuf().view(), self.spec_offset() + 2int)
    }

    pub open spec fn spec_seq_no(&self) -> u32 {
        be32(self.spec_mbuf().view(), self.spec_offset() + 4int)
    }

    pub open spec fn spec_ack_no(&self) -> u32 {
        be32(self.spec_mbuf().view(), self.spec_offset() + 8int)
    }

    pub open spec fn spec_offset_to_ns(&self) -> u8 {
        self.spec_byte(12)
    }

    pub open spec fn spec_flags(&self) -> u8 {
        self.spec_byte(13)
    }

    pub open spec fn spec_window(&self) -> u16 {
        be16(self.spec_mbuf().view(), self.spec_offset() + 14int)
    }

    pub open spec fn spec_checksum(&self) -> u16 {
        be16(self.spec_mbuf().view(), self.spec_offset() + 16int)
    }

    pub open spec fn spec_urgent_pointer(&self) -> u16 {
        be16(self.spec_mbuf().view(), self.spec_offset() + 18int)
    }

    pub open spec fn spec_data_offset(&self) -> u8 {
        (self.spec_offset_to_ns() & 0xf0) >> 4
    }

    pub open spec fn spec_ns(&self) -> bool {
        self.spec_offset_to_ns() & 1 != 0
    }

    /// Whether the flag of mask `m` is set.
    pub open spec fn spec_flag(&self, m: u8) -> bool {
        self.spec_flags() & m != 0
    }

    /// The segment, header and payload, with the checksum field taken as zero.
    pub open spec fn spec_zeroed_segment(&self) -> Seq<u8> {
        splice(self.spec_mbuf().view(), self.spec_offset() + 16, seq![0u8, 0]).skip(
            self.spec_offset() as int,
        )
    }

    fn read_u8(&self, i: usize) -> (r: u8)
        requires
            self.inv(),
            i < 20,
        ensures
            r == self.spec_byte(i as int),
    {
        proof {
            self.lemma_inv();
        }
        self.envelope.mbuf().read_u8(self.offset + i)
    }

    fn read_be16(&self, i: usize) -> (r: u16)
        requires
            self.inv(),
            i + 2 <= 20,
        ensures
            r == be16(self.spec_mbuf().view(), self.spec_offset() + i),
    {
        proof {
            self.lemma_inv();
        }
        self.envelope.mbuf().read_be16(self.offset + i)
    }

    fn read_be32(&self, i: usize) -> (r: u32)
        requires
            self.inv(),
            i + 4 <= 20,
        ensures
            r == be32(self.spec_mbuf().view(), self.spec_offset() + i),
    {
        proof {
            self.lemma_inv();
        }
        self.envelope.mbuf().read_be32(self.offset + i)
    }

    /// Writes `bytes` into the header at `i`.
    fn write_header(&mut self, i: usize, bytes: &[u8])
        requires
            old(self).inv(),
            i + bytes@.len() <= 20,
        ensures
            forall|v: Seq<u8>| #[trigger] final(self).spec_envelope().spec_cascade_view(v) == old(self).spec_envelope().spec_cascade_view(v),
            final(self).inv(),
            final(self).spec_mbuf().view() == splice(
                old(self).spec_mbuf().view(),
                (old(self).spec_offset() + i) as nat,
                bytes@,
            ),
            final(self).spec_offset() == old(self).spec_offset(),
            final(self).spec_envelope().spec_src() == old(self).spec_envelope().spec_src(),
            final(self).spec_envelope().spec_dst() == old(self).spec_envelope().spec_dst(),
            forall|l: u16, p: ProtocolNumber| #[trigger] final(self).spec_envelope().spec_pseudo_header(l, p)
                == old(self).spec_envelope().spec_pseudo_header(l, p),
            final(self).spec_mbuf().spec_headroom() == old(self).spec_mbuf().spec_headroom(),
            final(self).spec_mbuf().spec_tailroom() == old(self).spec_mbuf().spec_tailroom(),
    {
        proof {
            self.lemma_inv();
            self.envelope.lemma_inv();
        }
        let pos = self.offset + i;
        self.envelope.write_payload(pos, bytes);
    }

    fn set_u16(&mut self, i: usize, v: u16)
        requires
            old(self).inv(),
            i + 2 <= 20,
        ensures
            forall|v: Seq<u8>| #[trigger] final(self).spec_envelope().spec_cascade_view(v) == old(self).spec_envelope().spec_cascade_view(v),
            final(self).inv(),
            final(self).spec_mbuf().view() == splice(
                old(self).spec_mbuf().view(),
                (old(self).spec_offset() + i) as nat,
                be16_bytes(v),
            ),
            be16(final(self).spec_mbuf().view(), final(self).spec_offset() + i) == v,
            final(self).spec_offset() == old(self).spec_offset(),
            final(self).spec_envelope().spec_src() == old(self).spec_envelope().spec_src(),
            final(self).spec_envelope().spec_dst() == old(self).spec_envelope().spec_dst(),
            forall|l: u16, p: ProtocolNumber| #[trigger] final(self).spec_envelope().spec_pseudo_header(l, p)
                == old(self).spec_envelope().spec_pseudo_header(l, p),
            final(self).spec_mbuf().spec_headroom() == old(self).spec_mbuf().spec_headroom(),
            final(self).spec_mbuf().spec_tailroom() == old(self).spec_mbuf().spec_tailroom(),
    {
        let b = u16_to_be(v);
        self.write_header(i, b.as_slice());
        proof {
            crate::packets::mbuf::lemma_be16_roundtrip(
                old(self).spec_mbuf().view(),
                (old(self).spec_offset() + i) as nat,
                v,
            );
        }
    }

    fn set_u32(&mut self, i: usize, v: u32)
        requires
            old(self).inv(),
            i + 4 <= 20,
        ensures
            final(self).inv(),
            final(self).spec_mbuf().view() == splice(
                old(self).spec_mbuf().view(),
                (old(self).spec_offset() + i) as nat,
                be32_bytes(v),
            ),
            be32(final(self).spec_mbuf().view(), final(self).spec_offset() + i) == v,
            final(self).spec_offset() == old(self).spec_offset(),
            final(self).spec_mbuf().spec_headroom() == old(self).spec_mbuf().spec_headroom(),
            final(self).spec_mbuf().spec_tailroom() == old(self).spec_mbuf().spec_tailroom(),
    {
        let b = u32_to_be(v);
        self.write_header(i, b.as_slice());
        proof {
            crate::packets::mbuf::lemma_be32_roundtrip(
                old(self).spec_mbuf().view(),
                (old(self).spec_offset() + i) as nat,
                v,
            );
        }
    }

    fn set_u8(&mut self, i: usize, v: u8)
        requires
            old(self).inv(),
            i < 20,
        ensures
            final(self).inv(),
            final(self).spec_mbuf().view() == splice(
                old(self).spec_mbuf().view(),
                (old(self).spec_offset() + i) as nat,
                seq![v],
            ),
            final(self).spec_byte(i as int) == v,
            final(self).spec_offset() == old(self).spec_offset(),
    {
        let b = [v];
        self.write_header(i, b.as_slice());
    }

    #[inline]
    pub fn src_port(&self) -> (r: u16)
        requires
            self.inv(),
        ensures
            r == self.spec_src_port(),
    {
        self.read_be16(0)
    }

    #[inline]
    pub fn set_src_port(&mut self, src_port: u16)
        requires
            old(self).inv(),
        ensures
            final(self).inv(),
            final(self).spec_mbuf().view() == splice(
                old(self).spec_mbuf().view(),
                old(self).spec_offset() + 0,
                be16_bytes(src_port),
            ),
            final(self).spec_src_port() == src_port,
            final(self).spec_offset() == old(self).spec_offset(),
            final(self).spec_mbuf().spec_headroom() == old(self).spec_mbuf().spec_headroom(),
            final(self).spec_mbuf().spec_tailroom() == old(self).spec_mbuf().spec_tailroom(),
    {
        self.set_u16(0, src_port);
    }

    #[inline]
    pub fn dst_port(&self) -> (r: u16)
        requires
            self.inv(),
        ensures
            r == self.spec_dst_port(),
    {
        self.read_be16(2)
    }

    #[inline]
    pub fn set_dst_port(&mut self, dst_port: u16)
        requires
            old(self).inv(),
        ensures
            final(self).inv(),
            final(self).spec_mbuf().view() == splice(
                old(self).spec_mbuf().view(),
                old(self).spec_offset() + 2,
                be16_bytes(dst_port),
            ),
            final(self).spec_dst_port() == dst_port,
            final(self).spec_offset() == old(self).spec_offset(),
            final(self).spec_mbuf().spec_headroom() == old(self).spec_mbuf().spec_headroom(),
            final(self).spec_mbuf().spec_tailroom() == old(self).spec_mbuf().spec_tailroom(),
    {
        self.set_u16(2, dst_port);
    }

    #[inline]
    pub fn seq_no(&self) -> (r: u32)
        requires
            self.inv(),
        ensures
            r == self.spec_seq_no(),
    {
        self.read_be32(4)
    }

    #[inline]
    pub fn set_seq_no(&mut self, seq_no: u32)
        requires
            old(self).inv(),
        ensures
            final(self).inv(),
            final(self).spec_mbuf().view() == splice(
                old(self).spec_mbuf().view(),
                old(self).spec_offset() + 4,
                be32_bytes(seq_no),
            ),
            final(self).spec_seq_no() == seq_no,
            final(self).spec_offset() == old(self).spec_offset(),
            final(self).spec_mbuf().spec_headroom() == old(self).spec_mbuf().spec_headroom(),
            final(self).spec_mbuf().spec_tailroom() == old(self).spec_mbuf().spec_tailroom(),
    {
        self.set_u32(4, seq_no);
    }

    #[inline]
    pub fn ack_no(&self) -> (r: u32)
        requires
            self.inv(),
        ensures
            r == self.spec_ack_no(),
    {
        self.read_be32(8)
    }

    #[inline]
    pub fn set_ack_no(&mut self, ack_no: u32)
        requires
            old(self).inv(),
        ensures
            final(self).inv(),
            final(self).spec_mbuf().view() == splice(
                old(self).spec_mbuf().view(),
                old(self).spec_offset() + 8,
                be32_bytes(ack_no),
            ),
            final(self).spec_ack_no() == ack_no,
            final(self).spec_offset() == old(self).spec_offset(),
            final(self).spec_mbuf().spec_headroom() == old(self).spec_mbuf().spec_headroom(),
            final(self).spec_mbuf().spec_tailroom() == old(self).spec_mbuf().spec_tailroom(),
    {
        self.set_u32(8, ack_no);
    }

    #[inline]
    pub fn data_offset(&self) -> (r: u8)
        requires
            self.inv(),
        ensures
            r == self.spec_data_offset(),
    {
        (self.read_u8(12) & 0xf0) >> 4
    }

    #[inline]
    pub fn ns(&self) -> (r: bool)
        requires
            self.inv(),
        ensures
            r == self.spec_ns(),
    {
        (self.read_u8(12) & 0x01) != 0
    }

    #[inline]
    pub fn set_ns(&mut self)
        requires
            old(self).inv(),
        ensures
            final(self).inv(),
            final(self).spec_mbuf().view() == splice(
                old(self).spec_mbuf().view(),
                old(self).spec_offset() + 12,
                seq![old(self).spec_offset_to_ns() | 1],
            ),
            final(self).spec_ns(),
            final(self).spec_data_offset() == old(self).spec_data_offset(),
            final(self).spec_offset() == old(self).spec_offset(),
    {
        let b = self.read_u8(12);
        self.set_u8(12, b | 0x01);
        assert((b | 1) & 1 != 0 && ((b | 1) & 0xf0) >> 4 == (b & 0xf0) >> 4) by (bit_vector);
    }

    #[inline]
    pub fn unset_ns(&mut self)
        requires
            old(self).inv(),
        ensures
            final(self).inv(),
            final(self).spec_mbuf().view() == splice(
                old(self).spec_mbuf().view(),
                old(self).spec_offset() + 12,
                seq![old(self).spec_offset_to_ns() & 0xfe],
            ),
            !final(self).spec_ns(),
            final(self).spec_data_offset() == old(self).spec_data_offset(),
            final(self).spec_offset() == old(self).spec_offset(),
    {
        let b = self.read_u8(12);
        self.set_u8(12, b & 0xfe);
        assert((b & 0xfe) & 1 == 0 && ((b & 0xfe) & 0xf0) >> 4 == (b & 0xf0) >> 4) by (bit_vector);
    }

    /// Sets the bits of mask `m` of the flags octet to `on`.
    fn write_flag(&mut self, m: u8, on: bool)
        requires
            old(self).inv(),
        ensures
            final(self).inv(),
            final(self).spec_mbuf().view() == splice(
                old(self).spec_mbuf().view(),
                old(self).spec_offset() + 13,
                seq![if on { old(self).spec_flags() | m } else { old(self).spec_flags() & !m }],
            ),
            final(self).spec_flags() == if on { old(self).spec_flags() | m } else { old(self).spec_flags() & !m },
            final(self).spec_offset() == old(self).spec_offset(),
    {
        let b = self.read_u8(13);
        if on {
            self.set_u8(13, b | m);
        } else {
            self.set_u8(13, b & !m);
        }
    }

    #[inline]
    pub fn cwr(&self) -> (r: bool)
        requires
            self.inv(),
        ensures
            r == self.spec_flag(CWR),
    {
        (self.read_u8(13) & CWR) != 0
    }

    #[inline]
    pub fn set_cwr(&mut self)
        requires
            old(self).inv(),
        ensures
            final(self).inv(),
            final(self).spec_flags() == old(self).spec_flags() | CWR,
            final(self).spec_mbuf().view() == splice(
                old(self).spec_mbuf().view(),
                old(self).spec_offset() + 13,
                seq![old(self).spec_flags() | CWR],
            ),
            final(self).spec_offset() == old(self).spec_offset(),
    {
        self.write_flag(CWR, true);
    }

    #[inline]
    pub fn unset_cwr(&mut self)
        requires
            old(self).inv(),
        ensures
            final(self).inv(),
            final(self).spec_flags() == old(self).spec_flags() & !CWR,
            final(self).spec_mbuf().view() == splice(
                old(self).spec_mbuf().view(),
                old(self).spec_offset() + 13,
                seq![old(self).spec_flags() & !CWR],
            ),
            final(self).spec_offset() == old(self).spec_offset(),
    {
        self.write_flag(CWR, false);
    }

    #[inline]
    pub fn ece(&self) -> (r: bool)
        requires
            self.inv(),
        ensures
            r == self.spec_flag(ECE),
    {
        (self.read_u8(13) & ECE) != 0
    }

    #[inline]
    pub fn set_ece(&mut self)
        requires
            old(self).inv(),
        ensures
            final(self).inv(),
            final(self).spec_flags() == old(self).spec_flags() | ECE,
            final(self).spec_mbuf().view() == splice(
                old(self).spec_mbuf().view(),
                old(self).spec_offset() + 13,
                seq![old(self).spec_flags() | ECE],
            ),
            final(self).spec_offset() == old(self).spec_offset(),
    {
        self.write_flag(ECE, true);
    }

    #[inline]
    pub fn unset_ece(&mut self)
        requires
            old(self).inv(),
        ensures
            final(self).inv(),
            final(self).spec_flags() == old(self).spec_flags() & !ECE,
            final(self).spec_mbuf().view() == splice(
                old(self).spec_mbuf().view(),
                old(self).spec_offset() + 13,
                seq![old(self).spec_flags() & !ECE],
            ),
            final(self).spec_offset() == old(self).spec_offset(),
    {
        self.write_flag(ECE, false);
    }

    #[inline]
    pub fn urg(&self) -> (r: bool)
        requires
            self.inv(),
        ensures
            r == self.spec_flag(URG),
    {
        (self.read_u8(13) & URG) != 0
    }

    #[inline]
    pub fn set_urg(&mut self)
        requires
            old(self).inv(),
        ensures
            final(self).inv(),
            final(self).spec_flags() == old(self).spec_flags() | URG,
            final(self).spec_mbuf().view() == splice(
                old(self).spec_mbuf().view(),
                old(self).spec_offset() + 13,
                seq![old(self).spec_flags() | URG],
            ),
            final(self).spec_offset() == old(self).spec_offset(),
    {
        self.write_flag(URG, true);
    }

    #[inline]
    pub fn unset_urg(&mut self)
        requires
            old(self).inv(),
        ensures
            final(self).inv(),
            final(self).spec_flags() == old(self).spec_flags() & !URG,
            final(self).spec_mbuf().view() == splice(
                old(self).spec_mbuf().view(),
                old(self).spec_offset() + 13,
                seq![old(self).spec_flags() & !URG],
            ),
            final(self).spec_offset() == old(self).spec_offset(),
    {
        self.write_flag(URG, false);
    }

    #[inline]
    pub fn ack(&self) -> (r: bool)
        requires
            self.inv(),
        ensures
            r == self.spec_flag(ACK),
    {
        (self.read_u8(13) & ACK) != 0
    }

    #[inline]
    pub fn set_ack(&mut self)
        requires
            old(self).inv(),
        ensures
            final(self).inv(),
            final(self).spec_flags() == old(self).spec_flags() | ACK,
            final(self).spec_mbuf().view() == splice(
                old(self).spec_mbuf().view(),
                old(self).spec_offset() + 13,
                seq![old(self).spec_flags() | ACK],
            ),
            final(self).spec_offset() == old(self).spec_offset(),
    {
        self.write_flag(ACK, true);
    }

    #[inline]
    pub fn unset_ack(&mut self)
        requires
            old(self).inv(),
        ensures
            final(self).inv(),
            final(self).spec_flags() == old(self).spec_flags() & !ACK,
            final(self).spec_mbuf().view() == splice(
                old(self).spec_mbuf().view(),
                old(self).spec_offset() + 13,
                seq![old(self).spec_flags() & !ACK],
            ),
            final(self).spec_offset() == old(self).spec_offset(),
    {
        self.write_flag(ACK, false);
    }

    #[inline]
    pub fn psh(&self) -> (r: bool)
        requires
            self.inv(),
        ensures
            r == self.spec_flag(PSH),
    {
        (self.read_u8(13) & PSH) != 0
    }

    #[inline]
    pub fn set_psh(&mut self)
        requires
            old(self).inv(),
        ensures
            final(self).inv(),
            final(self).spec_flags() == old(self).spec_flags() | PSH,
            final(self).spec_mbuf().view() == splice(
                old(self).spec_mbuf().view(),
                old(self).spec_offset() + 13,
                seq![old(self).spec_flags() | PSH],
            ),
            final(self).spec_offset() == old(self).spec_offset(),
    {
        self.write_flag(PSH, true);
    }

    #[inline]
    pub fn unset_psh(&mut self)
        requires
            old(self).inv(),
        ensures
            final(self).inv(),
            final(self).spec_flags() == old(self).spec_flags() & !PSH,
            final(self).spec_mbuf().view() == splice(
                old(self).spec_mbuf().view(),
                old(self).spec_offset() + 13,
                seq![old(self).spec_flags() & !PSH],
            ),
            final(self).spec_offset() == old(self).spec_offset(),
    {
        self.write_flag(PSH, false);
    }

    #[inline]
    pub fn rst(&self) -> (r: bool)
        requires
            self.inv(),
        ensures
            r == self.spec_flag(RST),
    {
        (self.read_u8(13) & RST) != 0
    }

    #[inline]
    pub fn set_rst(&mut self)
        requires
            old(self).inv(),
        ensures
            final(self).inv(),
            final(self).spec_flags() == old(self).spec_flags() | RST,
            final(self).spec_mbuf().view() == splice(
                old(self).spec_mbuf().view(),
                old(self).spec_offset() + 13,
                seq![old(self).spec_flags() | RST],
            ),
            final(self).spec_offset() == old(self).spec_offset(),
    {
        self.write_flag(RST, true);
    }

    #[inline]
    pub fn unset_rst(&mut self)
        requires
            old(self).inv(),
        ensures
            final(self).inv(),
            final(self).spec_flags() == old(self).spec_flags() & !RST,
            final(self).spec_mbuf().view() == splice(
                old(self).spec_mbuf().view(),
                old(self).spec_offset() + 13,
                seq![old(self).spec_flags() & !RST],
            ),
            final(self).spec_offset() == old(self).spec_offset(),
    {
        self.write_flag(RST, false);
    }

    #[inline]
    pub fn syn(&self) -> (r: bool)
        requires
            self.inv(),
        ensures
            r == self.spec_flag(SYN),
    {
        (self.read_u8(13) & SYN) != 0
    }

    #[inline]
    pub fn set_syn(&mut self)
        requires
            old(self).inv(),
        ensures
            final(self).inv(),
            final(self).spec_flags() == old(self).spec_flags() | SYN,
            final(self).spec_mbuf().view() == splice(
                old(self).spec_mbuf().view(),
                old(self).spec_offset() + 13,
                seq![old(self).spec_flags() | SYN],
            ),
            final(self).spec_offset() == old(self).spec_offset(),
    {
        self.write_flag(SYN, true);
    }

    #[inline]
    pub fn unset_syn(&mut self)
        requires
            old(self).inv(),
        ensures
            final(self).inv(),
            final(self).spec_flags() == old(self).spec_flags() & !SYN,
            final(self).spec_mbuf().view() == splice(
                old(self).spec_mbuf().view(),
                old(self).spec_offset() + 13,
                seq![old(self).spec_flags() & !SYN],
            ),
            final(self).spec_offset() == old(self).spec_offset(),
    {
        self.write_flag(SYN, false);
    }

    #[inline]
    pub fn fin(&self) -> (r: bool)
        requires
            self.inv(),
        ensures
            r == self.spec_flag(FIN),
    {
        (self.read_u8(13) & FIN) != 0
    }

    #[inline]
    pub fn set_fin(&mut self)
        requires
            old(self).inv(),
        ensures
            final(self).inv(),
            final(self).spec_flags() == old(self).spec_flags() | FIN,
            final(self).spec_mbuf().view() == splice(
                old(self).spec_mbuf().view(),
                old(self).spec_offset() + 13,
                seq![old(self).spec_flags() | FIN],
            ),
            final(self).spec_offset() == old(self).spec_offset(),
    {
        self.write_flag(FIN, true);
    }

    #[inline]
    pub fn unset_fin(&mut self)
        requires
            old(self).inv(),
        ensures
            final(self).inv(),
            final(self).spec_flags() == old(self).spec_flags() & !FIN,
            final(self).spec_mbuf().view() == splice(
                old(self).spec_mbuf().view(),
                old(self).spec_offset() + 13,
                seq![old(self).spec_flags() & !FIN],
            ),
            final(self).spec_offset() == old(self).spec_offset(),
    {
        self.write_flag(FIN, false);
    }

    #[inline]
    pub fn window(&self) -> (r: u16)
        requires
            self.inv(),
        ensures
            r == self.spec_window(),
    {
        self.read_be16(14)
    }

    #[inline]
    pub fn set_window(&mut self, window: u16)
        requires
            old(self).inv(),
        ensures
            final(self).inv(),
            final(self).spec_mbuf().view() == splice(
                old(self).spec_mbuf().view(),
                old(self).spec_offset() + 14,
                be16_bytes(window),
            ),
            final(self).spec_window() == window,
            final(self).spec_offset() == old(self).spec_offset(),
            final(self).spec_mbuf().spec_headroom() == old(self).spec_mbuf().spec_headroom(),
            final(self).spec_mbuf().spec_tailroom() == old(self).spec_mbuf().spec_tailroom(),
    {
        self.set_u16(14, window);
    }

    #[inline]
    pub fn checksum(&self) -> (r: u16)
        requires
            self.inv(),
        ensures
            r == self.spec_checksum(),
    {
        self.read_be16(16)
    }

    #[inline]
    pub fn urgent_pointer(&self) -> (r: u16)
        requires
            self.inv(),
        ensures
            r == self.spec_urgent_pointer(),
    {
        self.read_be16(18)
    }

    #[inline]
    pub fn set_urgent_pointer(&mut self, urgent_pointer: u16)
        requires
            old(self).inv(),
        ensures
            final(self).inv(),
            final(self).spec_mbuf().view() == splice(
                old(self).spec_mbuf().view(),
                old(self).spec_offset() + 18,
                be16_bytes(urgent_pointer),
            ),
            final(self).spec_urgent_pointer() == urgent_pointer,
            final(self).spec_offset() == old(self).spec_offset(),
            final(self).spec_mbuf().spec_headroom() == old(self).spec_mbuf().spec_headroom(),
            final(self).spec_mbuf().spec_tailroom() == old(self).spec_mbuf().spec_tailroom(),
    {
        self.set_u16(18, urgent_pointer);
    }

    /// The flow of the segment: addresses, ports and protocol.
    #[inline]
    pub fn flow(&self) -> (r: Flow)
        requires
            self.inv(),
        ensures
            r.spec_src_ip() == self.spec_envelope().spec_src(),
            r.spec_dst_ip() == self.spec_envelope().spec_dst(),
            r.spec_src_port() == self.spec_src_port(),
            r.spec_dst_port() == self.spec_dst_port(),
            r.spec_protocol().0 == 0x06,
    {
        proof {
            self.lemma_inv();
            self.envelope.lemma_inv();
        }
        Flow::new(
            self.envelope.src(),
            self.envelope.dst(),
            self.src_port(),
            self.dst_port(),
            ProtocolNumbers::Tcp(),
        )
    }

    /// Sets the layer-3 source address and recomputes the checksum
    #[inline]
    pub fn set_src_ip(&mut self, src_ip: IpAddr) -> (r: Result<(), PacketError>)
        requires
            old(self).inv(),
        ensures
            final(self).inv(),
            final(self).spec_offset() == old(self).spec_offset(),
            (r is Ok) == (is_v6(src_ip) == is_v6(old(self).spec_envelope().spec_src())),
            r is Ok ==> {
                &&& final(self).spec_envelope().spec_src() == src_ip
                &&& final(self).spec_envelope().spec_dst() == old(self).spec_envelope().spec_dst()
                &&& final(self).spec_checksum() == inc_spec(
                    old(self).spec_checksum(),
                    ip_words(old(self).spec_envelope().spec_src()),
                    ip_words(src_ip),
                )
                &&& final(self).spec_mbuf().view().skip(final(self).spec_offset() as int) == splice(
                    old(self).spec_mbuf().view(),
                    old(self).spec_offset() + 16,
                    be16_bytes(final(self).spec_checksum()),
                ).skip(old(self).spec_offset() as int)
            },
            r is Err ==> (r matches Err(PacketError::IpAddrMismatch(_)) && final(self).spec_mbuf().view()
                == old(self).spec_mbuf().view()),
    {
        proof {
            self.lemma_inv();
            self.envelope.lemma_inv();
            self.envelope.lemma_addr_version();
        }
        let old_ip = self.envelope.src();
        let checksum = match compute_with_ipaddr(self.checksum(), &old_ip, &src_ip) {
            Ok(c) => c,
            Err(e) => {
                return Err(PacketError::IpAddrMismatch(e));
            },
        };
        let ghost mid = self.spec_mbuf().view();
        match self.envelope.set_src(src_ip) {
            Ok(_) => {},
            Err(e) => {
                return Err(e);
            },
        }
        self.set_u16(16, checksum);
        proof {
            let a = old(self).spec_mbuf().view();
            let b = self.spec_mbuf().view();
            assert(b.skip(self.offset as int) =~= splice(a, (self.offset + 16) as nat, be16_bytes(checksum)).skip(
                self.offset as int,
            ));
        }
        Ok(())
    }

    /// Sets the layer-3 destination address and recomputes the checksum
    #[inline]
    pub fn set_dst_ip(&mut self, dst_ip: IpAddr) -> (r: Result<(), PacketError>)
        requires
            old(self).inv(),
        ensures
            final(self).inv(),
            final(self).spec_offset() == old(self).spec_offset(),
            (r is Ok) == (is_v6(dst_ip) == is_v6(old(self).spec_envelope().spec_dst())),
            r is Ok ==> {
                &&& final(self).spec_envelope().spec_dst() == old(self).spec_envelope().spec_dst_after(dst_ip)
                &&& final(self).spec_envelope().spec_src() == old(self).spec_envelope().spec_src()
                &&& final(self).spec_checksum() == inc_spec(
                    old(self).spec_checksum(),
                    ip_words(old(self).spec_envelope().spec_dst()),
                    ip_words(dst_ip),
                )
                &&& final(self).spec_mbuf().view().skip(final(self).spec_offset() as int) == splice(
                    old(self).spec_mbuf().view(),
                    old(self).spec_offset() + 16,
                    be16_bytes(final(self).spec_checksum()),
                ).skip(old(self).spec_offset() as int)
            },
            r is Err ==> (r matches Err(PacketError::IpAddrMismatch(_)) && final(self).spec_mbuf().view()
                == old(self).spec_mbuf().view()),
    {
        proof {
            self.lemma_inv();
            self.envelope.lemma_inv();
            self.envelope.lemma_addr_version();
        }
        let old_ip = self.envelope.dst();
        let checksum = match compute_with_ipaddr(self.checksum(), &old_ip, &dst_ip) {
            Ok(c) => c,
            Err(e) => {
                return Err(PacketError::IpAddrMismatch(e));
            },
        };
        match self.envelope.set_dst(dst_ip) {
            Ok(_) => {},
            Err(e) => {
                return Err(e);
            },
        }
        self.set_u16(16, checksum);
        proof {
            let a = old(self).spec_mbuf().view();
            let b = self.spec_mbuf().view();
            assert(b.skip(self.offset as int) =~= splice(a, (self.offset + 16) as nat, be16_bytes(checksum)).skip(
                self.offset as int,
            ));
        }
        Ok(())
    }

    /// The checksum of the segment as it stands, with the checksum field
    /// taken as zero, under the envelope's pseudo header.
    pub open spec fn spec_computed_checksum(&self) -> u16 {
        checksum_spec(
            fold16(
                pseudo_header_raw_sum(
                    self.spec_envelope().spec_pseudo_header(
                        (self.spec_mbuf().view().len() - self.spec_offset()) as u16,
                        ProtocolNumber(0x06),
                    ),
                ),
            ) as u16,
            self.spec_zeroed_segment(),
        )
    }

    /// The checksum of the segment in the bytes `v`, with the checksum
    /// field taken as zero, under the envelope's pseudo header.
    pub closed spec fn checksum_of(&self, v: Seq<u8>) -> u16 {
        checksum_spec(
            fold16(
                pseudo_header_raw_sum(
                    self.envelope.spec_pseudo_header(
                        (v.len() - self.offset) as u16,
                        ProtocolNumber(0x06),
                    ),
                ),
            ) as u16,
            splice(v, (self.offset + 16) as nat, seq![0u8, 0]).skip(self.offset as int),
        )
    }

    /// Recomputes the checksum over the pseudo header and the segment.
    fn compute_checksum(&mut self)
        requires
            old(self).inv(),
        ensures
            forall|v: Seq<u8>| #[trigger] final(self).spec_envelope().spec_cascade_view(v) == old(self).spec_envelope().spec_cascade_view(v),
            final(self).inv(),
            final(self).spec_offset() == old(self).spec_offset(),
            final(self).spec_mbuf().view() == splice(
                old(self).spec_mbuf().view(),
                old(self).spec_offset() + 16,
                be16_bytes(old(self).spec_computed_checksum()),
            ),
            final(self).spec_mbuf().spec_headroom() == old(self).spec_mbuf().spec_headroom(),
            final(self).spec_mbuf().spec_tailroom() == old(self).spec_mbuf().spec_tailroom(),
    {
        proof {
            self.lemma_inv();
        }
        self.set_u16(16, 0);
        proof {
            self.lemma_inv();
            assert(be16_bytes(0u16) =~= seq![0u8, 0]);
        }
        let len = self.len();
        let data = self.envelope.mbuf().read_bytes(self.offset, len);
        let ph = self.envelope.pseudo_header(len as u16, ProtocolNumbers::Tcp());
        let sum = ph.sum();
        proof {
            crate::packets::checksum::lemma_fold16(
                pseudo_header_raw_sum(
                    old(self).spec_envelope().spec_pseudo_header(len as u16, ProtocolNumber(0x06)),
                ),
            );
            assert(data@ =~= old(self).spec_zeroed_segment());
        }
        let c = compute(sum, data.as_slice());
        self.set_u16(16, c);
        proof {
            assert(self.spec_mbuf().view() =~= splice(
                old(self).spec_mbuf().view(),
                old(self).spec_offset() + 16,
                be16_bytes(c),
            ));
        }
    }

    /// The fields of the header, as text.
    pub fn to_string(&self) -> (r: String)
        requires
            self.inv(),
        ensures
            r@ == "src_port: "@ + dec_text(self.spec_src_port() as nat) + ", dst_port: "@
                + dec_text(self.spec_dst_port() as nat) + ", seq_no: "@ + dec_text(
                self.spec_seq_no() as nat,
            ) + ", ack_no: "@ + dec_text(self.spec_ack_no() as nat) + ", data_offset: "@
                + dec_text(self.spec_data_offset() as nat) + ", window: "@ + dec_text(
                self.spec_window() as nat,
            ) + ", checksum "@ + dec_text(self.spec_checksum() as nat) + ", urgent: "@
                + dec_text(self.spec_urgent_pointer() as nat) + ", NS: "@ + bool_text(
                self.spec_ns(),
            ) + ", CWR: "@ + bool_text(self.spec_flag(CWR)) + ", ECE: "@ + bool_text(
                self.spec_flag(ECE),
            ) + ", URG: "@ + bool_text(self.spec_flag(URG)) + ", ACK: "@ + bool_text(
                self.spec_flag(ACK),
            ) + ", PSH: "@ + bool_text(self.spec_flag(PSH)) + ", RST: "@ + bool_text(
                self.spec_flag(RST),
            ) + ", SYN: "@ + bool_text(self.spec_flag(SYN)) + ", FIN: "@ + bool_text(
                self.spec_flag(FIN),
            ),
    {
        let mut s = String::from_str("src_port: ");
        push_dec(&mut s, self.src_port() as u64);
        push_str(&mut s, ", dst_port: ");
        push_dec(&mut s, self.dst_port() as u64);
        push_str(&mut s, ", seq_no: ");
        push_dec(&mut s, self.seq_no() as u64);
        push_str(&mut s, ", ack_no: ");
        push_dec(&mut s, self.ack_no() as u64);
        push_str(&mut s, ", data_offset: ");
        push_dec(&mut s, self.data_offset() as u64);
        push_str(&mut s, ", window: ");
        push_dec(&mut s, self.window() as u64);
        push_str(&mut s, ", checksum ");
        push_dec(&mut s, self.checksum() as u64);
        push_str(&mut s, ", urgent: ");
        push_dec(&mut s, self.urgent_pointer() as u64);
        push_str(&mut s, ", NS: ");
        push_bool(&mut s, self.ns());
        push_str(&mut s, ", CWR: ");
        push_bool(&mut s, self.cwr());
        push_str(&mut s, ", ECE: ");
        push_bool(&mut s, self.ece());
        push_str(&mut s, ", URG: ");
        push_bool(&mut s, self.urg());
        push_str(&mut s, ", ACK: ");
        push_bool(&mut s, self.ack());
        push_str(&mut s, ", PSH: ");
        push_bool(&mut s, self.psh());
        push_str(&mut s, ", RST: ");
        push_bool(&mut s, self.rst());
        push_str(&mut s, ", SYN: ");
        push_bool(&mut s, self.syn());
        push_str(&mut s, ", FIN: ");
        push_bool(&mut s, self.fin());
        proof {
            reveal_strlit("src_port: ");
        }
        s
    }
}

impl<E: IpPacket> Tcp<E> {
    /// A TCP segment's cascade writes the checksum computed over the
    /// segment into its checksum field, then runs the envelope's cascade;
    /// over the bytes the buffer holds, that checksum is the one that
    /// `spec_computed_checksum` names.
    pub proof fn lemma_cascade_view(&self)
        ensures
            forall|v: Seq<u8>| #[trigger] self.spec_cascade_view(v) == self.spec_envelope().spec_cascade_view(
                splice(v, self.spec_offset() + 16, be16_bytes(self.checksum_of(v))),
            ),
            self.checksum_of(self.spec_mbuf().view()) == self.spec_computed_checksum(),
    {
    }
}

impl<E: IpPacket> Packet for Tcp<E> {
    /// The checksum computed over the segment in `v` written into it, then
    /// the envelope's cascade.
    closed spec fn spec_cascade_view(&self, v: Seq<u8>) -> Seq<u8> {
        self.envelope.spec_cascade_view(
            splice(v, (self.offset + 16) as nat, be16_bytes(self.checksum_of(v))),
        )
    }

    closed spec fn spec_mbuf(&self) -> MBuf {
        self.envelope.spec_mbuf()
    }

    closed spec fn spec_offset(&self) -> nat {
        self.offset as nat
    }

    open spec fn spec_header_len(&self) -> nat {
        20
    }

    closed spec fn inv(&self) -> bool {
        &&& self.envelope.inv()
        &&& self.offset == self.envelope.spec_offset() + self.envelope.spec_header_len()
        &&& self.offset + 20 <= self.envelope.spec_mbuf().view().len()
    }

    proof fn lemma_inv(&self) {
        self.envelope.lemma_inv();
        assert(self.spec_header_len() == 20);
        assert(self.spec_offset() + self.spec_header_len() <= self.spec_mbuf().view().len());
    }

    fn mbuf(&self) -> (r: &MBuf) {
        self.envelope.mbuf()
    }

    fn offset(&self) -> (r: usize) {
        self.offset
    }

    fn header_len(&self) -> (r: usize) {
        20
    }

    fn write_bytes(&mut self, pos: usize, bytes: &[u8]) {
        proof {
            self.envelope.lemma_inv();
        }
        self.envelope.write_bytes(pos, bytes);
    }

    fn resize(&mut self, pos: usize, len: isize) -> (r: Result<(), BufferError>) {
        let ghost before = self.spec_mbuf().view();
        proof {
            self.envelope.lemma_inv();
        }
        let r = self.envelope.resize(pos, len);
        proof {
            if r is Ok && pos <= before.len() {
                crate::packets::lemma_resize_len(before, pos as nat, len as int);
            }
        }
        r
    }

    /// Recomputes the checksum, then cascades to the envelope.
    fn cascade(&mut self)
        ensures
            final(self).spec_checksum() == old(self).spec_computed_checksum(),
            final(self).spec_mbuf().view().skip(old(self).spec_offset() as int) == crate::packets::checksum::replace_words(
                old(self).spec_zeroed_segment(),
                16,
                seq![old(self).spec_computed_checksum()],
            ),
    {
        proof {
            self.lemma_inv();
        }
        self.compute_checksum();
        let ghost mid = self.spec_mbuf().view();
        proof {
            let v0 = old(self).spec_mbuf().view();
            assert(old(self).checksum_of(v0) == old(self).spec_computed_checksum());
            assert(old(self).spec_cascade_view(v0) == old(self).envelope.spec_cascade_view(mid));
            assert(self.spec_envelope().spec_cascade_view(mid) == old(self).spec_envelope().spec_cascade_view(mid));
            self.envelope.lemma_inv();
            crate::packets::mbuf::lemma_be16_roundtrip(
                old(self).spec_mbuf().view(),
                old(self).spec_offset() + 16,
                old(self).spec_computed_checksum(),
            );
        }
        self.envelope.cascade();
        proof {
            let f = self.spec_mbuf().view();
            let c = old(self).spec_computed_checksum();
            assert(forall|i: int| self.offset <= i < f.len() ==> f[i] == mid[i]);
            assert(self.spec_checksum() == be16(mid, self.offset + 16));
            let z = old(self).spec_zeroed_segment();
            let rw = crate::packets::checksum::replace_words(z, 16, seq![c]);
            assert forall|i: int| 0 <= i < rw.len() implies #[trigger] f.skip(self.offset as int)[i] == rw[i] by {
                assert(f.skip(self.offset as int)[i] == mid[self.offset + i]);
                if 16 <= i < 18 {
                    assert((i - 16) % 2 == 0 <==> i == 16);
                }
            }
            assert(f.skip(self.offset as int) =~= rw);
        }
    }

    fn into_mbuf(self) -> (r: MBuf) {
        proof {
            self.envelope.lemma_inv();
        }
        self.envelope.into_mbuf()
    }
}

impl<E: IpPacket> ParsedPacket for Tcp<E> {
    type Envelope = E;

    open spec fn spec_parses(envelope: E) -> bool {
        read_spec(
            envelope.spec_mbuf().view().len(),
            envelope.spec_offset() + envelope.spec_header_len(),
            20,
        ) is Ok
    }

    open spec fn spec_default_header(envelope: E) -> Seq<u8> {
        default_tcp_header_bytes()
    }


    closed spec fn spec_envelope(&self) -> E {
        self.envelope
    }

    proof fn lemma_envelope(&self) {
    }

    fn envelope(&self) -> (r: &E) {
        &self.envelope
    }

    fn deparse(self) -> (r: E) {
        self.envelope
    }

    fn do_parse(envelope: E) -> (r: Result<Self, PacketError>)
        ensures
            match read_spec(
                envelope.spec_mbuf().view().len(),
                envelope.spec_offset() + envelope.spec_header_len(),
                20,
            ) {
                Ok(_) => r matches Ok(p) && p.spec_offset() == envelope.spec_offset()
                    + envelope.spec_header_len(),
                Err(e) => r matches Err(PacketError::Buffer(e2)) && e2 == e,
            },
    {
        proof {
            envelope.lemma_inv();
        }
        let offset = envelope.payload_offset();
        match read_item::<TcpHeader>(envelope.mbuf(), offset) {
            Ok(_) => Ok(Tcp { envelope, offset }),
            Err(e) => Err(PacketError::Buffer(e)),
        }
    }

    fn do_push(envelope: E) -> (r: Result<Self, PacketError>)
        ensures
            ({
                let d = envelope.spec_mbuf().view();
                let po = envelope.spec_offset() + envelope.spec_header_len();
                &&& !resize_fails(envelope.spec_mbuf(), po, 20) ==> (r matches Ok(p)
                    && p.spec_mbuf().view() == splice(resize_spec(d, po, 20), po, default_tcp_header_bytes())
                    && p.spec_envelope().spec_src() == envelope.spec_src()
                    && p.spec_envelope().spec_dst() == envelope.spec_dst())
                &&& resize_fails(envelope.spec_mbuf(), po, 20) ==> r matches Err(
                    PacketError::Buffer(BufferError::NotResized),
                )
            }),
    {
        let mut envelope = envelope;
        proof {
            envelope.lemma_inv();
        }
        let offset = envelope.payload_offset();
        let ghost before = envelope.spec_mbuf().view();
        match envelope.resize_payload(offset, 20) {
            Ok(_) => {},
            Err(e) => {
                return Err(PacketError::Buffer(e));
            },
        }
        proof {
            crate::packets::lemma_resize_len(before, offset as nat, 20);
        }
        let header = TcpHeader::default();
        let bytes = header.to_bytes();
        envelope.write_payload(offset, bytes.as_slice());
        Ok(Tcp { envelope, offset })
    }

    fn remove(self) -> (r: Result<E, PacketError>)
        ensures
            r matches Ok(e) && e.spec_mbuf().view() == dealloc_spec(
                self.spec_mbuf().view(),
                self.spec_offset(),
                20,
            ) && e.spec_src() == self.spec_envelope().spec_src() && e.spec_dst()
                == self.spec_envelope().spec_dst(),
    {
        proof {
            self.lemma_inv();
        }
        let mut envelope = self.envelope;
        let offset = self.offset;
        proof {
            envelope.lemma_inv();
        }
        match envelope.resize_payload(offset, -20) {
            Ok(_) => Ok(envelope),
            Err(e) => Err(PacketError::Buffer(e)),
        }
    }
}

} // verus!
