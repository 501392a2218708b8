//! The fields of generated packets and the values they are fixed to.
//!
//! A generator fixes each field that the map names to the value given
//! there and draws every other field at random.
use crate::packets::ethernet::{EtherTypes, Ethernet, MacAddr};
use crate::packets::ip::v6::{Ipv6, FLOW};
use crate::packets::ip::{Ipv6Addr, ProtocolNumbers};
use crate::packets::mbuf::{be16, MBUF_BUF_LEN, MBUF_HEADROOM};
use crate::packets::raw::RawPacket;
use crate::packets::tcp::{Tcp, ACK, CWR, ECE, FIN, PSH, RST, SYN, URG};
use crate::packets::{push, Packet, ParsedPacket};
use vstd::prelude::*;

verus! {

/// Enumeration of settable packet fields
#[allow(non_camel_case_types)]
#[derive(Debug, Copy, Clone, Eq, Hash, PartialEq, Structural)]
pub enum field {
    // ethernet
    eth_src,
    eth_dst,
    // ipv6
    ipv6_src,
    ipv6_dst,
    ipv6_dscp,
    ipv6_ecn,
    ipv6_flow_label,
    ipv6_hop_limit,
    // tcp
    tcp_src_port,
    tcp_dst_port,
    tcp_seq_no,
    tcp_ack_no,
    tcp_window,
    tcp_urgent_pointer,
    tcp_ns,
    tcp_cwr,
    tcp_ece,
    tcp_urg,
    tcp_ack,
    tcp_psh,
    tcp_rst,
    tcp_syn,
    tcp_fin,
}

/// A value a field can be fixed to.
#[derive(Debug, Copy, Clone)]
pub enum FieldValue {
    Bool(bool),
    U8(u8),
    U16(u16),
    U32(u32),
    Mac(MacAddr),
    Ipv6(Ipv6Addr),
}

/// The value that the last entry for `key` in `entries` gives, if any.
pub open spec fn last_value(entries: Seq<(field, FieldValue)>, key: field) -> Option<FieldValue>
    decreases entries.len(),
{
    if entries.len() == 0 {
        None
    } else if entries.last().0 == key {
        Some(entries.last().1)
    } else {
        last_value(entries.drop_last(), key)
    }
}

/// Map of packet fields to the values they are fixed to
///
/// The fields with a value are fixed to that value. All other fields are
/// drawn at random. Where a field is given twice, the later value stands.
pub struct StrategyMap(Vec<(field, FieldValue)>);

impl StrategyMap {
    /// The entries, in the order they were given.
    pub closed spec fn spec_entries(&self) -> Seq<(field, FieldValue)> {
        self.0@
    }

    pub fn new(inner: Vec<(field, FieldValue)>) -> (r: Self)
        ensures
            r.spec_entries() == inner@,
    {
        StrategyMap(inner)
    }

    /// The value `key` is fixed to, or `None` where it is drawn at random.
    pub fn value(&self, key: field) -> (r: Option<FieldValue>)
        ensures
            r == last_value(self.spec_entries(), key),
    {
        let mut i: usize = self.0.len();
        assert(self.0@.take(i as int) =~= self.0@);
        while i > 0
            invariant
                i <= self.0@.len(),
                last_value(self.0@, key) == last_value(self.0@.take(i as int), key),
            decreases i,
        {
            let (k, v) = self.0[i - 1];
            proof {
                assert(self.0@.take(i as int).drop_last() =~= self.0@.take(i - 1));
            }
            if k == key {
                return Some(v);
            }
            i = i - 1;
        }
        None
    }
}

/// The values a generated IPv6 TCP packet carries in its settable fields.
#[derive(Debug, Copy, Clone)]
pub struct V6TcpFields {
    pub eth_src: MacAddr,
    pub eth_dst: MacAddr,
    pub ipv6_src: Ipv6Addr,
    pub ipv6_dst: Ipv6Addr,
    pub ipv6_ecn: u8,
    pub ipv6_dscp: u8,
    pub ipv6_flow_label: u32,
    pub ipv6_hop_limit: u8,
    pub tcp_src_port: u16,
    pub tcp_dst_port: u16,
    pub tcp_seq_no: u32,
    pub tcp_ack_no: u32,
    pub tcp_window: u16,
    pub tcp_urgent_pointer: u16,
    pub tcp_ns: bool,
    pub tcp_cwr: bool,
    pub tcp_ece: bool,
    pub tcp_urg: bool,
    pub tcp_ack: bool,
    pub tcp_psh: bool,
    pub tcp_rst: bool,
    pub tcp_syn: bool,
    pub tcp_fin: bool,
}

/// An Ethernet frame with no payload, its addresses set from `f`, the
/// ether type saying IPv6.
fn v6_ethernet(f: &V6TcpFields) -> (r: Ethernet)
    ensures
        r.inv(),
        r.spec_offset() == 0,
        r.spec_mbuf().view().len() == 14,
        r.spec_mbuf().spec_headroom() == MBUF_HEADROOM,
        r.spec_mbuf().spec_tailroom() == MBUF_BUF_LEN - MBUF_HEADROOM - 14,
        r.spec_dst() == f.eth_dst.spec_octets(),
        r.spec_src() == f.eth_src.spec_octets(),
        r.spec_ether_type() == 0x86DD,
{
    let packet = RawPacket::new().unwrap();
    proof {
        packet.lemma_inv();
    }
    let mut ethernet = push::<Ethernet>(packet).unwrap();
    proof {
        ethernet.lemma_envelope();
        ethernet.lemma_inv();
        ethernet.spec_mbuf().lemma_len_bound();
    }
    ethernet.set_src(f.eth_src);
    ethernet.set_dst(f.eth_dst);
    ethernet.set_ether_type(EtherTypes::Ipv6());
    proof {
        ethernet.lemma_inv();
        ethernet.spec_mbuf().lemma_len_bound();
    }
    ethernet
}

/// Sets the addresses of `p` from `f`; the bytes before its header stay.
fn set_v6_addresses(p: &mut Ipv6, f: &V6TcpFields)
    requires
        old(p).inv(),
    ensures
        final(p).inv(),
        final(p).spec_offset() == old(p).spec_offset(),
        final(p).spec_mbuf().view().len() == old(p).spec_mbuf().view().len(),
        final(p).spec_mbuf().view().subrange(0, old(p).spec_offset() as int)
            == old(p).spec_mbuf().view().subrange(0, old(p).spec_offset() as int),
        final(p).spec_mbuf().spec_tailroom() == old(p).spec_mbuf().spec_tailroom(),
        final(p).spec_src_segments() == f.ipv6_src.0@,
        final(p).spec_dst_segments() == f.ipv6_dst.0@,
        final(p).spec_payload_length() == old(p).spec_payload_length(),
{
    let ghost v0 = p.spec_mbuf().view();
    proof {
        p.lemma_inv();
    }
    p.set_src(f.ipv6_src);
    p.set_dst(f.ipv6_dst);
    proof {
        p.lemma_inv();
        assert(p.spec_mbuf().view().subrange(0, p.spec_offset() as int) =~= v0.subrange(
            0,
            p.spec_offset() as int,
        ));
    }
}

/// Sets the traffic class and flow label of `p` from `f`; every byte but
/// the first four of its header stays.
fn set_v6_traffic(p: &mut Ipv6, f: &V6TcpFields)
    requires
        old(p).inv(),
    ensures
        final(p).inv(),
        final(p).spec_offset() == old(p).spec_offset(),
        final(p).spec_mbuf().view().len() == old(p).spec_mbuf().view().len(),
        forall|i: int|
            0 <= i < final(p).spec_mbuf().view().len() && !(old(p).spec_offset() <= i < old(p).spec_offset() + 4)
                ==> #[trigger] final(p).spec_mbuf().view()[i] == old(p).spec_mbuf().view()[i],
        final(p).spec_mbuf().spec_tailroom() == old(p).spec_mbuf().spec_tailroom(),
        final(p).spec_ecn() == f.ipv6_ecn & 3,
        final(p).spec_dscp() == f.ipv6_dscp & 0x3f,
        final(p).spec_flow_label() == f.ipv6_flow_label & FLOW,
{
    p.set_ecn(f.ipv6_ecn);
    p.set_dscp(f.ipv6_dscp);
    p.set_flow_label(f.ipv6_flow_label);
}

/// Sets the hop limit of `p` from `f` and its next header to TCP; every
/// byte but those two stays.
fn set_v6_hops(p: &mut Ipv6, f: &V6TcpFields)
    requires
        old(p).inv(),
    ensures
        final(p).inv(),
        final(p).spec_offset() == old(p).spec_offset(),
        final(p).spec_mbuf().view() == old(p).spec_mbuf().view().update(old(p).spec_offset() + 7int, f.ipv6_hop_limit).update(
            old(p).spec_offset() + 6int,
            6u8,
        ),
        final(p).spec_mbuf().spec_tailroom() == old(p).spec_mbuf().spec_tailroom(),
        final(p).spec_hop_limit() == f.ipv6_hop_limit,
        final(p).spec_next_header() == 6,
{
    proof {
        p.lemma_inv();
    }
    p.set_hop_limit(f.ipv6_hop_limit);
    p.set_next_header(ProtocolNumbers::Tcp());
    proof {
        assert(p.spec_mbuf().view()[p.spec_offset() + 7int] == f.ipv6_hop_limit);
    }
}

/// An Ethernet frame that carries an IPv6 packet with no payload, its
/// fields set from `f`, the next header saying TCP.
fn v6_frame(f: &V6TcpFields) -> (r: Ipv6)
    ensures
        r.inv(),
        r.spec_offset() == 14,
        r.spec_mbuf().view().len() == 54,
        r.spec_mbuf().spec_tailroom() == MBUF_BUF_LEN - MBUF_HEADROOM - 54,
        r.spec_mbuf().view().subrange(0, 6) == f.eth_dst.spec_octets(),
        r.spec_mbuf().view().subrange(6, 12) == f.eth_src.spec_octets(),
        be16(r.spec_mbuf().view(), 12) == 0x86DD,
        r.spec_src_segments() == f.ipv6_src.0@,
        r.spec_dst_segments() == f.ipv6_dst.0@,
        r.spec_ecn() == f.ipv6_ecn & 3,
        r.spec_dscp() == f.ipv6_dscp & 0x3f,
        r.spec_flow_label() == f.ipv6_flow_label & FLOW,
        r.spec_hop_limit() == f.ipv6_hop_limit,
        r.spec_next_header() == 6,
        r.spec_payload_length() == 0,
{
    let ethernet = v6_ethernet(f);
    let ghost frame = ethernet.spec_mbuf().view();
    proof {
        ethernet.lemma_inv();
    }
    let mut packet = push::<Ipv6>(ethernet).unwrap();
    proof {
        packet.lemma_inv();
        packet.spec_mbuf().lemma_len_bound();
        assert(packet.spec_mbuf().view().subrange(0, 14) =~= frame);
    }
    set_v6_addresses(&mut packet, f);
    let ghost a = packet;
    set_v6_traffic(&mut packet, f);
    let ghost b = packet;
    set_v6_hops(&mut packet, f);
    proof {
        assert(b.spec_src_segments() =~= a.spec_src_segments());
        assert(b.spec_dst_segments() =~= a.spec_dst_segments());
        assert(packet.spec_src_segments() =~= b.spec_src_segments());
        assert(packet.spec_dst_segments() =~= b.spec_dst_segments());
        assert(packet.spec_vtf() == b.spec_vtf());
        assert(b.spec_payload_length() == a.spec_payload_length());
        assert(packet.spec_payload_length() == b.spec_payload_length());
        assert(packet.spec_mbuf().view().subrange(0, 6) =~= frame.subrange(0, 6));
        assert(packet.spec_mbuf().view().subrange(6, 12) =~= frame.subrange(6, 12));
        assert(packet.spec_mbuf().view()[12] == frame[12]);
        assert(packet.spec_mbuf().view()[13] == frame[13]);
    }
    packet
}

/// The ports, sequence and acknowledgement numbers, window and urgent
/// pointer of `p` set from `f`; every byte outside those fields stays.
fn set_tcp_numbers(p: &mut Tcp<Ipv6>, f: &V6TcpFields)
    requires
        old(p).inv(),
    ensures
        final(p).inv(),
        final(p).spec_offset() == old(p).spec_offset(),
        final(p).spec_mbuf().view().len() == old(p).spec_mbuf().view().len(),
        forall|i: int|
            0 <= i < final(p).spec_mbuf().view().len() && !(old(p).spec_offset() <= i < old(p).spec_offset() + 12)
                && !(old(p).spec_offset() + 14 <= i < old(p).spec_offset() + 16)
                && !(old(p).spec_offset() + 18 <= i < old(p).spec_offset() + 20)
                ==> #[trigger] final(p).spec_mbuf().view()[i] == old(p).spec_mbuf().view()[i],
        final(p).spec_src_port() == f.tcp_src_port,
        final(p).spec_dst_port() == f.tcp_dst_port,
        final(p).spec_seq_no() == f.tcp_seq_no,
        final(p).spec_ack_no() == f.tcp_ack_no,
        final(p).spec_window() == f.tcp_window,
        final(p).spec_urgent_pointer() == f.tcp_urgent_pointer,
{
    proof {
        p.lemma_inv();
    }
    p.set_src_port(f.tcp_src_port);
    p.set_dst_port(f.tcp_dst_port);
    p.set_seq_no(f.tcp_seq_no);
    p.set_ack_no(f.tcp_ack_no);
    p.set_window(f.tcp_window);
    p.set_urgent_pointer(f.tcp_urgent_pointer);
}

/// The flags octet with the flags that `f` names set.
pub open spec fn tcp_flags_of(f: V6TcpFields) -> u8 {
    (if f.tcp_cwr { CWR } else { 0u8 }) | (if f.tcp_ece { ECE } else { 0u8 }) | (if f.tcp_urg { URG } else { 0u8 }) | (
    if f.tcp_ack { ACK } else { 0u8 }) | (if f.tcp_psh { PSH } else { 0u8 }) | (if f.tcp_rst { RST } else { 0u8 }) | (
    if f.tcp_syn { SYN } else { 0u8 }) | (if f.tcp_fin { FIN } else { 0u8 })
}

/// Setting no bit leaves an octet as it is.
proof fn lemma_or_zero(x: u8)
    by (bit_vector)
    ensures
        x | 0 == x,
{
}

/// Each flag stands in the flags octet exactly where `f` names it.
proof fn lemma_flags_of(c: bool, e: bool, u: bool, a: bool, ps: bool, r: bool, s: bool, fi: bool)
    by (bit_vector)
    ensures
        ({
            let fl = (if c { 0x80u8 } else { 0u8 }) | (if e { 0x40u8 } else { 0u8 }) | (if u { 0x20u8 } else { 0u8 }) | (
            if a { 0x10u8 } else { 0u8 }) | (if ps { 0x08u8 } else { 0u8 }) | (if r { 0x04u8 } else { 0u8 }) | (
            if s { 0x02u8 } else { 0u8 }) | (if fi { 0x01u8 } else { 0u8 });
            &&& (fl & 0x80 != 0) == c
            &&& (fl & 0x40 != 0) == e
            &&& (fl & 0x20 != 0) == u
            &&& (fl & 0x10 != 0) == a
            &&& (fl & 0x08 != 0) == ps
            &&& (fl & 0x04 != 0) == r
            &&& (fl & 0x02 != 0) == s
            &&& (fl & 0x01 != 0) == fi
        }),
{
}

/// The NS bit and the flags of `p` set as `f` names them, on a segment
/// that has none set; every byte but those two stays.
fn set_tcp_flags(p: &mut Tcp<Ipv6>, f: &V6TcpFields)
    requires
        old(p).inv(),
        old(p).spec_flags() == 0,
        !old(p).spec_ns(),
    ensures
        final(p).inv(),
        final(p).spec_offset() == old(p).spec_offset(),
        final(p).spec_mbuf().view().len() == old(p).spec_mbuf().view().len(),
        forall|i: int|
            0 <= i < final(p).spec_mbuf().view().len() && i != old(p).spec_offset() + 12 && i != old(p).spec_offset() + 13
                ==> #[trigger] final(p).spec_mbuf().view()[i] == old(p).spec_mbuf().view()[i],
        final(p).spec_ns() == f.tcp_ns,
        final(p).spec_data_offset() == old(p).spec_data_offset(),
        final(p).spec_flags() == tcp_flags_of(*f),
{
    proof {
        p.lemma_inv();
    }
    if f.tcp_ns {
        p.set_ns();
    }
    let ghost b12 = p.spec_offset_to_ns();
    let ghost mut fl: u8 = 0;
    proof {
        p.lemma_inv();
        assert(p.spec_flags() == 0);
    }
    if f.tcp_cwr {
        p.set_cwr();
    }
    proof {
        lemma_or_zero(fl);
        fl = fl | (if f.tcp_cwr { CWR } else { 0u8 });
        assert(p.spec_flags() == fl);
        assert(p.spec_offset_to_ns() == b12);
    }
    if f.tcp_ece {
        p.set_ece();
    }
    proof {
        lemma_or_zero(fl);
        fl = fl | (if f.tcp_ece { ECE } else { 0u8 });
        assert(p.spec_flags() == fl);
        assert(p.spec_offset_to_ns() == b12);
    }
    if f.tcp_urg {
        p.set_urg();
    }
    proof {
        lemma_or_zero(fl);
        fl = fl | (if f.tcp_urg { URG } else { 0u8 });
        assert(p.spec_flags() == fl);
        assert(p.spec_offset_to_ns() == b12);
    }
    if f.tcp_ack {
        p.set_ack();
    }
    proof {
        lemma_or_zero(fl);
        fl = fl | (if f.tcp_ack { ACK } else { 0u8 });
        assert(p.spec_flags() == fl);
        assert(p.spec_offset_to_ns() == b12);
    }
    if f.tcp_psh {
        p.set_psh();
    }
    proof {
        lemma_or_zero(fl);
        fl = fl | (if f.tcp_psh { PSH } else { 0u8 });
        assert(p.spec_flags() == fl);
        assert(p.spec_offset_to_ns() == b12);
    }
    if f.tcp_rst {
        p.set_rst();
    }
    proof {
        lemma_or_zero(fl);
        fl = fl | (if f.tcp_rst { RST } else { 0u8 });
        assert(p.spec_flags() == fl);
        assert(p.spec_offset_to_ns() == b12);
    }
    if f.tcp_syn {
        p.set_syn();
    }
    proof {
        lemma_or_zero(fl);
        fl = fl | (if f.tcp_syn { SYN } else { 0u8 });
        assert(p.spec_flags() == fl);
        assert(p.spec_offset_to_ns() == b12);
    }
    if f.tcp_fin {
        p.set_fin();
    }
    proof {
        lemma_or_zero(fl);
        fl = fl | (if f.tcp_fin { FIN } else { 0u8 });
        assert(p.spec_flags() == fl);
        assert(p.spec_offset_to_ns() == b12);
    }
    proof {
        let c = if f.tcp_cwr { CWR } else { 0u8 };
        assert(0u8 | c == c) by (bit_vector);
    }
}

/// An Ethernet frame carrying an IPv6 packet carrying a TCP segment with
/// no payload, every settable field of the three headers set from `f`:
/// the ether type says IPv6, the next header says TCP, the TCP data offset
/// is five words, and the length and checksum fields stay zero until the
/// packet is cascaded.
pub fn v6_tcp_packet(f: &V6TcpFields) -> (r: Tcp<Ipv6>)
    ensures
        r.inv(),
        r.spec_offset() == 54,
        r.spec_mbuf().view().len() == 74,
        r.spec_mbuf().view().subrange(0, 6) == f.eth_dst.spec_octets(),
        r.spec_mbuf().view().subrange(6, 12) == f.eth_src.spec_octets(),
        be16(r.spec_mbuf().view(), 12) == 0x86DD,
        r.spec_envelope().spec_offset() == 14,
        r.spec_envelope().spec_src_segments() == f.ipv6_src.0@,
        r.spec_envelope().spec_dst_segments() == f.ipv6_dst.0@,
        r.spec_envelope().spec_ecn() == f.ipv6_ecn & 3,
        r.spec_envelope().spec_dscp() == f.ipv6_dscp & 0x3f,
        r.spec_envelope().spec_flow_label() == f.ipv6_flow_label & FLOW,
        r.spec_envelope().spec_hop_limit() == f.ipv6_hop_limit,
        r.spec_envelope().spec_next_header() == 6,
        r.spec_envelope().spec_payload_length() == 0,
        r.spec_checksum() == 0,
        r.spec_src_port() == f.tcp_src_port,
        r.spec_dst_port() == f.tcp_dst_port,
        r.spec_seq_no() == f.tcp_seq_no,
        r.spec_ack_no() == f.tcp_ack_no,
        r.spec_window() == f.tcp_window,
        r.spec_urgent_pointer() == f.tcp_urgent_pointer,
        r.spec_data_offset() == 5,
        r.spec_ns() == f.tcp_ns,
        r.spec_flag(CWR) == f.tcp_cwr,
        r.spec_flag(ECE) == f.tcp_ece,
        r.spec_flag(URG) == f.tcp_urg,
        r.spec_flag(ACK) == f.tcp_ack,
        r.spec_flag(PSH) == f.tcp_psh,
        r.spec_flag(RST) == f.tcp_rst,
        r.spec_flag(SYN) == f.tcp_syn,
        r.spec_flag(FIN) == f.tcp_fin,
{
    let ip = v6_frame(f);
    let ghost v1 = ip.spec_mbuf().view();
    let ghost ip1 = ip;
    proof {
        ip.lemma_inv();
    }
    let mut packet = push::<Tcp<Ipv6>>(ip).unwrap();
    proof {
        packet.lemma_inv();
        let v2 = packet.spec_mbuf().view();
        assert(v2.subrange(0, 54) =~= v1);
        assert(v2[66] == 0x50u8 && v2[67] == 0u8);
        assert(0x50u8 & 1 == 0 && (0x50u8 & 0xf0) >> 4 == 5) by (bit_vector);
    }
    let ghost v2 = packet.spec_mbuf().view();
    set_tcp_numbers(&mut packet, f);
    set_tcp_flags(&mut packet, f);
    proof {
        let v = packet.spec_mbuf().view();
        assert(v.subrange(0, 54) =~= v1);
        packet.lemma_envelope();
        let e = packet.spec_envelope();
        assert(e.spec_src_segments() =~= ip1.spec_src_segments());
        assert(e.spec_dst_segments() =~= ip1.spec_dst_segments());
        assert(e.spec_vtf() == ip1.spec_vtf());
        assert(e.spec_payload_length() == ip1.spec_payload_length());
        assert(v2[70] == 0u8 && v2[71] == 0u8);
        assert(v.subrange(0, 6) =~= v1.subrange(0, 6));
        assert(v.subrange(6, 12) =~= v1.subrange(6, 12));
        lemma_flags_of(f.tcp_cwr, f.tcp_ece, f.tcp_urg, f.tcp_ack, f.tcp_psh, f.tcp_rst, f.tcp_syn, f.tcp_fin);
    }
    packet
}

} // verus!
