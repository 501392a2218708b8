use netbricks::packets::ethernet::Ethernet;
use netbricks::packets::ip::v4::Ipv4;
use netbricks::packets::ip::v6::srh::SegmentRouting;
use netbricks::packets::ip::v6::Ipv6;
use netbricks::packets::ip::{IpAddr, Ipv4Addr, Ipv6Addr, ProtocolNumbers};
use netbricks::packets::raw::RawPacket;
use netbricks::packets::tcp::{Tcp, TcpHeader};
use netbricks::packets::{parse, push, Fixed, Packet, ParsedPacket};

const TCP_PACKET: [u8; 58] = [
    // ** ethernet header
    0x00, 0x00, 0x00, 0x00, 0x00, 0x01,
    0x00, 0x00, 0x00, 0x00, 0x00, 0x02,
    0x08, 0x00,
    // ** IPv4 header
    0x45, 0x00,
    // IPv4 payload length
    0x00, 0x2c,
    // ident = 2232, flags = 4, frag_offset = 0
    0x08, 0xb8, 0x40, 0x00,
    // ttl = 255, protocol = TCP, checksum = 0x9997
    0xff, 0x06, 0x99, 0x97,
    // src = 139.133.217.110
    0x8b, 0x85, 0xd9, 0x6e,
    // dst = 139.133.233.2
    0x8b, 0x85, 0xe9, 0x02,
    // ** TCP header
    // src_port = 36869, dst_port = 23
    0x90, 0x05, 0x00, 0x17,
    // seq_no = 1913975060
    0x72, 0x14, 0xf1, 0x14,
    // ack_no = 0
    0x00, 0x00, 0x00, 0x00,
    // data_offset = 6, flags = 0x02
    0x60, 0x02,
    // window = 8760, checksum = 0xa92c, urgent = 0
    0x22, 0x38, 0xa9, 0x2c, 0x00, 0x00,
    // options
    0x02, 0x04, 0x05, 0xb4,
];

const SRH_PACKET: [u8; 170] = [
    0x00, 0x00, 0x00, 0x00, 0x00, 0x01, 0x00, 0x00, 0x00, 0x00, 0x00, 0x02, 0x86, 0xDD,
    0x60, 0x00, 0x00, 0x00, 0x00, 0x74, 0x2b, 0x02,
    0x20, 0x01, 0x0d, 0xb8, 0x85, 0xa3, 0x00, 0x00, 0x00, 0x00, 0x00, 0x00, 0x00, 0x00, 0x00, 0x01,
    0x20, 0x01, 0x0d, 0xb8, 0x85, 0xa3, 0x00, 0x00, 0x00, 0x00, 0x8a, 0x2e, 0x03, 0x70, 0x73, 0x34,
    0x06, 0x06, 0x04, 0x00, 0x02, 0x00, 0x00, 0x00,
    0x20, 0x01, 0x0d, 0xb8, 0x85, 0xa3, 0x00, 0x00, 0x00, 0x00, 0x8a, 0x2e, 0x03, 0x70, 0x73, 0x33,
    0x20, 0x01, 0x0d, 0xb8, 0x85, 0xa3, 0x00, 0x00, 0x00, 0x00, 0x8a, 0x2e, 0x03, 0x70, 0x73, 0x34,
    0x20, 0x01, 0x0d, 0xb8, 0x85, 0xa3, 0x00, 0x00, 0x00, 0x00, 0x8a, 0x2e, 0x03, 0x70, 0x73, 0x35,
    0x0d, 0x88, 0x04, 0x00, 0x00, 0x00, 0x00, 0x00, 0x00, 0x00, 0x00, 0x00, 0x50, 0x02,
    0x00, 0x0a, 0x00, 0x00, 0x00, 0x00,
    0x00, 0x00, 0x00, 0x00, 0x00, 0x00, 0x00, 0x00, 0x00, 0x00, 0x00, 0x00, 0x00, 0x00, 0x00, 0x00,
    0x00, 0x00, 0x00, 0x00, 0x00, 0x00, 0x00, 0x00, 0x00, 0x00, 0x00, 0x00, 0x00, 0x00, 0x00, 0x00,
    0x00, 0x00, 0x00, 0x00, 0x00, 0x00, 0x00, 0x07,
];

fn parsed_tcp() -> Tcp<Ipv4> {
    let packet = RawPacket::from_bytes(&TCP_PACKET).unwrap();
    let ethernet = parse::<Ethernet>(packet).unwrap();
    let ipv4 = parse::<Ipv4>(ethernet).unwrap();
    parse::<Tcp<Ipv4>>(ipv4).unwrap()
}

#[test]
fn size_of_tcp_header() {
    assert_eq!(20, TcpHeader::size());
}

#[test]
fn parse_tcp_packet() {
    let tcp = parsed_tcp();

    assert_eq!(36869, tcp.src_port());
    assert_eq!(23, tcp.dst_port());
    assert_eq!(1_913_975_060, tcp.seq_no());
    assert_eq!(0, tcp.ack_no());
    assert_eq!(6, tcp.data_offset());
    assert_eq!(8760, tcp.window());
    assert_eq!(0xa92c, tcp.checksum());
    assert_eq!(0, tcp.urgent_pointer());
    assert!(!tcp.ns());
    assert!(!tcp.cwr());
    assert!(!tcp.ece());
    assert!(!tcp.urg());
    assert!(!tcp.ack());
    assert!(!tcp.psh());
    assert!(!tcp.rst());
    assert!(tcp.syn());
    assert!(!tcp.fin());
}

#[test]
fn tcp_flow_v4() {
    let tcp = parsed_tcp();
    let flow = tcp.flow();

    assert_eq!("139.133.217.110", flow.src_ip().to_string());
    assert_eq!("139.133.233.2", flow.dst_ip().to_string());
    assert_eq!(36869, flow.src_port());
    assert_eq!(23, flow.dst_port());
    assert_eq!(ProtocolNumbers::Tcp(), flow.protocol());
}

#[test]
fn tcp_flow_v6() {
    let packet = RawPacket::from_bytes(&SRH_PACKET).unwrap();
    let ethernet = parse::<Ethernet>(packet).unwrap();
    let ipv6 = parse::<Ipv6>(ethernet).unwrap();
    let srh = parse::<SegmentRouting<Ipv6>>(ipv6).unwrap();
    let tcp = parse::<Tcp<SegmentRouting<Ipv6>>>(srh).unwrap();
    let flow = tcp.flow();

    assert_eq!("2001:db8:85a3::1", flow.src_ip().to_string());
    assert_eq!("2001:db8:85a3::8a2e:370:7334", flow.dst_ip().to_string());
    assert_eq!(3464, flow.src_port());
    assert_eq!(1024, flow.dst_port());
    assert_eq!(ProtocolNumbers::Tcp(), flow.protocol());
}

#[test]
fn tcp_set_src_dst_ip() {
    let mut tcp = parsed_tcp();

    let old_checksum = tcp.checksum();
    let new_ip = Ipv4Addr([10, 0, 0, 0]);
    assert!(tcp.set_src_ip(IpAddr::V4(new_ip)).is_ok());
    assert!(tcp.checksum() != old_checksum);
    assert_eq!(new_ip.to_string(), tcp.envelope().src().to_string());

    let old_checksum = tcp.checksum();
    let new_ip = Ipv4Addr([20, 0, 0, 0]);
    assert!(tcp.set_dst_ip(IpAddr::V4(new_ip)).is_ok());
    assert!(tcp.checksum() != old_checksum);
    assert_eq!(new_ip.to_string(), tcp.envelope().dst().to_string());

    // can't set v6 addr on a v4 packet
    assert!(tcp.set_src_ip(IpAddr::V6(Ipv6Addr([0, 0, 0, 0, 0, 0, 0, 0]))).is_err());
}

#[test]
fn tcp_compute_checksum() {
    let mut tcp = parsed_tcp();

    let expected = tcp.checksum();
    // no payload change but force a checksum recompute anyway
    tcp.cascade();
    assert_eq!(expected, tcp.checksum());
}

#[test]
fn push_tcp_packet() {
    let packet = RawPacket::new().unwrap();
    let ethernet = push::<Ethernet>(packet).unwrap();
    let ipv4 = push::<Ipv4>(ethernet).unwrap();
    let tcp = push::<Tcp<Ipv4>>(ipv4).unwrap();

    assert_eq!(TcpHeader::size(), tcp.len());
    assert_eq!(5, tcp.data_offset());
}

#[test]
fn tcp_incremental_update_matches_recompute() {
    // after changing an address with the incremental update, a full
    // recomputation gives the same checksum
    let mut tcp = parsed_tcp();
    assert!(tcp.set_src_ip(IpAddr::V4(Ipv4Addr([10, 1, 2, 3]))).is_ok());
    let incremental = tcp.checksum();
    tcp.cascade();
    assert_eq!(incremental, tcp.checksum());
}

#[test]
fn tcp_flags_set_and_unset() {
    let mut tcp = parsed_tcp();
    tcp.set_ns();
    tcp.set_cwr();
    tcp.set_ece();
    tcp.set_urg();
    tcp.set_ack();
    tcp.set_psh();
    tcp.set_rst();
    tcp.set_fin();
    assert!(tcp.ns() && tcp.cwr() && tcp.ece() && tcp.urg() && tcp.ack() && tcp.psh() && tcp.rst() && tcp.syn() && tcp.fin());
    assert_eq!(6, tcp.data_offset());
    tcp.unset_syn();
    tcp.unset_ns();
    assert!(!tcp.syn() && !tcp.ns());
    assert!(tcp.cwr() && tcp.fin());
    assert_eq!(6, tcp.data_offset());
}

#[test]
fn tcp_to_string() {
    let tcp = parsed_tcp();
    assert_eq!(
        "src_port: 36869, dst_port: 23, seq_no: 1913975060, ack_no: 0, data_offset: 6, window: 8760, checksum 43308, urgent: 0, NS: false, CWR: false, ECE: false, URG: false, ACK: false, PSH: false, RST: false, SYN: true, FIN: false",
        tcp.to_string()
    );
}
