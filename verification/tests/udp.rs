use netbricks::packets::ethernet::Ethernet;
use netbricks::packets::ip::v4::Ipv4;
use netbricks::packets::ip::{IpAddr, Ipv4Addr, Ipv6Addr, ProtocolNumbers};
use netbricks::packets::raw::RawPacket;
use netbricks::packets::udp::{Udp, UdpHeader};
use netbricks::packets::{parse, push, Fixed, Packet, ParsedPacket};

const UDP_PACKET: [u8; 52] = [
    // ** ethernet header
    0x00, 0x00, 0x00, 0x00, 0x00, 0x01,
    0x00, 0x00, 0x00, 0x00, 0x00, 0x02,
    0x08, 0x00,
    // ** IPv4 header
    0x45, 0x00,
    // IPv4 payload length
    0x00, 0x26,
    // ident = 43849, flags = 4, frag_offset = 0
    0xab, 0x49, 0x40, 0x00,
    // ttl = 255, protocol = UDP, checksum = 0xf700
    0xff, 0x11, 0xf7, 0x00,
    // src = 139.133.217.110
    0x8b, 0x85, 0xd9, 0x6e,
    // dst = 139.133.233.2
    0x8b, 0x85, 0xe9, 0x02,
    // ** UDP header
    // src_port = 39376, dst_port = 1087
    0x99, 0xd0, 0x04, 0x3f,
    // UDP length = 18, checksum = 0x7228
    0x00, 0x12, 0x72, 0x28,
    // ** UDP payload
    0x68, 0x65, 0x6c, 0x6c, 0x6f, 0x68, 0x65, 0x6c, 0x6c, 0x6f,
];

fn parsed_udp() -> Udp<Ipv4> {
    let packet = RawPacket::from_bytes(&UDP_PACKET).unwrap();
    let ethernet = parse::<Ethernet>(packet).unwrap();
    let ipv4 = parse::<Ipv4>(ethernet).unwrap();
    parse::<Udp<Ipv4>>(ipv4).unwrap()
}

#[test]
fn size_of_udp_header() {
    assert_eq!(8, UdpHeader::size());
}

#[test]
fn parse_udp_packet() {
    let udp = parsed_udp();

    assert_eq!(39376, udp.src_port());
    assert_eq!(1087, udp.dst_port());
    assert_eq!(18, udp.length());
    assert_eq!(0x7228, udp.checksum());
}

#[test]
fn udp_flow_v4() {
    let udp = parsed_udp();
    let flow = udp.flow();

    assert_eq!("139.133.217.110", flow.src_ip().to_string());
    assert_eq!("139.133.233.2", flow.dst_ip().to_string());
    assert_eq!(39376, flow.src_port());
    assert_eq!(1087, flow.dst_port());
    assert_eq!(ProtocolNumbers::Udp(), flow.protocol());
}

#[test]
fn udp_set_src_dst_ip() {
    let mut udp = parsed_udp();

    let old_checksum = udp.checksum();
    let new_ip = Ipv4Addr([10, 0, 0, 0]);
    assert!(udp.set_src_ip(IpAddr::V4(new_ip)).is_ok());
    assert!(udp.checksum() != old_checksum);
    assert_eq!(new_ip.to_string(), udp.envelope().src().to_string());

    let old_checksum = udp.checksum();
    let new_ip = Ipv4Addr([20, 0, 0, 0]);
    assert!(udp.set_dst_ip(IpAddr::V4(new_ip)).is_ok());
    assert!(udp.checksum() != old_checksum);
    assert_eq!(new_ip.to_string(), udp.envelope().dst().to_string());

    // can't set v6 addr on a v4 packet
    assert!(udp.set_src_ip(IpAddr::V6(Ipv6Addr([0, 0, 0, 0, 0, 0, 0, 0]))).is_err());
}

#[test]
fn udp_compute_checksum() {
    let mut udp = parsed_udp();

    let expected = udp.checksum();
    // no payload change but force a checksum recompute anyway
    udp.cascade();
    assert_eq!(expected, udp.checksum());
}

#[test]
fn push_udp_packet() {
    let packet = RawPacket::new().unwrap();
    let ethernet = push::<Ethernet>(packet).unwrap();
    let ipv4 = push::<Ipv4>(ethernet).unwrap();
    let udp = push::<Udp<Ipv4>>(ipv4).unwrap();

    assert_eq!(UdpHeader::size(), udp.len());
}

#[test]
fn udp_no_checksum_and_cascade_length() {
    let mut udp = parsed_udp();
    udp.no_checksum();
    assert_eq!(0, udp.checksum());
    udp.cascade();
    assert_eq!(18, udp.length());
    assert_eq!(0x7228, udp.checksum());
}

#[test]
fn udp_to_string() {
    let udp = parsed_udp();
    assert_eq!("src_port: 39376, dst_port: 1087, length: 18, checksum: 29224", udp.to_string());
}
