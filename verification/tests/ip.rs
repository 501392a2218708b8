use netbricks::packets::ethernet::Ethernet;
use netbricks::packets::ip::v4::{Ipv4, Ipv4Header};
use netbricks::packets::ip::v6::{Ipv6, Ipv6Header};
use netbricks::packets::ip::{IpAddr, Ipv4Addr, Ipv6Addr, ProtocolNumber, ProtocolNumbers};
use netbricks::packets::raw::RawPacket;
use netbricks::packets::{parse, push, Fixed, Packet};

const UDP_PACKET: [u8; 52] = [
    0x00, 0x00, 0x00, 0x00, 0x00, 0x01, 0x00, 0x00, 0x00, 0x00, 0x00, 0x02, 0x08, 0x00,
    // ** IPv4 header
    0x45, 0x00, 0x00, 0x26, 0xab, 0x49, 0x40, 0x00, 0xff, 0x11, 0xf7, 0x00,
    0x8b, 0x85, 0xd9, 0x6e, 0x8b, 0x85, 0xe9, 0x02,
    // ** UDP header
    0x99, 0xd0, 0x04, 0x3f, 0x00, 0x12, 0x72, 0x28,
    0x68, 0x65, 0x6c, 0x6c, 0x6f, 0x68, 0x65, 0x6c, 0x6c, 0x6f,
];

const IPV6_PACKET: [u8; 78] = [
    // ** ethernet header
    0x00, 0x00, 0x00, 0x00, 0x00, 0x01,
    0x00, 0x00, 0x00, 0x00, 0x00, 0x02,
    0x86, 0xDD,
    // ** IPv6 header
    // version, dscp, ecn, flow label
    0x60, 0x00, 0x00, 0x00,
    // payload length
    0x00, 0x18,
    // next Header
    0x11,
    // hop limit
    0x02,
    // src addr
    0x20, 0x01, 0x0d, 0xb8, 0x85, 0xa3, 0x00, 0x00, 0x00, 0x00, 0x00, 0x00, 0x00, 0x00, 0x00, 0x01,
    // dst addr
    0x20, 0x01, 0x0d, 0xb8, 0x85, 0xa3, 0x00, 0x00, 0x00, 0x00, 0x8a, 0x2e, 0x03, 0x70, 0x73, 0x34,
    // ** TCP header
    0x90, 0x05, 0x00, 0x17,
    0x72, 0x14, 0xf1, 0x14,
    0x00, 0x00, 0x00, 0x00,
    0x60, 0x02,
    0x22, 0x38, 0xa9, 0x2c, 0x00, 0x00,
    0x02, 0x04, 0x05, 0xb4,
];

#[test]
fn protocol_number_to_string() {
    assert_eq!("TCP", ProtocolNumbers::Tcp().to_string());
    assert_eq!("UDP", ProtocolNumbers::Udp().to_string());
    assert_eq!("IPv6 Route", ProtocolNumbers::Ipv6Route().to_string());
    assert_eq!("ICMPv6", ProtocolNumbers::Icmpv6().to_string());
    assert_eq!("0x00", ProtocolNumber::new(0).to_string());
}

#[test]
fn size_of_ipv4_header() {
    assert_eq!(20, Ipv4Header::size());
}

#[test]
fn parse_ipv4_packet() {
    let packet = RawPacket::from_bytes(&UDP_PACKET).unwrap();
    let ethernet = parse::<Ethernet>(packet).unwrap();
    let ipv4 = parse::<Ipv4>(ethernet).unwrap();

    assert_eq!(4, ipv4.version());
    assert_eq!(5, ipv4.ihl());
    assert_eq!(38, ipv4.total_length());
    assert_eq!(43849, ipv4.identification());
    assert_eq!(true, ipv4.dont_fragment());
    assert_eq!(false, ipv4.more_fragments());
    assert_eq!(0, ipv4.fragment_offset());
    assert_eq!(0, ipv4.dscp());
    assert_eq!(0, ipv4.ecn());
    assert_eq!(255, ipv4.ttl());
    assert_eq!(ProtocolNumbers::Udp(), ipv4.protocol());
    assert_eq!(0xf700, ipv4.checksum());
    assert_eq!("139.133.217.110", ipv4.src().to_string());
    assert_eq!("139.133.233.2", ipv4.dst().to_string());
}

#[test]
fn parse_ipv4_setter_checks() {
    let packet = RawPacket::from_bytes(&UDP_PACKET).unwrap();
    let ethernet = parse::<Ethernet>(packet).unwrap();
    let mut ipv4 = parse::<Ipv4>(ethernet).unwrap();

    // Flags
    assert_eq!(true, ipv4.dont_fragment());
    assert_eq!(false, ipv4.more_fragments());
    ipv4.unset_dont_fragment();
    assert_eq!(false, ipv4.dont_fragment());
    ipv4.set_more_fragments();
    assert_eq!(true, ipv4.more_fragments());
    ipv4.set_fragment_offset(5);
    assert_eq!(5, ipv4.fragment_offset());
    ipv4.clear_flags();
    assert_eq!(false, ipv4.dont_fragment());
    assert_eq!(false, ipv4.more_fragments());

    // DSCP & ECN
    assert_eq!(0, ipv4.dscp());
    assert_eq!(0, ipv4.ecn());
    ipv4.set_dscp(10);
    ipv4.set_ecn(3);
    assert_eq!(10, ipv4.dscp());
    assert_eq!(3, ipv4.ecn());
}

#[test]
fn push_ipv4_packet() {
    let packet = RawPacket::new().unwrap();
    let ethernet = push::<Ethernet>(packet).unwrap();
    let ipv4 = push::<Ipv4>(ethernet).unwrap();

    assert_eq!(4, ipv4.version());
    assert_eq!(Ipv4Header::size(), ipv4.len());
}

#[test]
fn ipv4_cascade_sets_length_and_checksum() {
    let packet = RawPacket::from_bytes(&UDP_PACKET).unwrap();
    let ethernet = parse::<Ethernet>(packet).unwrap();
    let mut ipv4 = parse::<Ipv4>(ethernet).unwrap();
    ipv4.set_ttl(64);
    ipv4.cascade();
    assert_eq!(38, ipv4.total_length());
    // the header checksum over the header verifies: recomputing gives the same value
    let before = ipv4.checksum();
    ipv4.cascade();
    assert_eq!(before, ipv4.checksum());
}

#[test]
fn size_of_ipv6_header() {
    assert_eq!(40, Ipv6Header::size());
}

#[test]
fn parse_ipv6_packet() {
    let packet = RawPacket::from_bytes(&IPV6_PACKET).unwrap();
    let ethernet = parse::<Ethernet>(packet).unwrap();
    let ipv6 = parse::<Ipv6>(ethernet).unwrap();

    assert_eq!(6, ipv6.version());
    assert_eq!(0, ipv6.dscp());
    assert_eq!(0, ipv6.ecn());
    assert_eq!(0, ipv6.flow_label());
    assert_eq!(24, ipv6.payload_len());
    assert_eq!(ProtocolNumbers::Udp(), ipv6.next_header());
    assert_eq!(2, ipv6.hop_limit());
    assert_eq!("2001:db8:85a3::1", ipv6.src().to_string());
    assert_eq!("2001:db8:85a3::8a2e:370:7334", ipv6.dst().to_string());
}

#[test]
fn parse_ipv6_setter_checks() {
    let packet = RawPacket::from_bytes(&IPV6_PACKET).unwrap();
    let ethernet = parse::<Ethernet>(packet).unwrap();
    let mut ipv6 = parse::<Ipv6>(ethernet).unwrap();

    assert_eq!(6, ipv6.version());
    assert_eq!(0, ipv6.dscp());
    assert_eq!(0, ipv6.ecn());
    assert_eq!(0, ipv6.flow_label());
    ipv6.set_dscp(10);
    ipv6.set_ecn(3);
    assert_eq!(6, ipv6.version());
    assert_eq!(10, ipv6.dscp());
    assert_eq!(3, ipv6.ecn());
    assert_eq!(0, ipv6.flow_label());
}

#[test]
fn push_ipv6_packet() {
    let packet = RawPacket::new().unwrap();
    let ethernet = push::<Ethernet>(packet).unwrap();
    let ipv6 = push::<Ipv6>(ethernet).unwrap();

    assert_eq!(6, ipv6.version());
    assert_eq!(Ipv6Header::size(), ipv6.len());
}

#[test]
fn ipv6_address_text() {
    assert_eq!("::", Ipv6Addr([0, 0, 0, 0, 0, 0, 0, 0]).to_string());
    assert_eq!("::1", Ipv6Addr([0, 0, 0, 0, 0, 0, 0, 1]).to_string());
    assert_eq!("1::", Ipv6Addr([1, 0, 0, 0, 0, 0, 0, 0]).to_string());
    assert_eq!("1:0:2::3", Ipv6Addr([1, 0, 2, 0, 0, 0, 0, 3]).to_string());
    assert_eq!("1::2:0:0:3", Ipv6Addr([1, 0, 0, 0, 2, 0, 0, 3]).to_string());
    assert_eq!("1:0:0:2::3", Ipv6Addr([1, 0, 0, 2, 0, 0, 0, 3]).to_string());
    assert_eq!("1:2:3:4:5:6:7:8", Ipv6Addr([1, 2, 3, 4, 5, 6, 7, 8]).to_string());
    assert_eq!("::ffff:192.0.2.1", Ipv6Addr([0, 0, 0, 0, 0, 0xffff, 0xc000, 0x0201]).to_string());
    assert_eq!("fe80::d4f0:45ff:fe0c:664b", Ipv6Addr([0xfe80, 0, 0, 0, 0xd4f0, 0x45ff, 0xfe0c, 0x664b]).to_string());
    assert_eq!("0:0:1::2", Ipv6Addr([0, 0, 1, 0, 0, 0, 0, 2]).to_string());
    assert_eq!("abcd:0:0:1::", Ipv6Addr([0xabcd, 0, 0, 1, 0, 0, 0, 0]).to_string());
    assert_eq!("0:1:0:1:0:1:0:1", Ipv6Addr([0, 1, 0, 1, 0, 1, 0, 1]).to_string());
}

#[test]
fn ip_address_text() {
    assert_eq!("10.0.0.1", IpAddr::V4(Ipv4Addr([10, 0, 0, 1])).to_string());
    assert_eq!("::2", IpAddr::V6(Ipv6Addr([0, 0, 0, 0, 0, 0, 0, 2])).to_string());
}
