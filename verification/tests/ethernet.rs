use netbricks::packets::ethernet::{EtherType, EtherTypes, Ethernet, EthernetHeader, MacAddr};
use netbricks::packets::raw::RawPacket;
use netbricks::packets::{parse, push, reset, Fixed, Packet};

const UDP_PACKET: [u8; 52] = [
    // ** ethernet header
    0x00, 0x00, 0x00, 0x00, 0x00, 0x01,
    0x00, 0x00, 0x00, 0x00, 0x00, 0x02,
    0x08, 0x00,
    // ** IPv4 header
    0x45, 0x00,
    // IPv4 payload length
    0x00, 0x26,
    // ident = 43849, flags = 4, frag_offset = 0
    0xab, 0x49, 0x40, 0x00,
    // ttl = 255, protocol = UDP, checksum = 0xf700
    0xff, 0x11, 0xf7, 0x00,
    // src = 139.133.217.110
    0x8b, 0x85, 0xd9, 0x6e,
    // dst = 139.133.233.2
    0x8b, 0x85, 0xe9, 0x02,
    // ** UDP header
    // src_port = 39376, dst_port = 1087
    0x99, 0xd0, 0x04, 0x3f,
    // UDP length = 18, checksum = 0x7228
    0x00, 0x12, 0x72, 0x28,
    // ** UDP payload
    0x68, 0x65, 0x6c, 0x6c, 0x6f, 0x68, 0x65, 0x6c, 0x6c, 0x6f,
];

#[test]
fn size_of_ethernet_header() {
    assert_eq!(14, EthernetHeader::size());
}

#[test]
fn mac_addr_to_string() {
    assert_eq!("00:00:00:00:00:00", MacAddr::new(0, 0, 0, 0, 0, 0).to_string());
    assert_eq!("ff:ff:ff:ff:ff:ff", MacAddr::new(255, 255, 255, 255, 255, 255).to_string());
    assert_eq!("12:34:56:ab:cd:ef", MacAddr::new(0x12, 0x34, 0x56, 0xAB, 0xCD, 0xEF).to_string());
}

#[test]
fn string_to_mac_addr() {
    assert_eq!(MacAddr::new(0, 0, 0, 0, 0, 0), MacAddr::from_str("00:00:00:00:00:00").unwrap());
    assert_eq!(MacAddr::new(255, 255, 255, 255, 255, 255), MacAddr::from_str("ff:ff:ff:ff:ff:ff").unwrap());
    assert_eq!(
        MacAddr::new(0x12, 0x34, 0x56, 0xAB, 0xCD, 0xEF),
        MacAddr::from_str("12:34:56:ab:cd:ef").unwrap()
    );
}

#[test]
fn string_to_mac_addr_separators_and_case() {
    let expected = MacAddr::new(0x12, 0x34, 0x56, 0xAB, 0xCD, 0xEF);
    assert_eq!(expected, MacAddr::from_str("12-34-56-AB-CD-EF").unwrap());
    assert_eq!(expected, MacAddr::from_str("123456abcdef").unwrap());
    assert_eq!(expected, MacAddr::from_str("12:34-56AbCd:eF").unwrap());
}

#[test]
fn string_to_mac_addr_errors() {
    // too short, too long, odd, not hexadecimal
    for bad in ["12:34:56:ab:cd", "12:34:56:ab:cd:ef:01", "12:34:56:ab:cd:e", "zz:34:56:ab:cd:ef", ""] {
        let err = MacAddr::from_str(bad).unwrap_err();
        assert_eq!(format!("Failed to parse '{}' as MAC address.", bad), err.to_string());
    }
}

#[test]
fn mac_addr_text_round_trip() {
    let addr = MacAddr::new(0x0a, 0x1b, 0x2c, 0x3d, 0x4e, 0x5f);
    assert_eq!(addr, MacAddr::from_str(&addr.to_string()).unwrap());
}

#[test]
fn ether_type_to_string() {
    assert_eq!("IPv4", EtherTypes::Ipv4().to_string());
    assert_eq!("IPv6", EtherTypes::Ipv6().to_string());
    assert_eq!("0x0000", EtherType::new(0).to_string());
}

#[test]
fn parse_ethernet_packet() {
    let packet = RawPacket::from_bytes(&UDP_PACKET).unwrap();
    let ethernet = parse::<Ethernet>(packet).unwrap();

    assert_eq!("00:00:00:00:00:01", ethernet.dst().to_string());
    assert_eq!("00:00:00:00:00:02", ethernet.src().to_string());
    assert_eq!(EtherTypes::Ipv4(), ethernet.ether_type());
}

#[test]
fn reset_reparse_ethernet_packet() {
    let packet = RawPacket::from_bytes(&UDP_PACKET).unwrap();
    let ethernet = parse::<Ethernet>(packet).unwrap();
    let reset = reset(ethernet);
    let reset_ethernet = parse::<Ethernet>(reset).unwrap();

    assert_eq!("00:00:00:00:00:01", reset_ethernet.dst().to_string());
    assert_eq!("00:00:00:00:00:02", reset_ethernet.src().to_string());
    assert_eq!(EtherTypes::Ipv4(), reset_ethernet.ether_type());
}

#[test]
fn swap_addresses() {
    let packet = RawPacket::from_bytes(&UDP_PACKET).unwrap();
    let mut ethernet = parse::<Ethernet>(packet).unwrap();
    ethernet.swap_addresses();

    assert_eq!("00:00:00:00:00:02", ethernet.dst().to_string());
    assert_eq!("00:00:00:00:00:01", ethernet.src().to_string());
}

#[test]
fn push_ethernet_packet() {
    let packet = RawPacket::new().unwrap();
    let ethernet = push::<Ethernet>(packet).unwrap();

    assert_eq!(EthernetHeader::size(), ethernet.len());
}

#[test]
fn ethernet_to_string() {
    let packet = RawPacket::from_bytes(&UDP_PACKET).unwrap();
    let ethernet = parse::<Ethernet>(packet).unwrap();
    assert_eq!("00:00:00:00:00:02 > 00:00:00:00:00:01, ether_type: IPv4", ethernet.to_string());
}

#[test]
fn parse_too_short_ethernet_packet() {
    let packet = RawPacket::from_bytes(&UDP_PACKET[..10]).unwrap();
    assert!(parse::<Ethernet>(packet).is_err());
}

#[test]
fn mac_addr_text_reads_back() {
    for octets in [[0u8, 0, 0, 0, 0, 0], [0xff; 6], [0x12, 0x34, 0x56, 0xab, 0xcd, 0xef], [1, 2, 3, 4, 5, 6]] {
        let mac = MacAddr::new(octets[0], octets[1], octets[2], octets[3], octets[4], octets[5]);
        let back = MacAddr::from_str(&mac.to_string()).unwrap();
        assert_eq!(mac, back);
    }
}
