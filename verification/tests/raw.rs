use netbricks::packets::raw::RawPacket;
use netbricks::packets::Packet;

const UDP_PACKET: [u8; 52] = [
    0x00, 0x00, 0x00, 0x00, 0x00, 0x01, 0x00, 0x00, 0x00, 0x00, 0x00, 0x02, 0x08, 0x00, 0x45, 0x00,
    0x00, 0x26, 0xab, 0x49, 0x40, 0x00, 0xff, 0x11, 0xf7, 0x00, 0x8b, 0x85, 0xd9, 0x6e, 0x8b, 0x85,
    0xe9, 0x02, 0x99, 0xd0, 0x04, 0x3f, 0x00, 0x12, 0x72, 0x28, 0x68, 0x65, 0x6c, 0x6c, 0x6f, 0x68,
    0x65, 0x6c, 0x6c, 0x6f,
];

#[test]
fn new_raw_packet() {
    assert!(RawPacket::new().is_ok());
}

#[test]
fn raw_packet_from_bytes() {
    assert!(RawPacket::from_bytes(&UDP_PACKET).is_ok());
}

#[test]
fn raw_packet_holds_the_bytes() {
    let packet = RawPacket::from_bytes(&UDP_PACKET).unwrap();
    assert_eq!(52, packet.len());
    assert_eq!(UDP_PACKET.to_vec(), packet.mbuf().read_bytes(0, 52));
}

#[test]
fn raw_packet_too_large() {
    let big = vec![0u8; 2049];
    assert!(RawPacket::from_bytes(&big).is_err());
    let fits = vec![0u8; 2048];
    assert!(RawPacket::from_bytes(&fits).is_ok());
}
