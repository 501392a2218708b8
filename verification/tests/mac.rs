use netbricks::packets::mac::{EtherType, EtherTypes, MacAddr, MacHeader};

#[test]
fn str_from_mac_addr() {
    assert_eq!(MacAddr::new(0, 0, 0, 0, 0, 0).to_string(), "00:00:00:00:00:00");
    assert_eq!(MacAddr::new(255, 255, 255, 255, 255, 255).to_string(), "ff:ff:ff:ff:ff:ff");
    assert_eq!(MacAddr::new(0x12, 0x34, 0x56, 0xAB, 0xCD, 0xEF).to_string(), "12:34:56:ab:cd:ef");
}

#[test]
fn str_from_ether_type() {
    assert_eq!(EtherTypes::Ipv4().to_string(), "Ipv4");
    assert_eq!(EtherTypes::Ipv6().to_string(), "Ipv6");
    assert_eq!(EtherType::new(0).to_string(), "0x0000");
}

#[test]
fn str_from_mac_header() {
    assert_eq!(MacHeader::new().to_string(), "00:00:00:00:00:00 > 00:00:00:00:00:00 [0x0000]");
}

#[test]
fn mac_addr_from_slice() {
    let m = MacAddr::new_from_slice(&[1, 2, 3, 4, 5, 6, 7]);
    assert_eq!("01:02:03:04:05:06", m.to_string());
}
