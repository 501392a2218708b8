use netbricks::packets::ethernet::{Ethernet, MacAddr};
use netbricks::packets::icmp::v6::ndp::neighbor_advert::NeighborAdvertisement;
use netbricks::packets::icmp::v6::ndp::option_values::{
    Mtu, PrefixInformation, SourceLinkLayerAddress, TargetLinkLayerAddress,
};
use netbricks::packets::icmp::v6::ndp::options::{MtuFields, NdpOption, NdpOptionsIterator, PrefixInformationFields};
use netbricks::packets::icmp::v6::ndp::router_solicit::RouterSolicitation;
use netbricks::packets::icmp::v6::ndp::NdpPacket;
use netbricks::packets::icmp::v6::too_big::PacketTooBig;
use netbricks::packets::icmp::v6::{Icmpv6, Icmpv6Packet, Icmpv6Type, Icmpv6Types};
use netbricks::packets::ip::v6::Ipv6;
use netbricks::packets::ip::Ipv6Addr;
use netbricks::packets::mbuf::MBuf;
use netbricks::packets::raw::RawPacket;
use netbricks::packets::{buffer, parse, Fixed, Packet, ParsedPacket};

const ICMPV6_PACKET: [u8; 62] = [
    // ** ethernet header
    0x00, 0x00, 0x00, 0x00, 0x00, 0x01,
    0x00, 0x00, 0x00, 0x00, 0x00, 0x02,
    0x86, 0xDD,
    // ** IPv6 header
    0x60, 0x00, 0x00, 0x00,
    // payload length
    0x00, 0x08,
    0x3a,
    0xff,
    0xfe, 0x80, 0x00, 0x00, 0x00, 0x00, 0x00, 0x00, 0xd4, 0xf0, 0x45, 0xff, 0xfe, 0x0c, 0x66, 0x4b,
    0xff, 0x02, 0x00, 0x00, 0x00, 0x00, 0x00, 0x00, 0x00, 0x00, 0x00, 0x00, 0x00, 0x00, 0x00, 0x01,
    // ** ICMPv6 header
    // type
    0x81,
    // code
    0x00,
    // checksum
    0xf5, 0x0c,
    // ** echo request
    0x00, 0x00, 0x00, 0x00,
];

const ROUTER_SOLICIT_PACKET: [u8; 70] = [
    // ** ethernet header
    0x00, 0x00, 0x00, 0x00, 0x00, 0x01,
    0x00, 0x00, 0x00, 0x00, 0x00, 0x02,
    0x86, 0xDD,
    // ** IPv6 header
    0x60, 0x00, 0x00, 0x00,
    // payload length
    0x00, 0x10,
    0x3a,
    0xff,
    0xfe, 0x80, 0x00, 0x00, 0x00, 0x00, 0x00, 0x00, 0xd4, 0xf0, 0x45, 0xff, 0xfe, 0x0c, 0x66, 0x4b,
    0xff, 0x02, 0x00, 0x00, 0x00, 0x00, 0x00, 0x00, 0x00, 0x00, 0x00, 0x00, 0x00, 0x00, 0x00, 0x01,
    // ** ICMPv6 header
    // type
    0x85,
    // code
    0x00,
    // checksum
    0xf5, 0x0c,
    // ** router solicitation message
    // reserved
    0x00, 0x00, 0x00, 0x00,
    // ** source link-layer address option
    0x01, 0x01, 0x70, 0x3a, 0xcb, 0x1b, 0xf9, 0x7a,
];

fn ipv6_of(bytes: &[u8]) -> Ipv6 {
    let packet = RawPacket::from_bytes(bytes).unwrap();
    let ethernet = parse::<Ethernet>(packet).unwrap();
    parse::<Ipv6>(ethernet).unwrap()
}

#[test]
fn parse_icmpv6_packet() {
    let ipv6 = ipv6_of(&ICMPV6_PACKET);
    let icmpv6 = parse::<Icmpv6<Ipv6, ()>>(ipv6).unwrap();

    assert_eq!(Icmpv6Type::new(0x81), icmpv6.msg_type());
    assert_eq!(0, icmpv6.code());
    assert_eq!(0xf50c, icmpv6.checksum());
    assert_eq!("type: 129, code: 0, checksum: 0xf50c", icmpv6.to_string());
}

#[test]
fn size_of_router_solicitation() {
    assert_eq!(4, RouterSolicitation::size());
}

#[test]
fn parse_router_solicitation_packet() {
    let ipv6 = ipv6_of(&ROUTER_SOLICIT_PACKET);
    let icmpv6 = parse::<Icmpv6<Ipv6, ()>>(ipv6).unwrap();
    assert_eq!(Icmpv6Types::RouterSolicitation(), icmpv6.msg_type());
    let solicit = icmpv6.downcast::<RouterSolicitation>().unwrap();
    assert_eq!(Icmpv6Types::RouterSolicitation(), solicit.msg_type());
    assert_eq!(0, solicit.reserved());
}

#[test]
fn router_solicitation_options() {
    let ipv6 = ipv6_of(&ROUTER_SOLICIT_PACKET);
    let solicit = parse::<Icmpv6<Ipv6, RouterSolicitation>>(ipv6).unwrap();
    let mut iter = solicit.options();
    match iter.next() {
        Ok(Some(NdpOption::SourceLinkLayerAddress(option))) => {
            assert_eq!(1, option.option_type());
            assert_eq!(1, option.length());
            assert_eq!(MacAddr::new(0x70, 0x3a, 0xcb, 0x1b, 0xf9, 0x7a), option.addr());
            assert_eq!(62, option.offset());
        }
        _ => panic!("bad option"),
    }
    // at the end of the buffer the next read runs out
    assert!(iter.next().is_err());
}

#[test]
fn size_of_packet_too_big() {
    assert_eq!(4, PacketTooBig::size());
}

#[test]
fn size_of_neighbor_advertisement() {
    assert_eq!(20, NeighborAdvertisement::size());
}

#[test]
fn size_of_mtu() {
    assert_eq!(8, MtuFields::size());
}

#[test]
fn size_of_prefix_information() {
    assert_eq!(32, PrefixInformationFields::size());
}

#[test]
fn icmpv6_type_to_string() {
    assert_eq!("Packet Too Big", Icmpv6Types::PacketTooBig().to_string());
    assert_eq!("Router Solicitation", Icmpv6Types::RouterSolicitation().to_string());
    assert_eq!("Router Advertisement", Icmpv6Types::RouterAdvertisement().to_string());
    assert_eq!("Neighbor Solicitation", Icmpv6Types::NeighborSolicitation().to_string());
    assert_eq!("Neighbor Advertisement", Icmpv6Types::NeighborAdvertisement().to_string());
    assert_eq!("Redirect", Icmpv6Types::Redirect().to_string());
    assert_eq!("129", Icmpv6Type::new(129).to_string());
}

#[test]
fn source_link_layer_address() {
    let mut opt: SourceLinkLayerAddress = Default::default();
    assert_eq!(1, opt.length());
    let addr = MacAddr::new(1, 1, 1, 1, 1, 1);
    opt.set_addr(addr);
    assert_eq!(addr, opt.addr());
}

#[test]
fn target_link_layer_address() {
    let mut opt: TargetLinkLayerAddress = Default::default();
    assert_eq!(1, opt.length());
    let addr = MacAddr::new(1, 1, 1, 1, 1, 1);
    opt.set_addr(addr);
    assert_eq!(addr, opt.addr());
}

#[test]
fn prefix_information() {
    let mut opt: PrefixInformation = Default::default();

    assert_eq!(4, opt.length());

    let prefix = Ipv6Addr([1, 1, 1, 1, 1, 1, 1, 1]);

    opt.set_prefix_length(7);
    opt.set_on_link();
    opt.set_autonomous();
    opt.set_valid_lifetime(1000);
    opt.set_preferred_lifetime(2000);
    opt.set_prefix(prefix);

    assert_eq!(7, opt.prefix_length());
    assert!(opt.on_link());
    assert!(opt.autonomous());
    assert_eq!(1000, opt.valid_lifetime());
    assert_eq!(2000, opt.preferred_lifetime());
    assert_eq!(prefix, opt.prefix());
}

#[test]
fn mtu() {
    let mut opt: Mtu = Default::default();

    assert_eq!(1, opt.length());

    opt.set_mtu(1500);
    assert_eq!(1500, opt.mtu());
}

fn buffer_with(bytes: &[u8]) -> MBuf {
    let mut mbuf = MBuf::new();
    buffer::allocate(&mut mbuf, 0, bytes.len()).unwrap();
    buffer::write_slice(&mut mbuf, 0, bytes).unwrap();
    mbuf
}

#[test]
fn invalid_ndp_option_length() {
    let mbuf = buffer_with(&[0x05, 0x08, 0x00, 0x00, 0x00, 0x00, 0x05, 0xdc]);
    let mut iter = NdpOptionsIterator::new(&mbuf, 0);
    assert!(iter.next().is_err());
}

#[test]
fn zero_length_ndp_option() {
    let mbuf = buffer_with(&[0x05, 0x00, 0x00, 0x00, 0x00, 0x00, 0x05, 0xdc]);
    let mut iter = NdpOptionsIterator::new(&mbuf, 0);
    assert!(iter.next().is_err());
}

#[test]
fn undefined_ndp_option() {
    let mbuf = buffer_with(&[
        0x07, 0x01, 0x00, 0x00, 0x00, 0x00, 0x05, 0xdc, 0x05, 0x01, 0x00, 0x00, 0x00, 0x00, 0x05, 0xdc,
    ]);
    let mut iter = NdpOptionsIterator::new(&mbuf, 0);
    let mut undefined = false;
    let mut mtu = 0;
    while let Ok(Some(option)) = iter.next() {
        match option {
            NdpOption::Undefined(option_type, length) => {
                assert_eq!(7, option_type);
                assert_eq!(1, length);
                undefined = true;
            }
            NdpOption::Mtu(m) => {
                mtu = m.mtu();
                assert_eq!(8, m.offset());
                assert_eq!(5, m.option_type());
            }
            _ => {}
        }
    }
    assert!(undefined);
    assert_eq!(1500, mtu);
}

#[test]
fn parsed_mtu_set_mtu() {
    let mut bytes = ROUTER_SOLICIT_PACKET.to_vec();
    // the option becomes an MTU option of 1280
    bytes[62..70].copy_from_slice(&[0x05, 0x01, 0x00, 0x00, 0x00, 0x00, 0x05, 0x00]);
    let ipv6 = ipv6_of(&bytes);
    let mut solicit = parse::<Icmpv6<Ipv6, RouterSolicitation>>(ipv6).unwrap();
    let mut option = match solicit.options().next() {
        Ok(Some(NdpOption::Mtu(m))) => m,
        _ => panic!("bad option"),
    };
    assert_eq!(1280, option.mtu());
    option.set_mtu(&mut solicit, 1500);
    assert_eq!(1500, option.mtu());
    match solicit.options().next() {
        Ok(Some(NdpOption::Mtu(m))) => assert_eq!(1500, m.mtu()),
        _ => panic!("bad option"),
    }
}

#[test]
fn packet_too_big_mtu() {
    let mut bytes = ICMPV6_PACKET.to_vec();
    bytes[54] = 2;
    let ipv6 = ipv6_of(&bytes);
    let mut too_big = parse::<Icmpv6<Ipv6, PacketTooBig>>(ipv6).unwrap();
    assert_eq!(0, too_big.mtu());
    too_big.set_mtu(1280);
    assert_eq!(1280, too_big.mtu());
    assert_eq!("type: Packet Too Big code: 0 checksum: 0xf50c mtu: 1280", too_big.to_string());
}

#[test]
fn neighbor_advertisement_fields() {
    let mut bytes = ICMPV6_PACKET.to_vec();
    bytes[54] = 136;
    bytes.extend_from_slice(&[0u8; 16]);
    let ipv6 = ipv6_of(&bytes);
    let mut advert = parse::<Icmpv6<Ipv6, NeighborAdvertisement>>(ipv6).unwrap();
    assert!(!advert.router() && !advert.solicited() && !advert.override_flag());
    advert.set_router();
    advert.set_override();
    assert!(advert.router() && !advert.solicited() && advert.override_flag());
    advert.unset_router();
    assert!(!advert.router());
    let target = Ipv6Addr([0xfe80, 0, 0, 0, 0, 0, 0, 1]);
    advert.set_target_addr(target);
    assert_eq!(target, advert.target_addr());
}

#[test]
fn too_short_payload_is_refused() {
    let ipv6 = ipv6_of(&ICMPV6_PACKET);
    assert!(parse::<Icmpv6<Ipv6, NeighborAdvertisement>>(ipv6).is_err());
}

#[test]
fn icmpv6_cascade_sets_ipv6_payload_length() {
    let mut bytes = ICMPV6_PACKET;
    // a payload length that does not match the eight bytes that follow
    bytes[18] = 0x01;
    bytes[19] = 0x23;
    let ipv6 = ipv6_of(&bytes);
    assert_eq!(0x0123, ipv6.payload_length());
    let mut icmpv6 = parse::<Icmpv6<Ipv6, ()>>(ipv6).unwrap();
    icmpv6.cascade();
    let ipv6 = icmpv6.deparse();
    assert_eq!(8, ipv6.payload_length());
}
