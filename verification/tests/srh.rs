use netbricks::packets::ethernet::Ethernet;
use netbricks::packets::ip::v6::srh::{Segment, SegmentRouting, SegmentRoutingHeader};
use netbricks::packets::ip::v6::Ipv6;
use netbricks::packets::ip::{IpAddr, IpPacket, Ipv6Addr, ProtocolNumbers};
use netbricks::packets::raw::RawPacket;
use netbricks::packets::tcp::Tcp;
use netbricks::packets::{parse, push, Fixed, Packet, ParsedPacket};

const SRH_PACKET: [u8; 170] = [
    // ** ethernet header
    0x00, 0x00, 0x00, 0x00, 0x00, 0x01,
    0x00, 0x00, 0x00, 0x00, 0x00, 0x02,
    0x86, 0xDD,
    // ** IPv6 Header
    0x60, 0x00, 0x00, 0x00,
    // payload length
    0x00, 0x74,
    // next header (routing)
    0x2b,
    0x02,
    0x20, 0x01, 0x0d, 0xb8, 0x85, 0xa3, 0x00, 0x00, 0x00, 0x00, 0x00, 0x00, 0x00, 0x00, 0x00, 0x01,
    0x20, 0x01, 0x0d, 0xb8, 0x85, 0xa3, 0x00, 0x00, 0x00, 0x00, 0x8a, 0x2e, 0x03, 0x70, 0x73, 0x34,
    // ** SRv6 header
    // next header (tcp)
    0x06,
    // hdr ext len (3 segments, units of 8 octets)
    0x06,
    // routing type
    0x04,
    // segments left
    0x00,
    // last entry
    0x02,
    // flags
    0x00,
    // tag
    0x00, 0x00,
    // segments[0] 2001:0db8:85a3:0000:0000:8a2e:0370:7333
    0x20, 0x01, 0x0d, 0xb8, 0x85, 0xa3, 0x00, 0x00, 0x00, 0x00, 0x8a, 0x2e, 0x03, 0x70, 0x73, 0x33,
    // segments[1] 2001:0db8:85a3:0000:0000:8a2e:0370:7334
    0x20, 0x01, 0x0d, 0xb8, 0x85, 0xa3, 0x00, 0x00, 0x00, 0x00, 0x8a, 0x2e, 0x03, 0x70, 0x73, 0x34,
    // segments[2] 2001:0db8:85a3:0000:0000:8a2e:0370:7335
    0x20, 0x01, 0x0d, 0xb8, 0x85, 0xa3, 0x00, 0x00, 0x00, 0x00, 0x8a, 0x2e, 0x03, 0x70, 0x73, 0x35,
    // ** TCP header
    0x0d, 0x88,
    0x04, 0x00,
    0x00, 0x00, 0x00, 0x00,
    0x00, 0x00, 0x00, 0x00,
    0x50, 0x02,
    0x00, 0x0a,
    0x00, 0x00,
    0x00, 0x00,
    // payload
    0x00, 0x00, 0x00, 0x00, 0x00, 0x00, 0x00, 0x00, 0x00, 0x00, 0x00, 0x00, 0x00, 0x00, 0x00, 0x00,
    0x00, 0x00, 0x00, 0x00, 0x00, 0x00, 0x00, 0x00, 0x00, 0x00, 0x00, 0x00, 0x00, 0x00, 0x00, 0x00,
    0x00, 0x00, 0x00, 0x00, 0x00, 0x00, 0x00, 0x07,
];

const IPV6_PACKET: [u8; 78] = [
    0x00, 0x00, 0x00, 0x00, 0x00, 0x01, 0x00, 0x00, 0x00, 0x00, 0x00, 0x02, 0x86, 0xDD,
    0x60, 0x00, 0x00, 0x00, 0x00, 0x18, 0x11, 0x02,
    0x20, 0x01, 0x0d, 0xb8, 0x85, 0xa3, 0x00, 0x00, 0x00, 0x00, 0x00, 0x00, 0x00, 0x00, 0x00, 0x01,
    0x20, 0x01, 0x0d, 0xb8, 0x85, 0xa3, 0x00, 0x00, 0x00, 0x00, 0x8a, 0x2e, 0x03, 0x70, 0x73, 0x34,
    0x90, 0x05, 0x00, 0x17, 0x72, 0x14, 0xf1, 0x14, 0x00, 0x00, 0x00, 0x00, 0x60, 0x02,
    0x22, 0x38, 0xa9, 0x2c, 0x00, 0x00, 0x02, 0x04, 0x05, 0xb4,
];

fn segment(last: u16) -> Segment {
    Ipv6Addr([0, 0, 0, 0, 0, 0, 0, last])
}

fn parsed_srh() -> SegmentRouting<Ipv6> {
    let packet = RawPacket::from_bytes(&SRH_PACKET).unwrap();
    let ethernet = parse::<Ethernet>(packet).unwrap();
    let ipv6 = parse::<Ipv6>(ethernet).unwrap();
    parse::<SegmentRouting<Ipv6>>(ipv6).unwrap()
}

#[test]
fn size_of_segment_routing_header() {
    assert_eq!(8, SegmentRoutingHeader::size());
}

#[test]
fn parse_segment_routing_packet() {
    let srh = parsed_srh();

    assert_eq!(ProtocolNumbers::Tcp(), srh.next_header());
    assert_eq!(6, srh.hdr_ext_len());
    assert_eq!(4, srh.routing_type());
    assert_eq!(0, srh.segments_left());
    assert_eq!(2, srh.last_entry());
    assert_eq!(0, srh.flags());
    assert_eq!(0, srh.tag());

    let segments = srh.segments();
    assert_eq!(3, segments.len());
    assert_eq!("2001:db8:85a3::8a2e:370:7333", segments[0].to_string());
    assert_eq!("2001:db8:85a3::8a2e:370:7334", segments[1].to_string());
    assert_eq!("2001:db8:85a3::8a2e:370:7335", segments[2].to_string());
}

#[test]
fn set_segments() {
    let mut srh = parsed_srh();

    let segment1: Segment = segment(1);

    assert!(srh.set_segments(&[segment1]).is_ok());
    assert_eq!(2, srh.hdr_ext_len());
    assert_eq!(0, srh.last_entry());
    assert_eq!(1, srh.segments().len());
    assert_eq!(segment1, srh.segments()[0]);

    let segment2: Segment = segment(2);
    let segment3: Segment = segment(3);
    let segment4: Segment = segment(4);

    assert!(srh.set_segments(&[segment1, segment2, segment3, segment4]).is_ok());
    assert_eq!(8, srh.hdr_ext_len());
    assert_eq!(3, srh.last_entry());
    assert_eq!(4, srh.segments().len());
    assert_eq!(segment1, srh.segments()[0]);
    assert_eq!(segment2, srh.segments()[1]);
    assert_eq!(segment3, srh.segments()[2]);
    assert_eq!(segment4, srh.segments()[3]);
    assert!(srh.set_segments(&[]).is_err());

    // make sure rest of the packet still valid
    let tcp = parse::<Tcp<SegmentRouting<Ipv6>>>(srh).unwrap();
    assert_eq!(3464, tcp.src_port())
}

#[test]
fn check_checksum() {
    let mut srh = parsed_srh();

    let segment1: Segment = segment(1);
    let segment2: Segment = segment(2);
    let segment3: Segment = segment(3);
    let segment4: Segment = segment(4);

    assert!(srh.set_segments(&[segment1, segment2, segment3, segment4]).is_ok());
    assert_eq!(4, srh.segments().len());
    srh.set_segments_left(3);

    let mut tcp = parse::<Tcp<SegmentRouting<Ipv6>>>(srh).unwrap();

    // Should pass as we're using the hard-coded (and wrong) initial
    // checksum, as it's 0 given above.
    assert_eq!(0, tcp.checksum());

    tcp.cascade();
    let expected = tcp.checksum();

    // our checksum should now be calculated correctly & no longer be 0
    assert_ne!(expected, 0);

    // Let's update the segments list to make sure the last checksum
    // computed matches what happens when it's the last (and only)
    // segment in the list.
    let mut srh_ret = tcp.deparse();
    assert!(srh_ret.set_segments(&[segment1]).is_ok());
    assert_eq!(1, srh_ret.segments().len());
    srh_ret.set_segments_left(1);

    let mut tcp_ret = parse::<Tcp<SegmentRouting<Ipv6>>>(srh_ret).unwrap();
    tcp_ret.cascade();
    assert_eq!(expected, tcp_ret.checksum());

    // Let's make sure that if segments left is 0, then our checksum
    // is still the same segment.
    let mut srh_fin = tcp_ret.deparse();
    srh_fin.set_segments_left(0);
    let mut tcp_fin = parse::<Tcp<SegmentRouting<Ipv6>>>(srh_fin).unwrap();
    tcp_fin.cascade();
    assert_eq!(expected, tcp_fin.checksum());
}

#[test]
fn insert_segment_routing_packet() {
    let packet = RawPacket::from_bytes(&IPV6_PACKET).unwrap();
    let ethernet = parse::<Ethernet>(packet).unwrap();
    let ipv6 = parse::<Ipv6>(ethernet).unwrap();
    let ipv6_payload_len = ipv6.payload_len();
    let srh = push::<SegmentRouting<Ipv6>>(ipv6).unwrap();

    assert_eq!(2, srh.hdr_ext_len());
    assert_eq!(1, srh.segments().len());
    assert_eq!(4, srh.routing_type());

    // ipv6 payload is srh payload after push
    assert_eq!(ipv6_payload_len, srh.payload_len());
    // make sure rest of the packet still valid
    let tcp = parse::<Tcp<SegmentRouting<Ipv6>>>(srh).unwrap();
    assert_eq!(36869, tcp.src_port());

    let mut srh = tcp.deparse();
    let srh_packet_len = srh.len();
    srh.cascade();
    let ipv6 = srh.deparse();
    assert_eq!(srh_packet_len, ipv6.payload_length() as usize)
}

#[test]
fn remove_segment_routing_packet() {
    let srh = parsed_srh();
    let ipv6 = srh.remove().unwrap();

    // make sure rest of the packet still valid
    let tcp = parse::<Tcp<Ipv6>>(ipv6).unwrap();
    assert_eq!(3464, tcp.src_port());
}

#[test]
fn inconsistent_segment_list_is_refused() {
    let mut bytes = SRH_PACKET;
    bytes[55] = 0x04; // hdr ext len says two segments, last entry says three
    let packet = RawPacket::from_bytes(&bytes).unwrap();
    let ethernet = parse::<Ethernet>(packet).unwrap();
    let ipv6 = parse::<Ipv6>(ethernet).unwrap();
    assert!(parse::<SegmentRouting<Ipv6>>(ipv6).is_err());
}

#[test]
fn srh_destination_is_ipv6_destination() {
    let mut srh = parsed_srh();
    assert_eq!("2001:db8:85a3::8a2e:370:7334", srh.dst().to_string());
    // with no segment left, both the first segment and the IPv6 destination change
    assert!(srh.set_dst(IpAddr::V6(segment(9))).is_ok());
    assert_eq!(segment(9), srh.segments()[0]);
    assert_eq!(3, srh.segments().len());
    assert_eq!("::9", srh.envelope().dst().to_string());
    assert_eq!("::9", srh.dst().to_string());
    // with segments left, only the first segment changes
    srh.set_segments_left(1);
    assert!(srh.set_dst(IpAddr::V6(segment(7))).is_ok());
    assert_eq!(segment(7), srh.segments()[0]);
    assert_eq!("::9", srh.dst().to_string());
    // a v4 destination is refused
    assert!(srh.set_dst(IpAddr::V4(netbricks::packets::ip::Ipv4Addr([1, 2, 3, 4]))).is_err());
}

#[test]
fn srh_to_string() {
    let srh = parsed_srh();
    assert_eq!(
        "next_header: TCP, hdr_ext_len: 6, routing_type: 4, segments_left: 0, last_entry: 2, flags: 0, tag: 0, segments: [2001:db8:85a3::8a2e:370:7333, 2001:db8:85a3::8a2e:370:7334, 2001:db8:85a3::8a2e:370:7335]",
        srh.to_string()
    );
}

#[test]
fn segment_routing_cascade_sets_ipv6_payload_length() {
    let mut bytes = SRH_PACKET;
    // a payload length that does not match the bytes after the IPv6 header
    bytes[18] = 0x00;
    bytes[19] = 0x01;
    let packet = RawPacket::from_bytes(&bytes).unwrap();
    let ethernet = parse::<Ethernet>(packet).unwrap();
    let ipv6 = parse::<Ipv6>(ethernet).unwrap();
    assert_eq!(1, ipv6.payload_length());
    let mut srh = parse::<SegmentRouting<Ipv6>>(ipv6).unwrap();
    srh.cascade();
    let ipv6 = srh.deparse();
    assert_eq!(116, ipv6.payload_length());
}
