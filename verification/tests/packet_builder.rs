use netbricks::packets::ethernet::MacAddr;
use netbricks::packets::ip::{Ipv6Addr, ProtocolNumbers};
use netbricks::packets::{reset, Packet, ParsedPacket};
use netbricks::testing::packet::{v6_tcp_packet, V6TcpFields};

fn fields() -> V6TcpFields {
    V6TcpFields {
        eth_src: MacAddr::new(0, 0, 0, 0, 0, 1),
        eth_dst: MacAddr::new(0, 0, 0, 0, 0, 2),
        ipv6_src: Ipv6Addr([0xfe80, 0, 0, 0, 0, 0, 0, 1]),
        ipv6_dst: Ipv6Addr([0xfe80, 0, 0, 0, 0, 0, 0, 2]),
        ipv6_ecn: 1,
        ipv6_dscp: 10,
        ipv6_flow_label: 0x12345,
        ipv6_hop_limit: 64,
        tcp_src_port: 1234,
        tcp_dst_port: 80,
        tcp_seq_no: 7,
        tcp_ack_no: 9,
        tcp_window: 1024,
        tcp_urgent_pointer: 3,
        tcp_ns: true,
        tcp_cwr: false,
        tcp_ece: true,
        tcp_urg: false,
        tcp_ack: true,
        tcp_psh: false,
        tcp_rst: false,
        tcp_syn: true,
        tcp_fin: false,
    }
}

#[test]
fn v6_tcp_packet_carries_every_field() {
    let tcp = v6_tcp_packet(&fields());
    assert_eq!(1234, tcp.src_port());
    assert_eq!(80, tcp.dst_port());
    assert_eq!(7, tcp.seq_no());
    assert_eq!(9, tcp.ack_no());
    assert_eq!(1024, tcp.window());
    assert_eq!(3, tcp.urgent_pointer());
    assert_eq!(5, tcp.data_offset());
    assert!(tcp.ns() && !tcp.cwr() && tcp.ece() && !tcp.urg() && tcp.ack());
    assert!(!tcp.psh() && !tcp.rst() && tcp.syn() && !tcp.fin());
    let ipv6 = tcp.envelope();
    assert_eq!(Ipv6Addr([0xfe80, 0, 0, 0, 0, 0, 0, 1]), ipv6.src());
    assert_eq!(Ipv6Addr([0xfe80, 0, 0, 0, 0, 0, 0, 2]), ipv6.dst());
    assert_eq!(1, ipv6.ecn());
    assert_eq!(10, ipv6.dscp());
    assert_eq!(0x12345, ipv6.flow_label());
    assert_eq!(64, ipv6.hop_limit());
    assert_eq!(ProtocolNumbers::Tcp(), ipv6.next_header());
    // the length and checksum fields wait for the cascade
    assert_eq!(0, ipv6.payload_length());
    assert_eq!(0, tcp.checksum());
    let ethernet = ipv6.envelope();
    assert_eq!(MacAddr::new(0, 0, 0, 0, 0, 1), ethernet.src());
    assert_eq!(MacAddr::new(0, 0, 0, 0, 0, 2), ethernet.dst());
    assert_eq!(0x86DD, ethernet.ether_type().0);
}

#[test]
fn v6_tcp_packet_masks_wide_values() {
    let mut f = fields();
    f.ipv6_ecn = 0xff;
    f.ipv6_dscp = 0xff;
    f.ipv6_flow_label = 0xffff_ffff;
    let tcp = v6_tcp_packet(&f);
    let ipv6 = tcp.envelope();
    assert_eq!(3, ipv6.ecn());
    assert_eq!(0x3f, ipv6.dscp());
    assert_eq!(0xfffff, ipv6.flow_label());
}

#[test]
fn v6_tcp_packet_is_74_bytes() {
    let mut tcp = v6_tcp_packet(&fields());
    tcp.cascade();
    assert_eq!(20, tcp.envelope().payload_length());
    assert_ne!(0, tcp.checksum());
    let raw = reset(tcp);
    assert_eq!(74, raw.len());
}
