use netbricks::packets::checksum::{compute, compute_inc, compute_with_ipaddr};
use netbricks::packets::ip::{IpAddr, Ipv4Addr, Ipv6Addr};

#[test]
fn compute_checksum_incrementally() {
    assert_eq!(0x0000, compute_inc(0xdd2f, &[0x5555], &[0x3285]));
}

#[test]
fn computed_checksum_verifies() {
    // RFC 1071's example sum of 0x0001 0xf203 0xf4f5 0xf6f7 is 0xddf2 after
    // the end-around carry, so the checksum is its complement.
    let data = [0x00u8, 0x01, 0xf2, 0x03, 0xf4, 0xf5, 0xf6, 0xf7];
    assert_eq!(!0xddf2u16, compute(0, &data));
    // with the checksum in place of a zero word, the data sums to all ones
    let c = compute(0, &data);
    let mut with_checksum = data.to_vec();
    with_checksum.push((c >> 8) as u8);
    with_checksum.push((c & 0xff) as u8);
    assert_eq!(0, compute(0, &with_checksum));
}

#[test]
fn incremental_update_matches_recomputation() {
    let data = [0x12u8, 0x34, 0x56, 0x78, 0x9a, 0xbc];
    let c = compute(0x1234, &data);
    let changed = [0x12u8, 0x34, 0xab, 0xcd, 0x9a, 0xbc];
    assert_eq!(compute(0x1234, &changed), compute_inc(c, &[0x5678], &[0xabcd]));
}

#[test]
fn odd_length_pads_with_zero() {
    assert_eq!(compute(0, &[0xab, 0x00]), compute(0, &[0xab]));
}

#[test]
fn checksum_with_mixed_addresses_fails() {
    let v4 = IpAddr::V4(Ipv4Addr([10, 0, 0, 1]));
    let v6 = IpAddr::V6(Ipv6Addr([0, 0, 0, 0, 0, 0, 0, 1]));
    assert!(compute_with_ipaddr(0x1234, &v4, &v6).is_err());
    assert!(compute_with_ipaddr(0x1234, &v6, &v4).is_err());
    assert_eq!(
        Ok(compute_inc(0x1234, &[0x0a00, 0x0001], &[0x0a00, 0x0002])),
        compute_with_ipaddr(0x1234, &v4, &IpAddr::V4(Ipv4Addr([10, 0, 0, 2])))
    );
}
