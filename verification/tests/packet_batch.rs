use netbricks::packet_batch::iterator::{parsed_descriptor, PacketDescriptor};
use netbricks::packet_batch::packet_batch::PacketBatch;

fn parent(payload_size: usize) -> PacketDescriptor {
    PacketDescriptor { offset: 14, header: 0, payload: 14, payload_size }
}

#[test]
fn parsed_descriptor_keeps_a_reported_size_that_fits() {
    let d = parsed_descriptor(parent(100), 20, 30);
    assert_eq!(14, d.header);
    assert_eq!(34, d.offset);
    assert_eq!(34, d.payload);
    assert_eq!(30, d.payload_size);
}

#[test]
fn parsed_descriptor_cuts_a_reported_size_to_the_parent() {
    let d = parsed_descriptor(parent(100), 20, 500);
    assert_eq!(80, d.payload_size);
}

#[test]
fn parsed_descriptor_header_past_the_payload_leaves_none() {
    let d = parsed_descriptor(parent(10), 20, 500);
    assert_eq!(34, d.offset);
    assert_eq!(0, d.payload_size);
}

#[test]
fn drop_packets_stable_keeps_order() {
    let mut batch = PacketBatch::new(5);
    assert!(batch.allocate_batch_with_size(60).is_ok());
    assert_eq!(5, batch.available());
    assert_eq!(Some(2), batch.drop_packets_stable(&vec![1, 3]));
    assert_eq!(3, batch.available());
    assert_eq!(Some(0), batch.drop_packets_stable(&vec![]));
    assert_eq!(None, batch.drop_packets_stable(&vec![0, 7]));
    assert_eq!(3, batch.available());
}
