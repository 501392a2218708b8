use netbricks::packets::buffer::{allocate, dealloc, read_item, read_slice, trim, write_item, write_slice};
use netbricks::packets::mbuf::MBuf;

const BUFFER: [u8; 16] = [1, 2, 3, 4, 5, 6, 7, 8, 9, 10, 11, 12, 13, 14, 15, 16];

fn bytes(mbuf: &MBuf, offset: usize, len: usize) -> Vec<u8> {
    mbuf.read_bytes(offset, len)
}

#[test]
fn alloc_buffer_tail() {
    let mut mbuf = MBuf::new();
    assert!(allocate(&mut mbuf, 0, 16).is_ok());
    assert_eq!(16, mbuf.data_len());

    let _ = write_slice(&mut mbuf, 0, &BUFFER);

    assert!(allocate(&mut mbuf, 16, 8).is_ok());
    assert_eq!(24, mbuf.data_len());
    assert!(read_slice::<u8>(&mbuf, 0, 24).is_ok());
    let slice = bytes(&mbuf, 0, 24);

    // data untouched
    assert_eq!(BUFFER[..], slice[..16]);
}

#[test]
fn alloc_buffer_middle() {
    let mut mbuf = MBuf::new();
    let _ = allocate(&mut mbuf, 0, 16);
    let _ = write_slice(&mut mbuf, 0, &BUFFER);

    // alloc in the middle
    assert!(allocate(&mut mbuf, 4, 8).is_ok());
    assert_eq!(24, mbuf.data_len());
    let slice = bytes(&mbuf, 0, 24);

    // [0..4] untouched
    assert_eq!(BUFFER[..4], slice[..4]);
    // [4..12] untouched, this is the 'new' memory
    assert_eq!(BUFFER[4..12], slice[4..12]);
    // copied [4..16] to [12..24]
    assert_eq!(BUFFER[4..], slice[12..24]);
}

#[test]
fn alloc_too_much() {
    let mut mbuf = MBuf::new();
    assert!(allocate(&mut mbuf, 0, 999999).is_err());
}

#[test]
fn dealloc_buffer_tail() {
    let mut mbuf = MBuf::new();
    let _ = allocate(&mut mbuf, 0, 16);
    let _ = write_slice(&mut mbuf, 0, &BUFFER);

    assert!(dealloc(&mut mbuf, 8, 8).is_ok());
    assert_eq!(8, mbuf.data_len());
    let slice = bytes(&mbuf, 0, 8);

    assert_eq!(BUFFER[..8], slice[..8]);
}

#[test]
fn dealloc_buffer_middle() {
    let mut mbuf = MBuf::new();
    let _ = allocate(&mut mbuf, 0, 16);
    let _ = write_slice(&mut mbuf, 0, &BUFFER);

    assert!(dealloc(&mut mbuf, 4, 8).is_ok());
    assert_eq!(8, mbuf.data_len());
    let slice = bytes(&mbuf, 0, 8);

    // removed [4..12]
    assert_eq!(BUFFER[..4], slice[..4]);
    assert_eq!(BUFFER[12..], slice[4..]);
}

#[test]
fn dealloc_too_much() {
    let mut mbuf = MBuf::new();
    assert!(allocate(&mut mbuf, 0, 200).is_ok());
    assert!(dealloc(&mut mbuf, 150, 100).is_err());
}

#[test]
fn trim_buffer() {
    let mut mbuf = MBuf::new();
    let _ = allocate(&mut mbuf, 0, 16);
    let _ = write_slice(&mut mbuf, 0, &BUFFER);

    assert!(trim(&mut mbuf, 8).is_ok());
    assert_eq!(8, mbuf.data_len());
    let slice = bytes(&mbuf, 0, 8);

    assert_eq!(BUFFER[..8], slice[..8]);
}

#[test]
fn read_write_item() {
    let mut mbuf = MBuf::new();
    let _ = allocate(&mut mbuf, 0, 20);
    let _ = write_item::<[u8; 16]>(&mut mbuf, 0, &BUFFER);
    assert!(read_item::<[u8; 16]>(&mbuf, 0).is_ok());
    assert_eq!(BUFFER.to_vec(), bytes(&mbuf, 0, 16));

    // read from the wrong offset should return junk
    assert!(read_item::<[u8; 16]>(&mbuf, 2).is_ok());
    assert!(BUFFER.to_vec() != bytes(&mbuf, 2, 16));

    // read exceeds buffer should err
    assert!(read_item::<[u8; 16]>(&mbuf, 10).is_err());
}

#[test]
fn read_write_slice() {
    let mut mbuf = MBuf::new();
    let _ = allocate(&mut mbuf, 0, 20);
    let _ = write_slice(&mut mbuf, 0, &BUFFER);
    assert!(read_slice::<u8>(&mbuf, 0, 16).is_ok());
    assert_eq!(BUFFER.to_vec(), bytes(&mbuf, 0, 16));

    // read from the wrong offset should return junk
    assert!(read_slice::<u8>(&mbuf, 2, 16).is_ok());
    assert!(BUFFER.to_vec() != bytes(&mbuf, 2, 16));

    // read exceeds buffer should err
    assert!(read_slice::<u8>(&mbuf, 10, 16).is_err());
}
