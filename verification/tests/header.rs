use udp::datagram;
use udp::{Header, HEADER_PARTIAL, PROTOCOL_NO};

#[test]
fn header_from_bytes_reads_network_order() {
    let raw = [0x12, 0x34, 0x00, 0x35, 0x00, 0x0c, 0xab, 0xcd, 0xff];
    let h = Header::from_bytes(&raw).unwrap();
    assert_eq!(h.source_port, 0x1234);
    assert_eq!(h.destination_port, 53);
    assert_eq!(h.length, 12);
    assert_eq!(h.checksum, 0xabcd);
}

#[test]
fn header_from_bytes_short_is_partial() {
    assert_eq!(Header::from_bytes(&[0; 7]).unwrap_err(), HEADER_PARTIAL);
    assert_eq!(Header::from_bytes(&[]).unwrap_err(), HEADER_PARTIAL);
}

#[test]
fn header_to_bytes_writes_network_order() {
    let h = Header { source_port: 0x1234, destination_port: 0x5678, length: 0x9abc, checksum: 0xdef0 };
    assert_eq!(h.to_bytes().unwrap(), vec![0x12, 0x34, 0x56, 0x78, 0x9a, 0xbc, 0xde, 0xf0]);
}

#[test]
fn header_roundtrip() {
    let h = Header { source_port: 65535, destination_port: 0, length: 8, checksum: 1 };
    let back = Header::from_bytes(&h.to_bytes().unwrap()).unwrap();
    assert_eq!((back.source_port, back.destination_port, back.length, back.checksum), (65535, 0, 8, 1));
    let raw = [9u8, 8, 7, 6, 5, 4, 3, 2];
    assert_eq!(Header::from_bytes(&raw).unwrap().to_bytes().unwrap(), raw.to_vec());
}

#[test]
fn constants() {
    assert_eq!(PROTOCOL_NO, 17);
    assert_eq!(Header::PACKED_SIZE, 8);
}

#[test]
fn datagram_roundtrip() {
    let payload = [1u8, 2, 3, 4, 5];
    let h = Header { source_port: 1000, destination_port: 2000, length: 13, checksum: 0 };
    let bytes = datagram::to_bytes((h, &payload)).unwrap();
    assert_eq!(bytes, vec![0x03, 0xe8, 0x07, 0xd0, 0x00, 0x0d, 0x00, 0x00, 1, 2, 3, 4, 5]);
    let (h2, p2) = datagram::from_bytes(&bytes).unwrap();
    assert_eq!(h2.length, 13);
    assert_eq!(h2.source_port, 1000);
    assert_eq!(p2, &payload[..]);
}

#[test]
fn datagram_from_bytes_leaves_surplus() {
    let bytes = [0, 1, 0, 2, 0, 10, 0, 0, 0xaa, 0xbb, 0xcc, 0xdd];
    let (h, p) = datagram::from_bytes(&bytes).unwrap();
    assert_eq!(h.length, 10);
    assert_eq!(p, &[0xaa, 0xbb][..]);
}

#[test]
fn datagram_from_bytes_errors() {
    assert_eq!(datagram::from_bytes(&[0; 4]).unwrap_err(), HEADER_PARTIAL);
    let bytes = [0, 1, 0, 2, 0, 20, 0, 0, 1, 2];
    assert_eq!(datagram::from_bytes(&bytes).unwrap_err(), datagram::DATAGRAM_PARTIAL);
}
