use udp::v6::{self, PseudoHeader};
use udp::{Header, PROTOCOL_NO};

fn ones_sum(bytes: &[u8]) -> u16 {
    let mut sum: u64 = 0;
    for pair in bytes.chunks(2) {
        let hi = pair[0] as u64;
        let lo = if pair.len() > 1 { pair[1] as u64 } else { 0 };
        sum += hi << 8 | lo;
    }
    while sum > 0xffff {
        sum = (sum & 0xffff) + (sum >> 16);
    }
    !(sum as u16)
}

fn pseudo(next_header: u8) -> PseudoHeader {
    PseudoHeader {
        source_address: 0x2001_0db8_0000_0000_0000_0000_0000_0001,
        destination_address: 0x2001_0db8_0000_0000_0000_0000_0000_0002,
        ul_length: 0,
        next_header,
    }
}

fn header(checksum: u16) -> Header {
    Header { source_port: 5353, destination_port: 5353, length: 0, checksum }
}

#[test]
fn pseudo_header_bytes_v6() {
    let p = pseudo(17);
    let p = PseudoHeader { ul_length: 0x01020304, ..p };
    let bytes = p.to_bytes().unwrap();
    assert_eq!(bytes.len(), 40);
    assert_eq!(&bytes[..2], &[0x20, 0x01]);
    assert_eq!(bytes[31], 2);
    assert_eq!(&bytes[32..], &[1, 2, 3, 4, 0, 0, 0, 17]);
    let q = PseudoHeader::from_bytes(&bytes).unwrap();
    assert_eq!(q.source_address, p.source_address);
    assert_eq!(q.destination_address, p.destination_address);
    assert_eq!(q.ul_length, 0x01020304);
    assert_eq!(q.next_header, 17);
    assert_eq!(PseudoHeader::from_bytes(&bytes[..39]).unwrap_err(), v6::PSEUDO_HEADER_PARTIAL);
    assert_eq!(PseudoHeader::PACKED_SIZE, 40);
}

#[test]
fn make_then_check_v6() {
    for len in [0usize, 3, 64, 999] {
        let payload: Vec<u8> = (0..len).map(|i| (i * 13 % 256) as u8).collect();
        let mut t = (pseudo(PROTOCOL_NO), header(1), &payload[..]);
        assert_eq!(v6::datagram::make(&mut t), Ok(()));
        assert_eq!(t.0.ul_length as usize, len + 8);
        assert_eq!(t.1.length as usize, len + 8);
        let mut all = t.0.to_bytes().unwrap();
        all.extend(t.1.to_bytes().unwrap());
        all.extend_from_slice(&payload);
        assert_eq!(ones_sum(&all), 0);
        assert_eq!(v6::datagram::check(&mut t), Ok(true));
    }
}

#[test]
fn make_computes_mandatory_checksum() {
    let p = PseudoHeader { source_address: 1, destination_address: 2, ul_length: 0, next_header: 17 };
    let h = Header { source_port: 1, destination_port: 2, length: 0, checksum: 0 };
    let payload = [0x01u8];
    let mut t = (p, h, &payload[..]);
    assert_eq!(v6::datagram::make(&mut t), Ok(()));
    assert_eq!(t.0.ul_length, 9);
    assert_eq!(t.1.length, 9);
    assert_eq!(t.1.checksum, 0xfed6);
    assert_eq!(v6::datagram::check(&mut t), Ok(true));
}

#[test]
fn jumbogram_length_is_zero() {
    let payload = vec![0u8; 70000];
    let mut t = (pseudo(PROTOCOL_NO), header(1), &payload[..]);
    assert_eq!(v6::datagram::make(&mut t), Ok(()));
    assert_eq!(t.1.length, 0);
    assert_eq!(t.0.ul_length, 70008);
    assert_eq!(v6::datagram::check(&mut t), Ok(true));
}

#[test]
fn check_errors_v6() {
    let payload = [9u8; 10];
    let mut t = (pseudo(6), header(0), &payload[..]);
    assert_eq!(v6::datagram::check(&mut t), Err(v6::datagram::PROTOCOL_MISMATCH));
    let mut t = (pseudo(PROTOCOL_NO), header(0), &payload[..]);
    assert_eq!(v6::datagram::check(&mut t), Err(v6::datagram::LENGTH_MISMATCH));
    v6::datagram::make(&mut t).unwrap();
    assert_eq!(v6::datagram::check(&mut t), Ok(true));
    t.1.checksum = 0x1234;
    assert_eq!(v6::datagram::check(&mut t), Ok(false));
}
