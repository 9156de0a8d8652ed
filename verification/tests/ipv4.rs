use udp::v4::{self, PseudoHeader};
use udp::{Header, PROTOCOL_NO};

fn ones_sum(bytes: &[u8]) -> u16 {
    let mut sum: u64 = 0;
    for pair in bytes.chunks(2) {
        let hi = pair[0] as u64;
        let lo = if pair.len() > 1 { pair[1] as u64 } else { 0 };
        sum += hi << 8 | lo;
    }
    while sum > 0xffff {
        sum = (sum & 0xffff) + (sum >> 16);
    }
    !(sum as u16)
}

fn pseudo(protocol: u8) -> PseudoHeader {
    PseudoHeader { source_address: 0xc0a8_0001, destination_address: 0xc0a8_00c7, protocol, udp_length: 0 }
}

fn header(checksum: u16) -> Header {
    Header { source_port: 1234, destination_port: 53, length: 0, checksum }
}

#[test]
fn pseudo_header_bytes() {
    let p = PseudoHeader { source_address: 0x01020304, destination_address: 0x05060708, protocol: 17, udp_length: 0x0a0b };
    let bytes = p.to_bytes().unwrap();
    assert_eq!(bytes, vec![1, 2, 3, 4, 5, 6, 7, 8, 0, 17, 0x0a, 0x0b]);
    let q = PseudoHeader::from_bytes(&bytes).unwrap();
    assert_eq!((q.source_address, q.destination_address, q.protocol, q.udp_length), (0x01020304, 0x05060708, 17, 0x0a0b));
    assert_eq!(PseudoHeader::from_bytes(&bytes[..11]).unwrap_err(), v4::PSEUDO_HEADER_PARTIAL);
    assert_eq!(PseudoHeader::PACKED_SIZE, 12);
}

#[test]
fn pseudo_header_skips_byte_eight() {
    let bytes = [0u8, 0, 0, 0, 0, 0, 0, 0, 0x55, 6, 0, 1];
    let q = PseudoHeader::from_bytes(&bytes).unwrap();
    assert_eq!(q.protocol, 6);
    assert_eq!(q.udp_length, 1);
}

#[test]
fn make_sets_lengths_and_checksum() {
    let payload = [0x68u8, 0x69, 0x21];
    let mut t = (pseudo(PROTOCOL_NO), header(1), &payload[..]);
    assert_eq!(v4::datagram::make(&mut t), Ok(()));
    assert_eq!(t.1.length, 11);
    assert_eq!(t.0.udp_length, 11);
    let mut covered = t.0.to_bytes().unwrap();
    covered.extend(Header { checksum: 0, ..t.1 }.to_bytes().unwrap());
    covered.extend_from_slice(&payload);
    let expected = ones_sum(&covered);
    assert_eq!(t.1.checksum, if expected == 0 { 0xffff } else { expected });
    // A receiver adds up everything with the checksum in place and gets all ones.
    let mut all = t.0.to_bytes().unwrap();
    all.extend(t.1.to_bytes().unwrap());
    all.extend_from_slice(&payload);
    assert_eq!(ones_sum(&all), 0);
}

#[test]
fn make_without_checksum_leaves_it_zero() {
    let payload = [1u8, 2, 3, 4];
    let mut t = (pseudo(PROTOCOL_NO), header(0), &payload[..]);
    v4::datagram::make(&mut t).unwrap();
    assert_eq!(t.1.checksum, 0);
    assert_eq!(t.1.length, 12);
    assert_eq!(v4::datagram::check(&mut t), Ok(true));
}

#[test]
fn make_then_check() {
    for len in [0usize, 1, 2, 17, 1000] {
        let payload: Vec<u8> = (0..len).map(|i| (i * 31 % 256) as u8).collect();
        let mut t = (pseudo(PROTOCOL_NO), header(0xffff), &payload[..]);
        v4::datagram::make(&mut t).unwrap();
        assert_ne!(t.1.checksum, 0);
        let before = (t.0.udp_length, t.1.length, t.1.checksum);
        assert_eq!(v4::datagram::check(&mut t), Ok(true));
        assert_eq!(before, (t.0.udp_length, t.1.length, t.1.checksum));
    }
}

#[test]
fn check_detects_corruption() {
    let payload = [1u8, 2, 3, 4, 5];
    let mut t = (pseudo(PROTOCOL_NO), header(1), &payload[..]);
    v4::datagram::make(&mut t).unwrap();
    let other = [1u8, 2, 3, 4, 6];
    let mut u = (t.0, t.1, &other[..]);
    assert_eq!(v4::datagram::check(&mut u), Ok(false));
}

#[test]
fn check_errors() {
    let payload = [1u8, 2];
    let mut t = (pseudo(6), header(0), &payload[..]);
    assert_eq!(v4::datagram::check(&mut t), Err(v4::datagram::PROTOCOL_MISMATCH));
    let mut t = (pseudo(PROTOCOL_NO), header(0), &payload[..]);
    assert_eq!(v4::datagram::check(&mut t), Err(v4::datagram::LENGTH_MISMATCH));
    let big = vec![0u8; 65528];
    let mut t = (pseudo(PROTOCOL_NO), header(0), &big[..]);
    assert_eq!(v4::datagram::check(&mut t), Err(v4::datagram::DOES_NOT_FIT));
}

#[test]
fn make_refuses_oversized_payload() {
    let big = vec![0u8; 65528];
    let mut t = (pseudo(PROTOCOL_NO), header(5), &big[..]);
    assert_eq!(v4::datagram::make(&mut t), Err(v4::datagram::DOES_NOT_FIT));
    assert_eq!(t.1.length, 0);
    assert_eq!(t.1.checksum, 5);
    let fits = vec![0xffu8; 65527];
    let mut t = (pseudo(PROTOCOL_NO), header(5), &fits[..]);
    assert_eq!(v4::datagram::make(&mut t), Ok(()));
    assert_eq!(t.1.length, 65535);
    assert_eq!(v4::datagram::check(&mut t), Ok(true));
}
