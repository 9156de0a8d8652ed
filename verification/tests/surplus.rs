use udp::option::{self, eol};
use udp::surplus;
use udp::Header;

fn header(length: u16) -> Header {
    Header { source_port: 1, destination_port: 2, length, checksum: 0 }
}

fn ones_sum(bytes: &[u8]) -> u16 {
    let mut sum: u64 = 0;
    for pair in bytes.chunks(2) {
        let hi = pair[0] as u64;
        let lo = if pair.len() > 1 { pair[1] as u64 } else { 0 };
        sum += hi << 8 | lo;
    }
    while sum > 0xffff {
        sum = (sum & 0xffff) + (sum >> 16);
    }
    !(sum as u16)
}

#[test]
fn surplus_from_bytes_reads_options_up_to_eol() {
    let bytes = [0xab, 0xcd, 1, 2, 6, 0, 0, 0, 9, 0, 0xee];
    let (ocs, options) = surplus::from_bytes(&bytes).unwrap();
    assert_eq!(ocs, 0xabcd);
    assert_eq!(options, vec![(1, &[][..]), (2, &[0u8, 0, 0, 9][..]), (0, &[][..])]);
}

#[test]
fn surplus_from_bytes_errors() {
    assert_eq!(surplus::from_bytes(&[0]).unwrap_err(), surplus::INCOMPLETE);
    assert_eq!(surplus::from_bytes(&[0, 0, 1]).unwrap_err(), surplus::EOL_MISSING);
    assert_eq!(surplus::from_bytes(&[0, 0, 2, 6, 0, 0, 0, 1]).unwrap_err(), surplus::EOL_MISSING);
    assert_eq!(surplus::from_bytes(&[0, 0]).unwrap_err(), option::PARTIAL);
    assert_eq!(surplus::from_bytes(&[0, 0, 2, 6, 0]).unwrap_err(), option::DATA_PARTIAL);
}

#[test]
fn surplus_to_bytes_writes_each_option() {
    let data = [1u8, 2];
    let out = surplus::to_bytes((0x1234, vec![(4, &data[..]), (0, &[][..])])).unwrap();
    assert_eq!(out, vec![0x12, 0x34, 4, 4, 1, 2, 0]);
    let big = vec![0u8; 70000];
    assert_eq!(surplus::to_bytes((0, vec![(4, &big[..])])).unwrap_err(), option::TOO_BIG);
}

#[test]
fn surplus_roundtrip() {
    let a = [0u8, 0, 0, 9];
    let b = vec![5u8; 300];
    let options = vec![(6u8, &a[..]), (0x7f, &b[..]), (eol::KIND, &[][..])];
    let bytes = surplus::to_bytes((0xbeef, options.clone())).unwrap();
    let (ocs, back) = surplus::from_bytes(&bytes).unwrap();
    assert_eq!(ocs, 0xbeef);
    assert_eq!(back, options);
}

#[test]
fn surplus_roundtrip_with_nop() {
    let a = [1u8, 2];
    let options = vec![(1u8, &[][..]), (4, &a[..]), (1, &[][..]), (eol::KIND, &[][..])];
    let bytes = surplus::to_bytes((7, options.clone())).unwrap();
    assert_eq!(bytes, vec![0, 7, 1, 4, 4, 1, 2, 1, 0]);
    let (ocs, back) = surplus::from_bytes(&bytes).unwrap();
    assert_eq!(ocs, 7);
    assert_eq!(back, options);
}

#[test]
fn surplus_make_appends_eol_and_checks() {
    let a = [0u8, 0, 0, 9];
    let (ocs, options) = surplus::make(vec![(6, &a[..])], header(9)).unwrap();
    assert_eq!(options, vec![(6, &a[..]), (0, &[][..])]);
    // odd UDP length: a zero byte, the zeroed OCS, then the options, padded.
    assert_eq!(ocs, ones_sum(&[0, 0, 0, 6, 6, 0, 0, 0, 9, 0]));
    assert_eq!(surplus::check((ocs, options.clone()), header(9)), Ok(true));
    assert_eq!(surplus::check((ocs ^ 1, options), header(9)), Ok(false));
}

#[test]
fn surplus_make_keeps_existing_eol() {
    let (ocs, options) = surplus::make(vec![(1, &[][..]), (0, &[][..])], header(8)).unwrap();
    assert_eq!(options, vec![(1, &[][..]), (0, &[][..])]);
    assert_eq!(ocs, ones_sum(&[0, 0, 1, 0]));
    assert_eq!(surplus::check((ocs, options), header(8)), Ok(true));
}

#[test]
fn surplus_make_and_check_refuse_oversized_option() {
    let big = vec![0u8; 65532];
    assert_eq!(surplus::make(vec![(0x7f, &big[..])], header(8)).unwrap_err(), option::TOO_BIG);
    assert_eq!(surplus::check((0, vec![(0x7f, &big[..])]), header(8)).unwrap_err(), option::TOO_BIG);
}

#[test]
fn surplus_checksum_chunks_match_whole() {
    let a = [1u8, 2, 3];
    let b = [4u8, 5, 6, 7, 8];
    let options = vec![(0x20, &a[..]), (0x21, &b[..]), (0, &[][..])];
    let mut stream = vec![0u8, 0];
    for o in &options {
        stream.extend(option::to_bytes(*o).unwrap());
    }
    let (ocs, _) = surplus::make(options.clone(), header(10)).unwrap();
    assert_eq!(ocs, ones_sum(&stream));
}
