use udp::{checksum, Checksum, UNALIGNED};

fn reference(words: &[u16]) -> u16 {
    let mut sum: u64 = words.iter().map(|w| *w as u64).sum();
    while sum > 0xffff {
        sum = (sum & 0xffff) + (sum >> 16);
    }
    !(sum as u16)
}

#[test]
fn checksum_rfc1071_example() {
    // RFC 1071, section 3: the words 0001 f203 f4f5 f6f7 sum to 2ddf0, folded ddf2.
    let words = [0x0001u16, 0xf203, 0xf4f5, 0xf6f7];
    assert_eq!(checksum(&words), 0x220d);
}

#[test]
fn checksum_of_nothing_is_all_ones() {
    assert_eq!(checksum(&[]), 0xffff);
}

#[test]
fn checksum_all_ones_words() {
    assert_eq!(checksum(&[0xffff, 0xffff]), 0x0000);
    assert_eq!(checksum(&[0xffff]), 0x0000);
    assert_eq!(checksum(&[0x0000]), 0xffff);
}

#[test]
fn checksum_matches_reference() {
    let words: Vec<u16> = (0..1000u32).map(|i| (i * 7919 % 65536) as u16).collect();
    assert_eq!(checksum(&words), reference(&words));
}

#[test]
fn checksum_appended_verifies_to_zero() {
    // An IPv4 header with its checksum field zeroed; its checksum is b861.
    let mut words =
        vec![0x4500u16, 0x0073, 0x0000, 0x4000, 0x4011, 0x0000, 0xc0a8, 0x0001, 0xc0a8, 0x00c7];
    let c = checksum(&words);
    assert_eq!(c, 0xb861);
    words.push(c);
    assert_eq!(checksum(&words), 0);
}

#[test]
fn streaming_equals_one_shot() {
    let a = [0x0001u16, 0xf203];
    let b = [0xf4f5u16, 0xf6f7];
    let mut cs = Checksum::new();
    assert_eq!(cs.accumulator, 0);
    assert!(cs.update_from_words(&a).is_ok());
    assert!(cs.update_from_words(&b).is_ok());
    assert_eq!(cs.accumulator, 0x2ddf0);
    assert_eq!(cs.digest(), checksum(&[0x0001, 0xf203, 0xf4f5, 0xf6f7]));
}

#[test]
fn update_from_bytes_reads_big_endian_words() {
    let mut cs = Checksum::new();
    assert_eq!(cs.update_from_bytes(&[0x00, 0x01, 0xf2, 0x03]), Ok(()));
    assert_eq!(cs.accumulator, 0xf204);
    assert_eq!(cs.update_from_bytes(&[0xf4, 0xf5, 0xf6, 0xf7]), Ok(()));
    assert_eq!(cs.digest(), 0x220d);
}

#[test]
fn update_from_bytes_refuses_odd_length() {
    let mut cs = Checksum::new();
    cs.update_from_bytes(&[0x12, 0x34]).unwrap();
    assert_eq!(cs.update_from_bytes(&[1, 2, 3]), Err(UNALIGNED));
    assert_eq!(cs.accumulator, 0x1234);
}

#[test]
fn digest_folds_carries() {
    let cs = Checksum { accumulator: 0x0001_ffff };
    // 0xffff + 0x1 = 0x10000 -> 0x0001; complement 0xfffe
    assert_eq!(cs.digest(), 0xfffe);
    let cs = Checksum { accumulator: 0 };
    assert_eq!(cs.digest(), 0xffff);
}
