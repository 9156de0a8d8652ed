use udp::option::{self, apc, auth, eol, exp, frag, mds, mrds, nop, req, res, time, ucmp, uenc, uexp};

#[test]
fn kinds() {
    assert_eq!(
        [eol::KIND, nop::KIND, apc::KIND, frag::KIND, mds::KIND, mrds::KIND, req::KIND, res::KIND, time::KIND],
        [0, 1, 2, 3, 4, 5, 6, 7, 8]
    );
    assert_eq!([auth::KIND, exp::KIND, ucmp::KIND, uenc::KIND, uexp::KIND], [9, 0x7f, 192, 193, 254]);
}

#[test]
fn option_from_bytes_single_byte_kinds() {
    assert_eq!(option::from_bytes(&[0]).unwrap(), (0, &[][..]));
    assert_eq!(option::from_bytes(&[1, 9, 9]).unwrap(), (1, &[][..]));
}

#[test]
fn option_from_bytes_short_form() {
    let bytes = [2u8, 6, 1, 2, 3, 4, 0xee];
    assert_eq!(option::from_bytes(&bytes).unwrap(), (2, &[1u8, 2, 3, 4][..]));
}

#[test]
fn option_from_bytes_extended_form() {
    let mut bytes = vec![0x7fu8, 0xff, 0x01, 0x04];
    bytes.extend((0..256).map(|i| i as u8));
    let (kind, data) = option::from_bytes(&bytes).unwrap();
    assert_eq!(kind, 0x7f);
    assert_eq!(data.len(), 256);
    assert_eq!(data[255], 255);
}

#[test]
fn option_from_bytes_errors() {
    assert_eq!(option::from_bytes(&[]).unwrap_err(), option::PARTIAL);
    assert_eq!(option::from_bytes(&[2]).unwrap_err(), option::PARTIAL);
    assert_eq!(option::from_bytes(&[2, 0xff, 1]).unwrap_err(), option::EXTENDED_PARTIAL);
    assert_eq!(option::from_bytes(&[2, 6, 1, 2]).unwrap_err(), option::DATA_PARTIAL);
    assert_eq!(option::from_bytes(&[2, 0xff, 0x01, 0x00, 1]).unwrap_err(), option::DATA_PARTIAL);
}

#[test]
fn option_to_bytes_forms() {
    assert_eq!(option::to_bytes((6, &[1, 2, 3, 4])).unwrap(), vec![6, 6, 1, 2, 3, 4]);
    assert_eq!(option::to_bytes((0, &[])).unwrap(), vec![0]);
    assert_eq!(option::to_bytes((1, &[])).unwrap(), vec![1]);
    assert_eq!(option::to_bytes((1, &[5, 6])).unwrap(), vec![1]);
    let data = vec![7u8; 0xfd];
    let out = option::to_bytes((0x7f, &data)).unwrap();
    assert_eq!(&out[..4], &[0x7f, 0xff, 0x01, 0x01]);
    assert_eq!(out.len(), 0xfd + 4);
    let data = vec![7u8; 0xfc];
    let out = option::to_bytes((0x7f, &data)).unwrap();
    assert_eq!(&out[..2], &[0x7f, 0xfe]);
}

#[test]
fn option_to_bytes_too_big() {
    let data = vec![0u8; 65532];
    assert_eq!(option::to_bytes((0x7f, &data)).unwrap_err(), option::TOO_BIG);
    let data = vec![0u8; 65531];
    let out = option::to_bytes((0x7f, &data)).unwrap();
    assert_eq!(&out[..4], &[0x7f, 0xff, 0xff, 0xff]);
}

#[test]
fn option_roundtrip() {
    for len in [0usize, 1, 0xfc, 0xfd, 1000] {
        let data: Vec<u8> = (0..len).map(|i| (i % 251) as u8).collect();
        let out = option::to_bytes((0x7f, &data)).unwrap();
        assert_eq!(option::from_bytes(&out).unwrap(), (0x7f, &data[..]));
    }
}

#[test]
fn single_byte_options_read_back() {
    for kind in [0u8, 1] {
        let out = option::to_bytes((kind, &[])).unwrap();
        assert_eq!(option::from_bytes(&out).unwrap(), (kind, &[][..]));
    }
}

#[test]
fn eol_and_nop() {
    assert_eq!(eol::from_option((0, &[])), Ok(()));
    assert_eq!(eol::from_option((1, &[])), Err(eol::KIND_MISMATCH));
    assert_eq!(eol::from_option((0, &[1])), Err(eol::UNEXPECTED_DATA));
    assert_eq!(eol::to_option(), Ok((0, &[][..])));
    assert_eq!(nop::from_option((1, &[])), Ok(()));
    assert_eq!(nop::from_option((0, &[])), Err(nop::KIND_MISMATCH));
    assert_eq!(nop::from_option((1, &[1])), Err(nop::UNEXPECTED_DATA));
    assert_eq!(nop::to_option(), Ok((1, &[][..])));
}

#[test]
fn apc_option() {
    assert_eq!(apc::to_option(0xdeadbeef), Ok((2, vec![0xde, 0xad, 0xbe, 0xef])));
    assert_eq!(apc::from_option((2, &[0xde, 0xad, 0xbe, 0xef])), Ok(0xdeadbeef));
    assert_eq!(apc::from_option((3, &[0, 0, 0, 0])), Err(apc::KIND_MISMATCH));
    assert_eq!(apc::from_option((2, &[0, 0, 0])), Err(apc::LENGTH_MISMATCH));
}

#[test]
fn mds_option() {
    assert_eq!(mds::to_option(1500), Ok((4, vec![0x05, 0xdc])));
    assert_eq!(mds::from_option((4, &[0x05, 0xdc])), Ok(1500));
    assert_eq!(mds::from_option((5, &[0x05, 0xdc])), Err(option::KIND_MISMATCH));
    assert_eq!(mds::from_option((4, &[0x05])), Err(mds::LENGTH_MISMATCH));
}

#[test]
fn mrds_option() {
    assert_eq!(mrds::to_option((9000, 3)), Ok((5, vec![0x23, 0x28, 3])));
    assert_eq!(mrds::from_option((5, &[0x23, 0x28, 3])), Ok((9000, 3)));
    assert_eq!(mrds::from_option((4, &[0x23, 0x28, 3])), Err(option::KIND_MISMATCH));
    assert_eq!(mrds::from_option((5, &[0x23, 0x28])), Err(mrds::LENGTH_MISMATCH));
}

#[test]
fn req_res_options() {
    assert_eq!(req::to_option(7), Ok((6, vec![0, 0, 0, 7])));
    assert_eq!(req::from_option((6, &[1, 2, 3, 4])), Ok(0x01020304));
    assert_eq!(req::from_option((7, &[1, 2, 3, 4])), Err(option::KIND_MISMATCH));
    assert_eq!(req::from_option((6, &[1, 2, 3, 4, 5])), Err(req::LENGTH_MISMATCH));
    assert_eq!(res::to_option(0x01020304), Ok((7, vec![1, 2, 3, 4])));
    assert_eq!(res::from_option((7, &[0, 0, 0, 7])), Ok(7));
    assert_eq!(res::from_option((6, &[0, 0, 0, 7])), Err(option::KIND_MISMATCH));
    assert_eq!(res::from_option((7, &[])), Err(res::LENGTH_MISMATCH));
}

#[test]
fn time_option() {
    let t = 0x0102030405060708u64;
    assert_eq!(time::to_option(t), Ok((8, vec![1, 2, 3, 4, 5, 6, 7, 8])));
    assert_eq!(time::from_option((8, &[1, 2, 3, 4, 5, 6, 7, 8])), Ok(t));
    assert_eq!(time::from_option((9, &[1, 2, 3, 4, 5, 6, 7, 8])), Err(option::KIND_MISMATCH));
    assert_eq!(time::from_option((8, &[1, 2, 3, 4])), Err(time::LENGTH_MISMATCH));
}

#[test]
fn frag_option_short_identification() {
    let (kind, data) = frag::to_option((0x1234, 0x0a0b0c0d, 0x0e0f)).unwrap();
    assert_eq!(kind, 3);
    assert_eq!(data, vec![0x12, 0x34, 0x0a, 0x0b, 0x0c, 0x0d, 0x0e, 0x0f]);
    assert_eq!(frag::from_option((3, &data)), Ok((0x1234, 0x0a0b0c0d, 0x0e0f)));
}

#[test]
fn frag_option_long_identification() {
    let (_, data) = frag::to_option((0x12345678, 1, 2)).unwrap();
    assert_eq!(data, vec![0x12, 0x34, 0x56, 0x78, 0, 0, 0, 1, 0, 2]);
    assert_eq!(frag::from_option((3, &data)), Ok((0x12345678, 1, 2)));
}

#[test]
fn frag_option_errors() {
    assert_eq!(frag::from_option((2, &[0; 8])), Err(frag::KIND_MISMATCH));
    assert_eq!(frag::from_option((3, &[0; 9])), Err(frag::LENGTH_MISMATCH));
}
