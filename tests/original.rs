use hexhex::{
    decode, decode_ascii, decode_ascii_to_buf, decode_ascii_to_buf_exact, decode_to_buf,
    decode_to_buf_exact, Case, DisplayOptions, Hex,
};

#[test]
fn hex_default_empty() {
    let data = [];
    assert_eq!(Hex::new(data).to_string(), "");
}

#[test]
fn hex_default_1() {
    let data = [1, 2, 3, 4, 5, 6, 7, 8, 9, 10, 11, 12, 13, 14, 15];
    assert_eq!(Hex::new(data).to_string(), "0102030405060708090a0b0c0d0e0f");
}

#[test]
fn hex_default_2() {
    let data = [
        16 * 1,
        16 * 2,
        16 * 3,
        16 * 4,
        16 * 5,
        16 * 6,
        16 * 7,
        16 * 8,
        16 * 9,
        16 * 10,
        16 * 11,
        16 * 12,
        16 * 13,
        16 * 14,
        16 * 15,
    ];
    assert_eq!(Hex::new(data).to_string(), "102030405060708090a0b0c0d0e0f0");
}

#[test]
fn hex_default_single_byte() {
    for x in 0u8..=u8::MAX {
        assert_eq!(Hex::new([x]).to_string(), format!("{x:02x}"));
    }
}

#[test]
fn hex_with_prefix_empty() {
    // This is perhaps counterintuitive, but required for roundtrip of empty data
    assert_eq!(Hex::new([]).with_prefix(true).to_string(), "0x");
}

#[test]
fn hex_with_options() {
    let data = [0x01, 0x0a, 0x4b, 0xb5, 0x00, 0xff, 0xb2, 0x04, 0x42];
    let hex = Hex::new(&data);
    assert_eq!(hex.to_string(), "010a4bb500ffb20442");
    assert_eq!(hex.with_case(Case::Lower).to_string(), "010a4bb500ffb20442");
    assert_eq!(hex.with_case(Case::Upper).to_string(), "010A4BB500FFB20442");
    assert_eq!(hex.with_prefix(false).to_string(), "010a4bb500ffb20442");
    assert_eq!(hex.with_prefix(true).to_string(), "0x010a4bb500ffb20442");
    assert_eq!(
        hex.with_case(Case::Upper).with_prefix(true).to_string(),
        "0x010A4BB500FFB20442"
    );
    assert_eq!(
        hex.with_options(DisplayOptions {
            with_prefix: true,
            case: Case::Upper
        })
        .to_string(),
        "0x010A4BB500FFB20442"
    );
    assert_eq!(
        hex.with_options(DisplayOptions {
            with_prefix: false,
            case: Case::Lower,
        })
        .to_string(),
        "010a4bb500ffb20442"
    );
    assert_eq!(
        hex.with_options(DisplayOptions {
            with_prefix: true,
            case: Case::Upper,
        })
        .with_prefix(false)
        .to_string(),
        "010A4BB500FFB20442"
    );
}

#[test]
fn decode_ascii_to_buf_empty() {
    let mut buf = [0xFFu8; 4];
    assert_eq!(decode_ascii_to_buf(b"", &mut buf).unwrap(), 0);
    assert_eq!(buf, [0xFFu8; 4]);
}

#[test]
fn decode_ascii_to_buf_empty_with_prefix() {
    let mut buf = [0xFFu8; 4];
    assert_eq!(decode_ascii_to_buf(b"0x", &mut buf).unwrap(), 0);
    assert_eq!(buf, [0xFFu8; 4]);
}

#[test]
fn decode_ascii_to_buf_odd() {
    let mut buf = [0xFFu8; 4];
    assert!(decode_ascii_to_buf(b"0x01020", &mut buf).is_err());
}

#[test]
fn decode_ascii_to_buf_1() {
    let mut buf = [0xFFu8; 4];
    assert_eq!(decode_ascii_to_buf(b"ab0110", &mut buf).unwrap(), 3);
    assert_eq!(buf, [0xab, 0x01, 0x10, 0xFF]);
}

#[test]
fn decode_ascii_to_buf_2() {
    let mut buf = [0xffu8; 4];
    assert_eq!(decode_ascii_to_buf(b"0xAb0110", &mut buf).unwrap(), 3);
    assert_eq!(buf, [0xab, 0x01, 0x10, 0xff]);
}

#[test]
fn decode_ascii_to_buf_3() {
    let mut buf = [0u8; 4];
    assert_eq!(decode_ascii_to_buf(b"0xAb01105c", &mut buf).unwrap(), 4);
    assert_eq!(buf, [0xab, 0x01, 0x10, 0x5c]);
}

#[test]
fn decode_ascii_to_buf_too_long() {
    let mut buf = [0u8; 5];
    assert!(decode_ascii_to_buf(b"010203040506", &mut buf).is_err());
}

#[test]
fn decode_ascii_to_buf_double_prefix() {
    let mut buf = [0u8; 5];
    assert!(decode_ascii_to_buf(b"0x0x1234", &mut buf).is_err());
}

#[test]
fn decode_to_buf_empty() {
    let mut buf = [0xFFu8; 4];
    assert_eq!(decode_ascii_to_buf(b"", &mut buf).unwrap(), 0);
    assert_eq!(buf, [0xFFu8; 4]);
}

#[test]
fn decode_to_buf_empty_with_prefix() {
    let mut buf = [0xFFu8; 4];
    assert_eq!(decode_ascii_to_buf(b"0x", &mut buf).unwrap(), 0);
    assert_eq!(buf, [0xFFu8; 4]);
}

#[test]
fn decode_to_buf_odd() {
    let mut buf = [0xFFu8; 4];
    assert!(decode_to_buf("0x01020", &mut buf).is_err());
}

#[test]
fn decode_to_buf_1() {
    let mut buf = [0xFFu8; 4];
    assert_eq!(decode_to_buf("ab0110", &mut buf).unwrap(), 3);
    assert_eq!(buf, [0xab, 0x01, 0x10, 0xFF]);
}

#[test]
fn decode_to_buf_2() {
    let mut buf = [0xffu8; 4];
    assert_eq!(decode_to_buf("0xAb0110", &mut buf).unwrap(), 3);
    assert_eq!(buf, [0xab, 0x01, 0x10, 0xff]);
}

#[test]
fn decode_to_buf_3() {
    let mut buf = [0u8; 4];
    assert_eq!(decode_to_buf("0xAb01105c", &mut buf).unwrap(), 4);
    assert_eq!(buf, [0xab, 0x01, 0x10, 0x5c]);
}

#[test]
fn decode_to_buf_too_long() {
    let mut buf = [0u8; 5];
    assert!(decode_to_buf("010203040506", &mut buf).is_err());
}

#[test]
fn decode_to_buf_double_prefix() {
    let mut buf = [0u8; 5];
    assert!(decode_to_buf("0x0x1234", &mut buf).is_err());
}

#[test]
fn decode_ascii_to_buf_exact_1() {
    let mut buf = [0u8; 5];
    assert!(decode_ascii_to_buf_exact(b"0102030405", &mut buf).is_ok());
    assert_eq!(buf, [0x01, 0x02, 0x03, 0x04, 0x05]);
}

#[test]
fn decode_ascii_to_buf_exact_2() {
    let mut buf = [0u8; 3];
    assert!(decode_ascii_to_buf_exact(b"0xc0ffee", &mut buf).is_ok());
    assert_eq!(buf, [0xc0, 0xff, 0xee]);
}

#[test]
fn decode_ascii_to_buf_exact_empty() {
    let mut buf = [0u8; 0];
    assert!(decode_ascii_to_buf_exact(b"", &mut buf).is_ok());
}

#[test]
fn decode_ascii_to_buf_exact_empty_with_prefix() {
    let mut buf = [0u8; 0];
    assert!(decode_ascii_to_buf_exact(b"0x", &mut buf).is_ok());
}

#[test]
fn decode_ascii_to_buf_exact_too_short() {
    let mut buf = [0u8; 4];
    assert!(decode_ascii_to_buf_exact(b"0xc0ffee", &mut buf).is_err());
}

#[test]
fn decode_ascii_to_buf_exact_too_long() {
    let mut buf = [0u8; 4];
    assert!(decode_ascii_to_buf_exact(b"0x0a0b0c0d0e0f", &mut buf).is_err());
}

#[test]
fn decode_ascii_to_buf_exact_odd_1() {
    let mut buf = [0u8; 2];
    assert!(decode_ascii_to_buf_exact(b"0xabc", &mut buf).is_err());
}

#[test]
fn decode_ascii_to_buf_exact_odd_2() {
    let mut buf = [0u8; 2];
    assert!(decode_ascii_to_buf_exact(b"0xabcde", &mut buf).is_err());
}

#[test]
fn decode_ascii_to_buf_exact_double_prefix() {
    let mut buf = [0u8; 2];
    assert!(decode_ascii_to_buf(b"0x0x1234", &mut buf).is_err());
}

#[test]
fn decode_to_buf_exact_1() {
    let mut buf = [0u8; 5];
    assert!(decode_to_buf_exact("0102030405", &mut buf).is_ok());
    assert_eq!(buf, [0x01, 0x02, 0x03, 0x04, 0x05]);
}

#[test]
fn decode_to_buf_exact_2() {
    let mut buf = [0u8; 3];
    assert!(decode_to_buf_exact("0xc0ffee", &mut buf).is_ok());
    assert_eq!(buf, [0xc0, 0xff, 0xee]);
}

#[test]
fn decode_to_buf_exact_empty() {
    let mut buf = [0u8; 0];
    assert!(decode_to_buf_exact("", &mut buf).is_ok());
}

#[test]
fn decode_to_buf_exact_empty_with_prefix() {
    let mut buf = [0u8; 0];
    assert!(decode_to_buf_exact("0x", &mut buf).is_ok());
}

#[test]
fn decode_to_buf_exact_too_short() {
    let mut buf = [0u8; 4];
    assert!(decode_to_buf_exact("0xc0ffee", &mut buf).is_err());
}

#[test]
fn decode_to_buf_exact_too_long() {
    let mut buf = [0u8; 4];
    assert!(decode_to_buf_exact("0x0a0b0c0d0e0f", &mut buf).is_err());
}

#[test]
fn decode_to_buf_exact_odd_1() {
    let mut buf = [0u8; 2];
    assert!(decode_to_buf_exact("0xabc", &mut buf).is_err());
}

#[test]
fn decode_to_buf_exact_odd_2() {
    let mut buf = [0u8; 2];
    assert!(decode_to_buf_exact("0xabcde", &mut buf).is_err());
}

#[test]
fn decode_to_buf_exact_double_prefix() {
    let mut buf = [0u8; 2];
    assert!(decode_to_buf("0x0x1234", &mut buf).is_err());
}

#[test]
fn decode_ascii_empty() {
    assert_eq!(decode_ascii(b"").unwrap(), vec![]);
}

#[test]
fn decode_ascii_empty_with_prefix() {
    assert_eq!(decode_ascii(b"0x").unwrap(), vec![]);
}

#[test]
fn decode_ascii_1() {
    assert_eq!(decode_ascii(b"0xc0ffee").unwrap(), vec![0xc0, 0xff, 0xee]);
}

#[test]
fn decode_ascii_2() {
    assert_eq!(
        decode_ascii(b"a92e1000f1").unwrap(),
        vec![0xa9, 0x2e, 0x10, 0x00, 0xf1]
    );
}

#[test]
fn decode_ascii_odd() {
    assert!(decode_ascii(b"123").is_err());
}

#[test]
fn decode_ascii_double_prefix() {
    assert!(decode_ascii(b"0x0x1234").is_err());
}

#[test]
fn decode_empty() {
    assert_eq!(decode("").unwrap(), vec![]);
}

#[test]
fn decode_empty_with_prefix() {
    assert_eq!(decode("0x").unwrap(), vec![]);
}

#[test]
fn decode_1() {
    assert_eq!(decode("0xc0ffee").unwrap(), vec![0xc0, 0xff, 0xee]);
}

#[test]
fn decode_2() {
    assert_eq!(
        decode("a92e1000f1").unwrap(),
        vec![0xa9, 0x2e, 0x10, 0x00, 0xf1]
    );
}

#[test]
fn decode_odd() {
    assert!(decode("123").is_err());
}

#[test]
fn decode_double_prefix() {
    assert!(decode("0x0x1234").is_err());
}
