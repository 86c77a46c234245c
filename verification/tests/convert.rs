use columnar_decode::convert::{convert_i128, convert_i256, Int256};

#[test]
fn convert_i128_reads_big_endian_twos_complement() {
    assert_eq!(convert_i128(&[0x01, 0x00], 2), 256);
    assert_eq!(convert_i128(&[0xff], 1), -1);
    assert_eq!(convert_i128(&[0xff, 0x00], 2), -256);
    assert_eq!(convert_i128(&[0x7f], 1), 127);
    assert_eq!(convert_i128(&[0x80], 1), -128);
    assert_eq!(convert_i128(&[], 0), 0);
    assert_eq!(convert_i128(&[0x12, 0x34, 0x56], 2), 0x1234);
}

#[test]
fn convert_i128_takes_sixteen_bytes() {
    let mut bytes = [0u8; 16];
    bytes[0] = 0x80;
    assert_eq!(convert_i128(&bytes, 16), i128::MIN);
    let bytes = [0xffu8; 16];
    assert_eq!(convert_i128(&bytes, 16), -1);
    let mut bytes = [0xffu8; 16];
    bytes[0] = 0x7f;
    assert_eq!(convert_i128(&bytes, 16), i128::MAX);
}

#[test]
fn int256_from_i128_extends_the_sign() {
    assert_eq!(Int256::from_i128(5), Int256 { high: 0, low: 5 });
    assert_eq!(Int256::from_i128(-1), Int256 { high: -1, low: u128::MAX });
    assert_eq!(Int256::from_i128(i128::MIN), Int256 { high: -1, low: 1u128 << 127 });
    assert_eq!(Int256::from_i128(0), Int256 { high: 0, low: 0 });
}

#[test]
fn convert_i256_reads_up_to_thirty_two_bytes() {
    assert_eq!(convert_i256(&[0x01, 0x00]), Int256 { high: 0, low: 256 });
    assert_eq!(convert_i256(&[0xff, 0x00]), Int256 { high: -1, low: u128::MAX - 255 });
    assert_eq!(convert_i256(&[]), Int256 { high: 0, low: 0 });
    let mut bytes = [0u8; 17];
    bytes[0] = 0x01;
    assert_eq!(convert_i256(&bytes), Int256 { high: 1, low: 0 });
    let mut bytes = [0u8; 32];
    bytes[0] = 0x80;
    assert_eq!(convert_i256(&bytes), Int256 { high: i128::MIN, low: 0 });
    let mut bytes = [0u8; 32];
    bytes[15] = 0x02;
    bytes[31] = 0x03;
    assert_eq!(convert_i256(&bytes), Int256 { high: 2, low: 3 });
}
