use ese_rs::utils::{read_u16_le, read_u32_be, read_u32_le, read_u64_le, to_i16, to_i32, to_i64};

#[test]
fn reads_little_endian_integers() {
    let bytes: [u8; 8] = [0x01, 0x02, 0x03, 0x04, 0x05, 0x06, 0x07, 0x08];
    assert_eq!(read_u16_le(&bytes, 0), Some(0x0201));
    assert_eq!(read_u32_le(&bytes, 2), Some(0x0605_0403));
    assert_eq!(read_u64_le(&bytes, 0), Some(0x0807_0605_0403_0201));
    assert_eq!(read_u32_be(&bytes, 0), Some(0x0102_0304));
}

#[test]
fn reads_past_the_end_give_none() {
    let bytes: [u8; 3] = [1, 2, 3];
    assert_eq!(read_u16_le(&bytes, 2), None);
    assert_eq!(read_u32_le(&bytes, 0), None);
    assert_eq!(read_u16_le(&bytes, usize::MAX), None);
}

#[test]
fn reinterprets_signed_values() {
    assert_eq!(to_i16(0xffff), -1);
    assert_eq!(to_i16(0x8000), i16::MIN);
    assert_eq!(to_i32(0xffff_fffe), -2);
    assert_eq!(to_i32(7), 7);
    assert_eq!(to_i64(0x8000_0000_0000_0000), i64::MIN);
}
