use titanf::bytes::{get_i16_be, get_i64_be, get_u16_be, get_u32_be};

#[test]
fn reads_big_endian_values() {
    let b = [0x12u8, 0x34, 0x56, 0x78, 0x9A, 0xBC, 0xDE, 0xF0, 0x01];
    assert_eq!(get_u16_be(&b, 0), 0x1234);
    assert_eq!(get_u16_be(&b, 7), 0xF001);
    assert_eq!(get_u32_be(&b, 0), 0x1234_5678);
    assert_eq!(get_u32_be(&b, 5), 0xBCDE_F001);
    assert_eq!(get_i16_be(&[0xFF, 0xFE], 0), -2);
    assert_eq!(get_i16_be(&[0x7F, 0xFF], 0), 32767);
    assert_eq!(get_i64_be(&b, 1), 0x3456_789A_BCDE_F001);
    assert_eq!(get_i64_be(&[0xFF; 8], 0), -1);
}

#[test]
fn reads_past_the_end_give_zero() {
    let b = [0xAAu8, 0xBB, 0xCC];
    assert_eq!(get_u16_be(&b, 2), 0);
    assert_eq!(get_u16_be(&b, 3), 0);
    assert_eq!(get_u16_be(&b, usize::MAX), 0);
    assert_eq!(get_u32_be(&b, 0), 0);
    assert_eq!(get_i16_be(&b, 2), 0);
    assert_eq!(get_i64_be(&b, 0), 0);
    assert_eq!(get_u16_be(&[], 0), 0);
}
