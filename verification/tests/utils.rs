//! Byte-cursor primitives and the small formatting helpers.

use device_tree::utils::{
    dec_str, find_nul, hex_str, join_parts, pop_slice, read_first_be_u32, read_first_be_u64,
    slice_eq, str_eq, take_aligned, take_be_u32, take_be_u64, take_utf8_until_nul,
    take_utf8_until_nul_aligned, vec_strings_fmt,
};

#[test]
fn tests_pop_slice() {
    let mut bytes: &[u8] = b"yesokyesok";
    let first = pop_slice(&mut bytes, 4).unwrap();
    assert_eq!(first, b"yeso");
    assert_eq!(bytes, b"kyesok");
}

#[test]
fn utils_pop_slice() {
    let mut bytes: &[u8] = b"yesokyesok";
    let first = pop_slice(&mut bytes, 4).unwrap();
    assert_eq!(first, b"yeso");
    assert_eq!(bytes, b"kyesok");
}

#[test]
fn pop_slice_whole_and_beyond() {
    let mut bytes: &[u8] = b"abcd";
    assert_eq!(pop_slice(&mut bytes, 5), None);
    assert_eq!(bytes, b"abcd");
    assert_eq!(pop_slice(&mut bytes, 4), Some(b"abcd".as_slice()));
    assert_eq!(bytes, b"");
}

#[test]
fn tests_cstr_from_utf8() {
    let mut bytes: &[u8] = b"hello\0world";
    let s = take_utf8_until_nul(&mut bytes);
    assert_eq!(s, Some("hello"));
}

#[test]
fn utils_cstr_from_utf8() {
    let mut bytes: &[u8] = b"hello\0world";
    let s = take_utf8_until_nul(&mut bytes);
    assert_eq!(s, Some("hello"));
    assert_eq!(bytes, b"world");
}

#[test]
fn tests_take_utf8_until_nul_aligned() {
    let mut bytes: &[u8] = b"hello\0world";
    let s = take_utf8_until_nul_aligned(&mut bytes, 0);
    assert_eq!(s, Some("hello"));
    assert_eq!(bytes, b"world".as_slice());
}

#[test]
fn utils_take_utf8_until_nul_aligned() {
    let mut bytes: &[u8] = b"hello\0world";
    let s = take_utf8_until_nul_aligned(&mut bytes, 0);
    assert_eq!(s, Some("hello"));
    assert_eq!(bytes, b"world".as_slice());
}

#[test]
fn take_utf8_aligned_pads() {
    let mut bytes: &[u8] = b"cpus\0\0\0\0rest";
    let s = take_utf8_until_nul_aligned(&mut bytes, 4);
    assert_eq!(s, Some("cpus"));
    assert_eq!(bytes, b"rest");
}

#[test]
fn take_utf8_rejects_invalid() {
    let mut bytes: &[u8] = &[0xff, 0xfe, 0, 1];
    assert_eq!(take_utf8_until_nul(&mut bytes), None);
    assert_eq!(bytes, &[0xff, 0xfe, 0, 1]);
    let mut no_nul: &[u8] = b"abc";
    assert_eq!(take_utf8_until_nul(&mut no_nul), None);
}

#[test]
fn big_endian_reads() {
    let mut bytes: &[u8] = &[0x12, 0x34, 0x56, 0x78, 0x9a];
    assert_eq!(read_first_be_u32(bytes), Some(0x12345678));
    assert_eq!(take_be_u32(&mut bytes), Some(0x12345678));
    assert_eq!(bytes, &[0x9a]);
    assert_eq!(take_be_u32(&mut bytes), None);

    let mut wide: &[u8] = &[0, 0, 0, 1, 0, 0, 0, 2, 7];
    assert_eq!(read_first_be_u64(wide), Some(0x1_0000_0002));
    assert_eq!(take_be_u64(&mut wide), Some(0x1_0000_0002));
    assert_eq!(wide, &[7]);
    assert_eq!(take_be_u64(&mut wide), None);
}

#[test]
fn aligned_take() {
    let mut bytes: &[u8] = b"abcde\0\0\0tail";
    let v = take_aligned(&mut bytes, 6, 4).unwrap();
    assert_eq!(v, b"abcde\0");
    assert_eq!(bytes, b"tail");
    let mut short: &[u8] = b"abc";
    assert_eq!(take_aligned(&mut short, 2, 4), None);
    assert_eq!(short, b"abc");
}

#[test]
fn nul_scanning() {
    assert_eq!(find_nul(b"ab\0c", 0), Some(2));
    assert_eq!(find_nul(b"ab\0c", 3), None);
    assert_eq!(find_nul(b"\0", 0), Some(0));
}

#[test]
fn equality_helpers() {
    assert!(slice_eq(b"abc", b"abc"));
    assert!(!slice_eq(b"abc", b"abd"));
    assert!(!slice_eq(b"abc", b"ab"));
    assert!(str_eq("#address-cells", "#address-cells"));
    assert!(!str_eq("#address-cells", "#size-cells"));
}

#[test]
fn number_rendering() {
    assert_eq!(hex_str(0), "0".to_string());
    assert_eq!(hex_str(0xDE), "DE".to_string());
    assert_eq!(hex_str(0x10), "10".to_string());
    assert_eq!(hex_str(0xFFFF_FFFF_FFFF_FFFF), "FFFFFFFFFFFFFFFF".to_string());
    assert_eq!(dec_str(0), "0".to_string());
    assert_eq!(dec_str(10), "10".to_string());
    assert_eq!(dec_str(90210), "90210".to_string());
}

#[test]
fn joining() {
    let parts = vec!["a".to_string(), "b".to_string(), "c".to_string()];
    assert_eq!(join_parts(&parts, ", "), "a, b, c".to_string());
    let one = vec!["solo".to_string()];
    assert_eq!(join_parts(&one, " "), "solo".to_string());
    let none: Vec<String> = Vec::new();
    assert_eq!(join_parts(&none, " "), "".to_string());
}

#[test]
fn strings_formatted() {
    let v = vec![String::from("string1"), String::from("string2")];
    assert_eq!(vec_strings_fmt(&v), String::from("'string1', 'string2'"));
    let empty: Vec<String> = Vec::new();
    assert_eq!(vec_strings_fmt(&empty), String::new());
}
