use ape_dts::util::bytes::{
    bytes_eq, copy_bytes, eq_ignore_ascii_case, find_byte, push_bytes, slice_bytes, split_bytes,
    str_bytes, to_lower,
};
use ape_dts::util::crc64::{crc64, push_u64_le};
use ape_dts::util::text::{push_decimal, push_joined, push_signed_decimal};

#[test]
fn lower_folds_ascii_letters_only() {
    assert_eq!(to_lower(b'A'), b'a');
    assert_eq!(to_lower(b'Z'), b'z');
    assert_eq!(to_lower(b'a'), b'a');
    assert_eq!(to_lower(b'@'), b'@');
    assert_eq!(to_lower(b'['), b'[');
    assert_eq!(to_lower(0xC4), 0xC4);
}

#[test]
fn comparison_ignoring_case() {
    assert!(eq_ignore_ascii_case(b"SELECT", b"select"));
    assert!(eq_ignore_ascii_case(b"SeLeCt", b"sElEcT"));
    assert!(eq_ignore_ascii_case(b"", b""));
    assert!(!eq_ignore_ascii_case(b"select", b"selec"));
    assert!(!eq_ignore_ascii_case(b"select", b"selecu"));
    assert!(!eq_ignore_ascii_case(b"@", b"`"));
    assert!(bytes_eq(b"abc", b"abc"));
    assert!(!bytes_eq(b"abc", b"abC"));
    assert!(!bytes_eq(b"abc", b"ab"));
}

#[test]
fn copies_and_slices() {
    assert_eq!(copy_bytes(b"hello"), b"hello".to_vec());
    assert_eq!(str_bytes("h\u{e9}"), vec![b'h', 0xC3, 0xA9]);
    assert_eq!(slice_bytes(b"hello", 1, 4), b"ell".to_vec());
    assert_eq!(slice_bytes(b"hello", 2, 2), Vec::<u8>::new());
    let mut out = b"ab".to_vec();
    push_bytes(&mut out, b"cd");
    assert_eq!(out, b"abcd".to_vec());
}

#[test]
fn find_byte_gives_the_first_place() {
    assert_eq!(find_byte(b"a.b.c", 0, b'.'), 1);
    assert_eq!(find_byte(b"a.b.c", 2, b'.'), 3);
    assert_eq!(find_byte(b"a.b.c", 4, b'.'), 5);
    assert_eq!(find_byte(b"", 0, b'.'), 0);
}

#[test]
fn split_keeps_empty_parts() {
    assert_eq!(split_bytes(b"a b c", b' '), vec![b"a".to_vec(), b"b".to_vec(), b"c".to_vec()]);
    assert_eq!(split_bytes(b"a  b", b' '), vec![b"a".to_vec(), b"".to_vec(), b"b".to_vec()]);
    assert_eq!(split_bytes(b" a ", b' '), vec![b"".to_vec(), b"a".to_vec(), b"".to_vec()]);
    assert_eq!(split_bytes(b"", b' '), vec![b"".to_vec()]);
    assert_eq!(split_bytes(b"abc", b' '), vec![b"abc".to_vec()]);
}

#[test]
fn crc64_check_value() {
    assert_eq!(crc64(0, b"123456789"), 0xe9c6d914c4b8d9ca);
    assert_eq!(crc64(0, b""), 0);
    assert_eq!(crc64(0, &[1u8]), 0x7ad870c830358979);
    let whole = crc64(0, b"hello world");
    let parts = crc64(crc64(0, b"hello "), b"world");
    assert_eq!(whole, parts);
}

#[test]
fn u64_bytes_lowest_first() {
    let mut out = vec![0xAAu8];
    push_u64_le(&mut out, 0x0102030405060708);
    assert_eq!(out, vec![0xAA, 8, 7, 6, 5, 4, 3, 2, 1]);
}

#[test]
fn texts_of_numbers_and_lists() {
    let mut s = String::from("n=");
    push_decimal(&mut s, 0);
    push_decimal(&mut s, 340282366920938463463374607431768211455u128);
    assert_eq!(s, "n=0340282366920938463463374607431768211455");
    let mut s = String::new();
    push_signed_decimal(&mut s, -128);
    push_signed_decimal(&mut s, i64::MIN);
    assert_eq!(s, "-128-9223372036854775808");
    let mut s = String::from("(");
    push_joined(&mut s, &vec!["a".to_string(), "b".to_string(), "c".to_string()], ", ");
    assert_eq!(s, "(a, b, c");
    let mut s = String::from("x");
    push_joined(&mut s, &Vec::new(), ",");
    assert_eq!(s, "x");
    let mut s = String::new();
    push_joined(&mut s, &vec!["only".to_string()], ",");
    assert_eq!(s, "only");
}
