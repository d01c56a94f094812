use tokio_memcache::decimal::push_decimal;
use tokio_memcache::text::{check_key, check_text, is_key_char};

fn numeral(n: u64) -> Vec<u8> {
    let mut buf = Vec::new();
    push_decimal(&mut buf, n);
    buf
}

#[test]
fn numerals_have_no_padding() {
    assert_eq!(numeral(0), b"0");
    assert_eq!(numeral(9), b"9");
    assert_eq!(numeral(10), b"10");
    assert_eq!(numeral(250), b"250");
    assert_eq!(numeral(65535), b"65535");
    assert_eq!(numeral(4294967295), b"4294967295");
    assert_eq!(numeral(u64::MAX), b"18446744073709551615");
}

#[test]
fn numerals_are_appended() {
    let mut buf = b"n=".to_vec();
    push_decimal(&mut buf, 1203);
    assert_eq!(buf, b"n=1203");
}

#[test]
fn key_bytes_are_the_printable_ones_without_the_space() {
    for b in 0..=255u8 {
        assert_eq!(is_key_char(b), (0x21..=0x7e).contains(&b), "byte {}", b);
    }
}

#[test]
fn keys_are_one_to_250_key_bytes() {
    assert!(check_key(&String::from("a")));
    assert!(check_key(&"a".repeat(250)));
    assert!(!check_key(&"a".repeat(251)));
    assert!(!check_key(&String::new()));
    assert!(!check_key(&String::from("with space")));
    assert!(!check_key(&String::from("line\r\n")));
    assert!(!check_key(&String::from("caf\u{e9}")));
}

#[test]
fn messages_hold_no_line_break() {
    assert!(check_text(&String::new()));
    assert!(check_text(&String::from("out of memory \u{2014} caf\u{e9}")));
    assert!(!check_text(&String::from("one\ntwo")));
    assert!(!check_text(&String::from("one\rtwo")));
}
