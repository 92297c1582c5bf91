use qcrypt::encoding::{decimal_ascii, decimal_chars, hex_encode, parse_u64, u32_from_be, u32_to_be, u64_from_be, u64_to_be};
use qcrypt::text::{after_first, after_last, contains_chars, prefix_before_char, trim_chars};

fn chars(s: &str) -> Vec<char> {
    s.chars().collect()
}

#[test]
fn hex_encode_is_lowercase_two_digits_per_byte() {
    assert_eq!(hex_encode(&[0x00, 0xab, 0xff, 0x10]), "00abff10");
    assert_eq!(hex_encode(&[]), "");
}

#[test]
fn decimal_forms() {
    assert_eq!(decimal_ascii(0), b"0".to_vec());
    assert_eq!(decimal_ascii(12345), b"12345".to_vec());
    assert_eq!(decimal_ascii(u64::MAX), b"18446744073709551615".to_vec());
    assert_eq!(decimal_chars(1580), chars("1580"));
}

#[test]
fn big_endian_round_trips() {
    assert_eq!(u64_to_be(0x0102030405060708), [1, 2, 3, 4, 5, 6, 7, 8]);
    let b = [9u8, 9, 0, 0, 0, 0, 0, 1, 2, 3];
    assert_eq!(u64_from_be(&b, 2), 0x0000000000010203);
    assert_eq!(u32_to_be(0xdeadbeef), [0xde, 0xad, 0xbe, 0xef]);
    assert_eq!(u32_from_be(&[0, 0, 1, 0]), 256);
    for x in [0u64, 1, 255, 1 << 40, u64::MAX] {
        assert_eq!(u64_from_be(&u64_to_be(x), 0), x);
    }
}

#[test]
fn parse_u64_follows_str_parse() {
    for s in ["0", "42", "+7", "007", "18446744073709551615", "18446744073709551616", "", "+", "-1", "12a", " 1", "1 ", "٣"] {
        assert_eq!(parse_u64(&chars(s)), s.parse::<u64>().ok(), "input {:?}", s);
    }
}

#[test]
fn trimming_matches_str_trim() {
    for s in ["  abc  ", "\t\n x y \r\n", "", "   ", "\u{3000}wide\u{2003}", "plain"] {
        assert_eq!(trim_chars(&chars(s)), chars(s.trim()));
    }
}

#[test]
fn splitting_helpers() {
    assert_eq!(after_first(&chars("a\"id\":\"xyz\"b"), &chars("\"id\":\"")), Some(chars("xyz\"b")));
    assert_eq!(after_first(&chars("nothing"), &chars("\"id\":\"")), None);
    assert_eq!(prefix_before_char(&chars("abc\"def"), '"'), chars("abc"));
    assert_eq!(prefix_before_char(&chars("abc"), '"'), chars("abc"));
    assert_eq!(after_last(&chars("ar://x://tx"), &chars("://")), chars("tx"));
    assert_eq!(after_last(&chars("plain"), &chars("://")), chars("plain"));
    assert_eq!(after_last(&chars("https://h/a/b.enc"), &chars("/")), chars("b.enc"));
    assert!(contains_chars(&chars("hello world"), &chars("o w")));
    assert!(!contains_chars(&chars("hello"), &chars("world")));
}
