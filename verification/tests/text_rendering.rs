use utxo_node::digest::sha256_hex_digest;
use utxo_node::render::{to_debug_bytes, to_signed_decimal};
use utxo_node::text::{bytes_equal, parse_i32, str_equal, str_less, to_decimal, to_hex};

#[test]
fn hex_of_bytes_is_lower_case_pairs() {
    assert_eq!(to_hex(&[0x00, 0x0f, 0xa5, 0xff]), "000fa5ff");
    assert_eq!(to_hex(&[]), "");
    assert_eq!(to_hex(&[0x9a, 0xbc, 0xde]), "9abcde");
}

#[test]
fn decimal_of_numbers() {
    assert_eq!(to_decimal(0), "0");
    assert_eq!(to_decimal(7), "7");
    assert_eq!(to_decimal(10), "10");
    assert_eq!(to_decimal(1234567890), "1234567890");
    assert_eq!(to_decimal(u64::MAX), "18446744073709551615");
}

#[test]
fn signed_decimal_of_numbers() {
    assert_eq!(to_signed_decimal(0), "0");
    assert_eq!(to_signed_decimal(-1), "-1");
    assert_eq!(to_signed_decimal(10), "10");
    assert_eq!(to_signed_decimal(i32::MIN), "-2147483648");
    assert_eq!(to_signed_decimal(i32::MAX), "2147483647");
}

#[test]
fn debug_form_of_bytes_matches_std() {
    for bytes in [vec![], vec![0u8], vec![1, 2, 3], vec![255, 0, 17, 100]] {
        assert_eq!(to_debug_bytes(&bytes), format!("{:?}", bytes));
    }
}

#[test]
fn lexicographic_order_agrees_with_std() {
    let samples = ["", "0", "00", "001", "0010", "01", "1", "a", "ab", "b", "0f", "00f"];
    for a in samples.iter() {
        for b in samples.iter() {
            assert_eq!(str_less(a, b), a < b, "{} < {}", a, b);
        }
    }
}

#[test]
fn equality_of_texts_and_bytes() {
    assert!(str_equal("abc", "abc"));
    assert!(!str_equal("abc", "abd"));
    assert!(!str_equal("abc", "ab"));
    assert!(str_equal("", ""));
    assert!(bytes_equal(&[1, 2], &[1, 2]));
    assert!(!bytes_equal(&[1, 2], &[1, 3]));
    assert!(!bytes_equal(&[1, 2], &[1]));
}

#[test]
fn numerals_parse_like_std() {
    let samples = [
        "0", "7", "-7", "+7", "10", "0010", "2147483647", "2147483648", "-2147483648",
        "-2147483649", "99999999999999999999", "", "-", "+", "1a", "a1", " 1", "1 ", "--1", "3",
        "9999",
    ];
    for s in samples.iter() {
        assert_eq!(parse_i32(s), s.parse::<i32>().ok(), "{:?}", s);
    }
}

#[test]
fn sha256_of_known_inputs() {
    assert_eq!(
        sha256_hex_digest(b"abc"),
        "ba7816bf8f01cfea414140de5dae2223b00361a396177a9cb410ff61f20015ad"
    );
    assert_eq!(
        sha256_hex_digest(b""),
        "e3b0c44298fc1c149afbf4c8996fb92427ae41e4649b934ca495991b7852b855"
    );
}
