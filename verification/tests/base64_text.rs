//! Base64 vectors and strict decoding, and the numeric text model.

use svue::base64::{b64_decode, b64_encode};
use svue::numeric::{parse_num, parse_u128, to_decimal_u128, Num};
use svue::text::str_to_chars;

fn enc(bytes: &[u8]) -> String {
    b64_encode(&bytes.to_vec()).into_iter().collect()
}

fn dec(text: &str) -> Option<Vec<u8>> {
    b64_decode(&str_to_chars(text))
}

#[test]
fn rfc_vectors_encode() {
    assert_eq!(enc(b""), "");
    assert_eq!(enc(b"f"), "Zg==");
    assert_eq!(enc(b"fo"), "Zm8=");
    assert_eq!(enc(b"foo"), "Zm9v");
    assert_eq!(enc(b"foob"), "Zm9vYg==");
    assert_eq!(enc(b"fooba"), "Zm9vYmE=");
    assert_eq!(enc(b"foobar"), "Zm9vYmFy");
}

#[test]
fn rfc_vectors_decode() {
    assert_eq!(dec(""), Some(vec![]));
    assert_eq!(dec("Zg=="), Some(b"f".to_vec()));
    assert_eq!(dec("Zm8="), Some(b"fo".to_vec()));
    assert_eq!(dec("Zm9v"), Some(b"foo".to_vec()));
    assert_eq!(dec("Zm9vYmFy"), Some(b"foobar".to_vec()));
}

#[test]
fn decode_rejects_bad_lengths_and_characters() {
    assert_eq!(dec("Zg="), None);
    assert_eq!(dec("Z"), None);
    assert_eq!(dec("Zg==Zg=="), None);
    assert_eq!(dec("Z!=="), None);
    assert_eq!(dec("====" ), None);
}

#[test]
fn decode_rejects_noncanonical_trailing_bits() {
    // 'h' leaves nonzero bits before the padding.
    assert_eq!(dec("Zh=="), None);
    assert_eq!(dec("Zm9="), None);
}

#[test]
fn round_trip_all_byte_values() {
    let bytes: Vec<u8> = (0u8..=255u8).collect();
    let text = enc(&bytes);
    assert_eq!(dec(&text), Some(bytes));
}

#[test]
fn numbers_parse_to_ten_thousandths() {
    assert_eq!(
        parse_num(&str_to_chars("89.5")),
        Some(Num::Finite { neg: false, scaled: 895000 })
    );
    assert_eq!(
        parse_num(&str_to_chars("89.4999")),
        Some(Num::Finite { neg: false, scaled: 894999 })
    );
    assert_eq!(parse_num(&str_to_chars("25")), Some(Num::Finite { neg: false, scaled: 250000 }));
    assert_eq!(
        parse_num(&str_to_chars("-3.25")),
        Some(Num::Finite { neg: true, scaled: 32500 })
    );
    assert_eq!(parse_num(&str_to_chars("+7.")), Some(Num::Finite { neg: false, scaled: 70000 }));
    assert_eq!(parse_num(&str_to_chars(".5")), Some(Num::Finite { neg: false, scaled: 5000 }));
    assert_eq!(parse_num(&str_to_chars("0")), Some(Num::Finite { neg: false, scaled: 0 }));
}

#[test]
fn number_words_and_failures() {
    assert_eq!(parse_num(&str_to_chars("inf")), Some(Num::Inf { neg: false }));
    assert_eq!(parse_num(&str_to_chars("-Infinity")), Some(Num::Inf { neg: true }));
    assert_eq!(parse_num(&str_to_chars("NaN")), Some(Num::NaN));
    assert_eq!(parse_num(&str_to_chars("")), None);
    assert_eq!(parse_num(&str_to_chars(".")), None);
    assert_eq!(parse_num(&str_to_chars("1,234")), None);
    assert_eq!(parse_num(&str_to_chars("1.2.3")), None);
    assert_eq!(parse_num(&str_to_chars("12 ")), None);
}

#[test]
fn extra_fraction_digits_are_ignored() {
    assert_eq!(
        parse_num(&str_to_chars("1.23456789")),
        Some(Num::Finite { neg: false, scaled: 12345 })
    );
}

#[test]
fn huge_magnitudes_saturate_to_infinity() {
    assert_eq!(
        parse_num(&str_to_chars("99999999999999999999999999")),
        Some(Num::Inf { neg: false })
    );
}

#[test]
fn decimal_integers_round_trip() {
    for v in [0u128, 1, 9, 10, 12345, 340282366920938463463374607431768211455u128] {
        let text = to_decimal_u128(v);
        assert_eq!(parse_u128(&text), Some(v));
    }
    let rendered: String = to_decimal_u128(10203u128).into_iter().collect();
    assert_eq!(rendered, "10203");
}

#[test]
fn u128_parse_rejects_overflow_and_junk() {
    assert_eq!(parse_u128(&str_to_chars("340282366920938463463374607431768211456")), None);
    assert_eq!(parse_u128(&str_to_chars("12a")), None);
    assert_eq!(parse_u128(&str_to_chars("")), None);
}
