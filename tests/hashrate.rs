use ckpool_api::error::DecodeError;
use ckpool_api::hashrate::{decode_hashrate, encode_hashrate, parse_decimal, Decimal};

fn digits_and_scale(text: &str) -> (Vec<u8>, usize) {
    let d: Decimal = decode_hashrate(text).unwrap();
    (d.digits, d.scale)
}

fn invalid_text(text: &str) -> String {
    match decode_hashrate(text) {
        Err(DecodeError::InvalidNumber(t)) => t,
        other => panic!("expected an invalid number, got {:?}", other),
    }
}

#[test]
fn zero_and_blank_texts_are_zero() {
    assert_eq!(digits_and_scale("0"), (vec![0], 0));
    assert_eq!(digits_and_scale(""), (vec![0], 0));
    assert_eq!(digits_and_scale("  "), (vec![0], 0));
    assert_eq!(digits_and_scale(" 0 "), (vec![0], 0));
}

#[test]
fn non_numbers_are_refused() {
    assert_eq!(invalid_text("abc"), "abc");
    assert_eq!(invalid_text("3Q"), "3Q");
    assert_eq!(invalid_text("K"), "");
    assert_eq!(invalid_text("1.2.3M"), "1.2.3");
    assert_eq!(invalid_text("-5"), "-5");
    assert_eq!(invalid_text("."), ".");
}

#[test]
fn unit_letters_scale_in_either_case() {
    assert_eq!(digits_and_scale("1K"), (vec![1, 0, 0, 0], 0));
    assert_eq!(digits_and_scale("1k"), (vec![1, 0, 0, 0], 0));
    assert_eq!(digits_and_scale("6.2M"), (vec![6, 2, 0, 0, 0, 0, 0], 0));
    assert_eq!(digits_and_scale("2g"), (vec![2, 0, 0, 0, 0, 0, 0, 0, 0, 0], 0));
    assert_eq!(digits_and_scale("1t").0.len(), 13);
    assert_eq!(digits_and_scale("3P").0.len(), 16);
    assert_eq!(digits_and_scale("4e").0.len(), 19);
    assert_eq!(digits_and_scale("4E").0[0], 4);
}

#[test]
fn fractions_finer_than_the_unit_keep_a_scale() {
    assert_eq!(digits_and_scale("1.23456K"), (vec![1, 2, 3, 4, 5, 6], 2));
    assert_eq!(digits_and_scale(".5"), (vec![5], 1));
    assert_eq!(digits_and_scale("5."), (vec![5], 0));
    assert_eq!(digits_and_scale("12.5"), (vec![1, 2, 5], 1));
}

#[test]
fn surrounding_white_space_is_ignored() {
    assert_eq!(digits_and_scale(" 7G\t"), (vec![7, 0, 0, 0, 0, 0, 0, 0, 0, 0], 0));
    assert_eq!(digits_and_scale("\n340M "), (vec![3, 4, 0, 0, 0, 0, 0, 0, 0], 0));
}

#[test]
fn plain_decimals_parse_without_units() {
    assert_eq!(parse_decimal("105654.8966"), Some((vec![1, 0, 5, 6, 5, 4, 8, 9, 6, 6], 4)));
    assert_eq!(parse_decimal("7"), Some((vec![7], 0)));
    assert_eq!(parse_decimal("7K"), None);
    assert_eq!(parse_decimal(""), None);
}

fn encoded(digits: Vec<u8>, scale: usize) -> String {
    encode_hashrate(&Decimal { digits, scale })
}

#[test]
fn encoding_places_the_point() {
    assert_eq!(encoded(vec![6, 2, 0, 0, 0, 0, 0], 0), "6200000");
    assert_eq!(encoded(vec![1, 2, 5], 1), "12.5");
    assert_eq!(encoded(vec![5], 2), ".05");
    assert_eq!(encoded(vec![5], 1), ".5");
    assert_eq!(encoded(vec![], 3), "0");
    assert_eq!(encoded(vec![0], 0), "0");
}

#[test]
fn encoded_text_decodes_to_the_same_value() {
    let d = decode_hashrate("1.23456K").unwrap();
    let text = encode_hashrate(&d);
    assert_eq!(text, "1234.56");
    let back = decode_hashrate(&text).unwrap();
    assert_eq!((back.digits, back.scale), (d.digits, d.scale));
    assert_eq!(encode_hashrate(&decode_hashrate("6.2M").unwrap()), "6200000");
}

#[test]
fn exponents_and_plus_signs_are_numbers() {
    assert_eq!(digits_and_scale("1e5"), (vec![1, 0, 0, 0, 0, 0], 0));
    assert_eq!(digits_and_scale("1E5"), (vec![1, 0, 0, 0, 0, 0], 0));
    assert_eq!(digits_and_scale("+5"), (vec![5], 0));
    assert_eq!(digits_and_scale("2.5e-3"), (vec![2, 5], 4));
    assert_eq!(digits_and_scale("1e+2K"), (vec![1, 0, 0, 0, 0, 0], 0));
    assert_eq!(digits_and_scale("5e-1K"), (vec![5, 0, 0], 0));
    assert_eq!(digits_and_scale("1e5e").0.len(), 24);
    assert_eq!(digits_and_scale("1e"), digits_and_scale("1E"));
    assert_eq!(digits_and_scale("1e").0.len(), 19);
}

#[test]
fn malformed_exponents_are_refused() {
    assert_eq!(invalid_text("1e-"), "1e-");
    assert_eq!(invalid_text("e5"), "e5");
    assert_eq!(invalid_text("1e1001"), "1e1001");
    assert_eq!(invalid_text("1e5.5"), "1e5.5");
    assert_eq!(invalid_text("++5"), "++5");
}
