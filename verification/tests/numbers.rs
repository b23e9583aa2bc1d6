use webgpu::model::error::ErrorKind;
use webgpu::model::geometry::{parse_into_vec2f32, parse_into_vec3f32, Scalar};
use webgpu::model::number::{is_number_text, parse_unsigned};

const SPELLINGS: [&str; 70] = [
    "0", "1", "-1", "+1", "0.5", ".5", "5.", "-.5", "+5.", "1e5", "1E5", "1e+5", "1e-5", "1.5e10",
    ".5e1", "5.e1", "007", "0.0", "-0.0", "1e0", "1e999", "123456789012345678901234567890",
    "0.000000000000000000000000000000000000000000001", "inf", "Inf", "INF", "-inf", "+inf",
    "infinity", "Infinity", "-INFINITY", "nan", "NaN", "-nan", "+NAN",
    "", "+", "-", ".", "-.", "e", "e5", ".e5", "1e", "1e+", "1e-", "1e5.0", "1.5.5", "1..5", "--1",
    "+-1", "1-", "1+", "1 ", " 1", "1_000", "0x10", "1f", "1.0f", "infi", "infinit", "infinityy",
    "na", "nann", "in", "n", "1,5", "１", "1e5e5", "-+inf",
];

#[test]
fn numeric_literals_are_those_that_parse_as_floats() {
    for spelling in SPELLINGS {
        assert_eq!(
            is_number_text(spelling.as_bytes()),
            spelling.parse::<f32>().is_ok(),
            "{:?}",
            spelling
        );
        assert_eq!(
            is_number_text(spelling.as_bytes()),
            spelling.parse::<f64>().is_ok(),
            "{:?}",
            spelling
        );
    }
}

#[test]
fn numeric_literal_examples() {
    assert!(is_number_text(b"0.2"));
    assert!(is_number_text(b"-12.75e-3"));
    assert!(is_number_text(b"Infinity"));
    assert!(!is_number_text(b""));
    assert!(!is_number_text(b"."));
    assert!(!is_number_text(b"1e"));
    assert!(!is_number_text(b"one"));
    assert!(!is_number_text(b"\xff"));
}

#[test]
fn scalar_keeps_the_literal_as_written() {
    let scalar = Scalar::parse(b"-1.50").unwrap();
    assert_eq!(scalar.text, b"-1.50".to_vec());
    assert_eq!(Scalar::parse(b"1.5x"), Err(ErrorKind::MalformedNumber));
    assert_eq!(Scalar::zero().text, b"0".to_vec());
    assert_eq!(Scalar::one().text, b"1".to_vec());
    assert_eq!(scalar.clone(), scalar);
}

#[test]
fn unsigned_literals_are_read_in_base_ten() {
    assert_eq!(parse_unsigned(b"0"), Some(0));
    assert_eq!(parse_unsigned(b"7"), Some(7));
    assert_eq!(parse_unsigned(b"+7"), Some(7));
    assert_eq!(parse_unsigned(b"0042"), Some(42));
    assert_eq!(parse_unsigned(b"4294967296"), Some(4294967296));
    assert_eq!(
        parse_unsigned(b"340282366920938463463374607431768211455"),
        Some(u128::MAX)
    );
}

#[test]
fn unsigned_literal_beyond_128_bits_is_capped() {
    assert_eq!(parse_unsigned(b"340282366920938463463374607431768211456"), Some(u128::MAX));
    assert_eq!(
        parse_unsigned(b"99999999999999999999999999999999999999999999999999"),
        Some(u128::MAX)
    );
}

#[test]
fn unsigned_literal_needs_digits_only() {
    for text in ["", "+", "-1", "1.0", "1e3", " 1", "1 ", "++1", "1+", "a", "0x1"] {
        assert_eq!(parse_unsigned(text.as_bytes()), None, "{:?}", text);
    }
}

#[test]
fn triple_takes_the_first_three_fields() {
    let v = parse_into_vec3f32(b"0.2 0.4 0.6").unwrap();
    assert_eq!(v.x.text, b"0.2".to_vec());
    assert_eq!(v.y.text, b"0.4".to_vec());
    assert_eq!(v.z.text, b"0.6".to_vec());
    let v = parse_into_vec3f32(b"  1\t2  3 4 5 ").unwrap();
    assert_eq!((v.x.text, v.y.text, v.z.text), (b"1".to_vec(), b"2".to_vec(), b"3".to_vec()));
}

#[test]
fn triple_rejects_missing_and_malformed_fields() {
    assert_eq!(parse_into_vec3f32(b""), Err(ErrorKind::MalformedNumber));
    assert_eq!(parse_into_vec3f32(b"1 2"), Err(ErrorKind::MalformedNumber));
    assert_eq!(parse_into_vec3f32(b"1 2 three"), Err(ErrorKind::MalformedNumber));
    assert_eq!(parse_into_vec3f32(b"1 2 3 four"), Err(ErrorKind::MalformedNumber));
}

#[test]
fn pair_takes_the_first_two_fields() {
    let v = parse_into_vec2f32(b"0.25 0.75").unwrap();
    assert_eq!((v.x.text, v.y.text), (b"0.25".to_vec(), b"0.75".to_vec()));
    let v = parse_into_vec2f32(b"0.25 0.75 0").unwrap();
    assert_eq!((v.x.text, v.y.text), (b"0.25".to_vec(), b"0.75".to_vec()));
    assert_eq!(parse_into_vec2f32(b"0.25"), Err(ErrorKind::MalformedNumber));
    assert_eq!(parse_into_vec2f32(b"0.25 u"), Err(ErrorKind::MalformedNumber));
}
