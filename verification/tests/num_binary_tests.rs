use num_bigint::BigInt;
use six::binary::{frame_payload, unframe_payload, FrameError};
use six::num::{
    num_add, num_div, num_eq, num_from_i128, num_lt, num_mul, num_or, num_parse_decimal, num_sub,
    num_to_usize, num_xor, Num,
};

fn n(x: i128) -> Num {
    num_from_i128(x)
}

fn val(x: &Num) -> String {
    BigInt::from_signed_bytes_le(&x.bytes).to_string()
}

#[test]
fn arithmetic_on_numbers() {
    assert_eq!(val(&num_add(&n(2), &n(3))), "5");
    assert_eq!(val(&num_sub(&n(2), &n(3))), "-1");
    assert_eq!(val(&num_mul(&n(-4), &n(3))), "-12");
    assert_eq!(val(&num_div(&n(-9), &n(4))), "-2");
    assert_eq!(val(&num_div(&n(9), &n(-4))), "-2");
    assert_eq!(
        val(&num_mul(&n(i128::MAX), &n(2))),
        "340282366920938463463374607431768211454"
    );
}

#[test]
fn bitwise_on_numbers() {
    assert_eq!(val(&num_xor(&n(12), &n(10))), "6");
    assert_eq!(val(&num_or(&n(12), &n(10))), "14");
    assert_eq!(val(&num_or(&n(-8), &n(3))), "-5");
    assert_eq!(val(&num_xor(&n(-1), &n(0))), "-1");
}

#[test]
fn comparisons_and_conversions() {
    assert!(num_eq(&n(7), &n(7)));
    assert!(!num_eq(&n(7), &n(-7)));
    assert!(num_lt(&n(-7), &n(7)));
    assert!(!num_lt(&n(7), &n(7)));
    assert_eq!(num_to_usize(&n(42)), Some(42));
    assert_eq!(num_to_usize(&n(-1)), None);
    assert_eq!(num_to_usize(&num_mul(&n(i128::MAX), &n(2))), None);
}

#[test]
fn decimal_parsing() {
    assert_eq!(num_parse_decimal(&"123".to_string()).map(|x| val(&x)), Some("123".to_string()));
    assert_eq!(num_parse_decimal(&"-45".to_string()).map(|x| val(&x)), Some("-45".to_string()));
    assert_eq!(num_parse_decimal(&"+6".to_string()).map(|x| val(&x)), Some("6".to_string()));
    assert_eq!(
        num_parse_decimal(&"1_000".to_string()).map(|x| val(&x)),
        Some("1000".to_string())
    );
    assert!(num_parse_decimal(&"".to_string()).is_none());
    assert!(num_parse_decimal(&"-".to_string()).is_none());
    assert!(num_parse_decimal(&"12a".to_string()).is_none());
    assert!(num_parse_decimal(&"-+1".to_string()).is_none());
}

#[test]
fn frame_layout() {
    let framed = frame_payload(&vec![1u8, 2, 3]);
    assert_eq!(framed, vec![b'S', b'I', b'X', b'!', 3, 0, 0, 0, 1, 2, 3]);
    assert_eq!(frame_payload(&vec![]), vec![b'S', b'I', b'X', b'!', 0, 0, 0, 0]);
}

#[test]
fn frame_roundtrip() {
    let payload: Vec<u8> = (0..300u32).map(|i| (i % 251) as u8).collect();
    let framed = frame_payload(&payload);
    assert_eq!(&framed[4..8], &[44, 1, 0, 0]);
    assert_eq!(unframe_payload(&framed), Ok(payload));
}

#[test]
fn unframe_ignores_trailing_bytes() {
    let data = vec![b'S', b'I', b'X', b'!', 2, 0, 0, 0, 9, 8, 7];
    assert_eq!(unframe_payload(&data), Ok(vec![9, 8]));
}

#[test]
fn unframe_errors() {
    assert_eq!(unframe_payload(&[b'S', b'I']), Err(FrameError::MissingMagic));
    assert_eq!(unframe_payload(&[b'S', b'I', b'X', b'?', 0, 0, 0, 0]), Err(FrameError::InvalidFormat));
    assert_eq!(unframe_payload(&[b'S', b'I', b'X', b'!', 0]), Err(FrameError::MissingLength));
    assert_eq!(unframe_payload(&[b'S', b'I', b'X', b'!', 5, 0, 0, 0, 1]), Err(FrameError::Truncated));
}
