//! Doubles by their bits, and decimal texts.
use rosbridge::float::{Float32, Float64};
use rosbridge::text::{decimal_chars, parse_signed, parse_unsigned, to_chars};

fn double(x: f64) -> Float64 {
    Float64 { bits: x.to_bits() }
}

#[test]
fn doubles_round_as_the_hardware_does() {
    for n in [0u64, 1, 3, 1 << 52, (1 << 53) + 1, (1 << 53) + 3, u64::MAX, u64::MAX - 1024, 123_456_789_012_345_678] {
        assert_eq!(Float64::from_u64(n).bits, (n as f64).to_bits(), "{n}");
    }
    for n in [0i64, -1, i64::MIN, i64::MAX, -((1 << 53) + 1)] {
        assert_eq!(Float64::from_i64(n).bits, (n as f64).to_bits(), "{n}");
    }
    for x in [0.0, -0.0, 1.5, 1e-45, 1e-46, 3.4e38, 3.5e38, -1e300, f64::INFINITY, 0.1, 1.0000000596046448] {
        assert_eq!(double(x).narrow().bits, (x as f32).to_bits(), "{x}");
    }
    for x in [0.0f32, -2.5, 1e-45, f32::MAX, f32::INFINITY, 1.1754942e-38] {
        assert_eq!(Float32 { bits: x.to_bits() }.widen().bits, (x as f64).to_bits(), "{x}");
    }
}

#[test]
fn integers_are_told_apart() {
    assert_eq!(double(42.0).to_integer(), Some(42));
    assert_eq!(double(-7.0).to_integer(), Some(-7));
    assert_eq!(double(0.5).to_integer(), None);
    assert_eq!(double(f64::NAN).to_integer(), None);
    assert!(!double(f64::INFINITY).is_finite());
    assert_eq!(double(1e30).to_integer(), Some(1e30 as i128));
}

#[test]
fn truncation_and_billionths() {
    for x in [0.0, 2.5, -2.5, 1e300, -1e300, 0.999999999, 123.456, f64::NAN] {
        assert_eq!(double(x).truncate(), x as i64, "{x}");
        assert_eq!(double(x).to_billionths(), ((x.fract()) * 1e9).round().abs() as u64, "{x}");
    }
}

#[test]
fn decimal_texts_read_back() {
    for n in [0u64, 9, 10, 4711, u64::MAX] {
        let digits = decimal_chars(n);
        assert_eq!(digits.iter().collect::<String>(), n.to_string());
        assert_eq!(parse_unsigned(&digits, u64::MAX), Some(n));
    }
    assert_eq!(parse_unsigned(&to_chars("256"), 255), None);
    assert_eq!(parse_unsigned(&to_chars("x"), 255), None);
    assert_eq!(parse_signed(&to_chars("-12")), Some(-12));
}
