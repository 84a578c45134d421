use exchange_actions::numeric::{
    to_canonical_string, to_scaled_integer, MAX_WHOLE, SCALE, SCALE_DIGITS,
};

fn scaled(value: f64) -> u64 {
    (value * 100_000_000.0).round() as u64
}

#[test]
fn scale_is_ten_to_the_eighth() {
    assert_eq!(SCALE, 100_000_000);
    assert_eq!(SCALE_DIGITS, 8);
    assert_eq!(10u64.pow(SCALE_DIGITS), SCALE);
}

#[test]
fn canonical_string_of_whole_numbers() {
    assert_eq!(to_canonical_string(0), "0");
    assert_eq!(to_canonical_string(SCALE), "1");
    assert_eq!(to_canonical_string(10 * SCALE), "10");
    assert_eq!(to_canonical_string(2000 * SCALE), "2000");
    assert_eq!(to_canonical_string(1_234_567_890 * SCALE), "1234567890");
}

#[test]
fn canonical_string_drops_trailing_zeros() {
    assert_eq!(to_canonical_string(180_050_000_000), "1800.5");
    assert_eq!(to_canonical_string(25_000_000), "0.25");
    assert_eq!(to_canonical_string(150_000_000), "1.5");
    assert_eq!(to_canonical_string(100_000_001), "1.00000001");
    assert_eq!(to_canonical_string(1), "0.00000001");
    assert_eq!(to_canonical_string(10), "0.0000001");
    assert_eq!(to_canonical_string(12_345_678), "0.12345678");
    assert_eq!(to_canonical_string(1_000_100), "0.010001");
    assert_eq!(to_canonical_string(99_999_999), "0.99999999");
}

#[test]
fn canonical_string_of_largest_quantity() {
    assert_eq!(to_canonical_string(u64::MAX), "184467440737.09551615");
}

#[test]
fn canonical_string_has_no_exponent_and_no_sign() {
    for x in [0u64, 1, 7, 1_000, 123_456_789_012, u64::MAX] {
        let s = to_canonical_string(x);
        assert!(s.chars().all(|c| c.is_ascii_digit() || c == '.'));
        assert!(s.chars().filter(|c| *c == '.').count() <= 1);
        assert!(!s.ends_with('.'));
        assert!(!s.contains('.') || !s.ends_with('0'));
    }
}

#[test]
fn canonical_string_scales_back_to_the_same_integer() {
    for x in [0u64, 1, 25_000_000, 180_050_000_000, 200_000_000_000, 12_345_678, 987_654_321_012] {
        let s = to_canonical_string(x);
        let (whole, frac) = match s.split_once('.') {
            Some((w, f)) => (w.to_string(), f.to_string()),
            None => (s.clone(), String::new()),
        };
        let mut frac_padded = frac.clone();
        while frac_padded.len() < 8 {
            frac_padded.push('0');
        }
        let back = whole.parse::<u64>().unwrap() * SCALE + frac_padded.parse::<u64>().unwrap();
        assert_eq!(back, x);
    }
}

#[test]
fn canonical_string_agrees_with_float_input() {
    assert_eq!(to_canonical_string(scaled(1800.5)), "1800.5");
    assert_eq!(to_canonical_string(scaled(0.25)), "0.25");
    assert_eq!(to_canonical_string(scaled(2000.0)), "2000");
    assert_eq!(scaled(1800.5), 180_050_000_000);
    assert_eq!(scaled(0.25), 25_000_000);
}

#[test]
fn scaled_integer_of_plain_decimal_text() {
    assert_eq!(to_scaled_integer("1800.5"), Some(180_050_000_000));
    assert_eq!(to_scaled_integer("0.25"), Some(25_000_000));
    assert_eq!(to_scaled_integer("2000"), Some(200_000_000_000));
    assert_eq!(to_scaled_integer("2000.0"), Some(200_000_000_000));
    assert_eq!(to_scaled_integer("0"), Some(0));
    assert_eq!(to_scaled_integer("0.00000001"), Some(1));
    assert_eq!(to_scaled_integer("0001.50"), Some(150_000_000));
    assert_eq!(to_scaled_integer("0.12345678"), Some(12_345_678));
}

#[test]
fn scaled_integer_rounds_half_up_at_the_ninth_place() {
    assert_eq!(to_scaled_integer("0.000000004"), Some(0));
    assert_eq!(to_scaled_integer("0.000000005"), Some(1));
    assert_eq!(to_scaled_integer("0.0000000049999"), Some(0));
    assert_eq!(to_scaled_integer("0.123456785"), Some(12_345_679));
    assert_eq!(to_scaled_integer("0.123456784999"), Some(12_345_678));
    assert_eq!(to_scaled_integer("1.999999995"), Some(200_000_000));
    assert_eq!(to_scaled_integer("1.9999999949"), Some(199_999_999));
}

#[test]
fn scaled_integer_rejects_what_is_no_decimal_text() {
    for text in [
        "", ".", "1.", ".5", "-1", "+1", "1e5", "1.2.3", " 1", "1 ", "1,5", "0x10", "NaN", "inf",
        "1.5a", "a1.5", "1..5", "\u{663}", "1.\u{663}", "1.000000000x",
    ] {
        assert_eq!(to_scaled_integer(text), None);
    }
}

#[test]
fn scaled_integer_stops_at_64_bits() {
    assert_eq!(MAX_WHOLE, u64::MAX / SCALE);
    assert_eq!(to_scaled_integer("184467440737.09551615"), Some(u64::MAX));
    assert_eq!(to_scaled_integer("184467440737.095516154"), Some(u64::MAX));
    assert_eq!(to_scaled_integer("184467440737.095516155"), None);
    assert_eq!(to_scaled_integer("184467440737.09551616"), None);
    assert_eq!(to_scaled_integer("184467440737.1"), None);
    assert_eq!(to_scaled_integer("184467440738"), None);
    assert_eq!(to_scaled_integer("184467440737"), Some(18_446_744_073_700_000_000));
    assert_eq!(to_scaled_integer("99999999999999999999999999999999"), None);
    assert_eq!(to_scaled_integer("000000000000000000000000000000001"), Some(SCALE));
}

#[test]
fn canonical_string_and_scaled_integer_agree() {
    let mut x: u64 = 1;
    for _ in 0..200 {
        assert_eq!(to_scaled_integer(&to_canonical_string(x)), Some(x));
        x = x.wrapping_mul(6364136223846793005).wrapping_add(1442695040888963407);
    }
    for x in [0u64, 1, 9, 10, 99_999_999, 100_000_000, 100_000_001, u64::MAX - 1, u64::MAX] {
        assert_eq!(to_scaled_integer(&to_canonical_string(x)), Some(x));
    }
}

#[test]
fn decimal_text_and_float_give_the_same_scaled_integer() {
    for (text, value) in [("1800.5", 1800.5f64), ("0.25", 0.25), ("2000", 2000.0), ("31.4375", 31.4375)] {
        assert_eq!(to_scaled_integer(text), Some(scaled(value)));
        assert_eq!(to_canonical_string(scaled(value)), text);
    }
}

#[test]
fn canonical_string_is_never_longer_than_another_text_of_the_quantity() {
    for text in ["0001.50", "1.50000000", "2000.0", "0.25", "00", "0.0", "10.00000001", "7"] {
        let value = to_scaled_integer(text).unwrap();
        let canonical = to_canonical_string(value);
        assert!(canonical.len() <= text.len());
        assert_eq!(to_scaled_integer(&canonical), Some(value));
    }
    assert_eq!(to_canonical_string(to_scaled_integer("0001.50").unwrap()), "1.5");
    assert_eq!(to_canonical_string(to_scaled_integer("0.0").unwrap()), "0");
}
