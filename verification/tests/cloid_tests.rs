use exchange_actions::cloid::Cloid;
use exchange_actions::errors::Error;

#[test]
fn parse_accepts_well_formed_identifier() {
    let c = Cloid::new("0x00000000000000000000000000000001").unwrap();
    assert_eq!(c.to_raw(), "0x00000000000000000000000000000001");
}

#[test]
fn parse_rejects_short_identifier_as_length_violation() {
    assert_eq!(Cloid::new("0x1"), Err(Error::CloidHexString));
}

#[test]
fn parse_rejects_bad_digits_as_character_violation() {
    assert_eq!(
        Cloid::new("0xZZ00000000000000000000000000001"),
        Err(Error::CloidInvalidCharacters)
    );
    assert_eq!(
        Cloid::new("0xZZ000000000000000000000000000001"),
        Err(Error::CloidInvalidCharacters)
    );
    assert_eq!(
        Cloid::new("0x0000000000000000000000000000000g"),
        Err(Error::CloidInvalidCharacters)
    );
}

#[test]
fn parse_rejects_missing_marker() {
    assert_eq!(Cloid::new("0X00000000000000000000000000000001"), Err(Error::CloidHexString));
    assert_eq!(Cloid::new("1x00000000000000000000000000000001"), Err(Error::CloidHexString));
    assert_eq!(Cloid::new(""), Err(Error::CloidHexString));
    assert_eq!(Cloid::new("0"), Err(Error::CloidHexString));
    assert_eq!(Cloid::new("zz"), Err(Error::CloidHexString));
}

#[test]
fn parse_rejects_wrong_length_with_good_digits() {
    assert_eq!(Cloid::new("0x"), Err(Error::CloidHexString));
    assert_eq!(Cloid::new("0x000000000000000000000000000000001"), Err(Error::CloidHexString));
    assert_eq!(Cloid::new("0x0000000000000000000000000000001"), Err(Error::CloidHexString));
}

#[test]
fn parse_rejects_non_ascii_characters() {
    assert_eq!(
        Cloid::new("0x0000000000000000000000000000000\u{e9}"),
        Err(Error::CloidInvalidCharacters)
    );
    assert_eq!(Cloid::new("0x\u{20ac}"), Err(Error::CloidInvalidCharacters));
    assert_eq!(Cloid::new("\u{20ac}x"), Err(Error::CloidHexString));
}

#[test]
fn parse_puts_digits_in_upper_case_and_keeps_marker() {
    let c = Cloid::new("0xabcdef0123456789ABCDEFabcdef0123").unwrap();
    assert_eq!(c.to_raw(), "0xABCDEF0123456789ABCDEFABCDEF0123");
    assert_eq!(c.to_raw().len(), 34);
    assert_eq!(&c.to_raw()[2..], "abcdef0123456789ABCDEFabcdef0123".to_uppercase());
}

#[test]
fn parsed_identifiers_compare_by_normalized_text() {
    let a = Cloid::new("0x0000000000000000000000000000abcd").unwrap();
    let b = Cloid::new("0x0000000000000000000000000000ABCD").unwrap();
    let c = Cloid::new("0x0000000000000000000000000000abce").unwrap();
    assert_eq!(a, b);
    assert_ne!(a, c);
    assert_eq!(a.clone(), a);
}

#[test]
fn from_int_pads_to_32_lower_case_digits() {
    assert_eq!(Cloid::from_int(0).to_raw(), "0x00000000000000000000000000000000");
    assert_eq!(Cloid::from_int(1).to_raw(), "0x00000000000000000000000000000001");
    assert_eq!(Cloid::from_int(0xabcdef).to_raw(), "0x00000000000000000000000000abcdef");
    assert_eq!(Cloid::from_int(u128::MAX).to_raw(), "0xffffffffffffffffffffffffffffffff");
    assert_eq!(
        Cloid::from_int(0x0123456789abcdef0fedcba987654321).to_raw(),
        "0x0123456789abcdef0fedcba987654321"
    );
}

#[test]
fn from_int_round_trips_through_its_digits() {
    let samples: [u128; 7] = [
        0,
        1,
        15,
        16,
        0xdead_beef,
        1u128 << 127,
        u128::MAX,
    ];
    for x in samples {
        let c = Cloid::from_int(x);
        let raw = c.to_raw();
        assert_eq!(raw.len(), 34);
        assert!(raw.starts_with("0x"));
        assert_eq!(u128::from_str_radix(&raw[2..], 16).unwrap(), x);
    }
}

#[test]
fn from_int_gives_text_that_parses() {
    for x in [0u128, 10, 0xabc, u128::MAX] {
        let made = Cloid::from_int(x);
        let parsed = Cloid::new(made.to_raw()).unwrap();
        assert_eq!(parsed.to_raw(), made.to_raw().replace("0x", "0X").to_uppercase().replace("0X", "0x"));
        assert_eq!(u128::from_str_radix(&parsed.to_raw()[2..], 16).unwrap(), x);
    }
}

#[test]
fn error_messages_differ() {
    let all = [
        Error::AssetNotFound,
        Error::OrderTypeNotFound,
        Error::CloidHexString,
        Error::CloidInvalidCharacters,
    ];
    for (i, a) in all.iter().enumerate() {
        assert!(!a.message().is_empty());
        for (j, b) in all.iter().enumerate() {
            assert_eq!(i == j, a.message() == b.message());
        }
    }
}
