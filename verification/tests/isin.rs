use symbology::error::Error;
use symbology::isin::{
    compute_checksum, convert_char_as_byte_to_numbers, has_isin_format, replace_chars_to_numbers,
    verify_isin, ISIN,
};

#[test]
fn validate_some_good_isins() {
    assert!(verify_isin("US0378331005")); // Apple
    assert!(verify_isin("US5949181045")); // Microsoft
    assert!(verify_isin("US38259P5089")); // Google
}

#[test]
fn fail_some_bad_isins() {
    assert!(!verify_isin("US5949181040")); // Microsoft (checksum zeroed)
    assert!(!verify_isin("US38259P5080")); // Google (checksum zeroed)
    assert!(!verify_isin("US0378331000")); // Apple (checksum zeroed)

    assert!(!verify_isin("SU5941981045")); // Microsoft (two chars transposed)
    assert!(!verify_isin("US3825P95089")); // Google (two chars transposed)
    assert!(!verify_isin("US0378313005")); // Apple (two chars transposed)
}

#[test]
fn parse_isin() {
    let parsed = ISIN::parse_isin("US0378331005").unwrap();
    assert_eq!("US", parsed.get_county_code());
    assert_eq!("037833100", parsed.get_identifier());
    assert_eq!("5", parsed.get_checksum());
}

#[test]
fn parse_isin_errors() {
    assert_eq!(ISIN::parse_isin("US0378331000"), Err(Error::ChecksumError)); // checksum wrong
    assert_eq!(ISIN::parse_isin("US037833100"), Err(Error::NoResult)) // no checksum
}

#[test]
fn isin_without_check_digit_has_no_result() {
    assert_eq!(ISIN::parse_isin("US037833100"), Err(Error::NoResult));
    assert_eq!(ISIN::parse_isin(""), Err(Error::NoResult));
    assert_eq!(ISIN::parse_isin("US03783310055"), Err(Error::NoResult));
    assert_eq!(ISIN::parse_isin("us0378331005"), Err(Error::NoResult));
    assert_eq!(ISIN::parse_isin("U50378331005"), Err(Error::NoResult));
    assert_eq!(ISIN::parse_isin("US037833100X"), Err(Error::NoResult));
    assert_eq!(ISIN::parse_isin("US03783-1005"), Err(Error::NoResult));
    assert_eq!(ISIN::parse_isin("US0378331005\n"), Err(Error::NoResult));
    assert_eq!(ISIN::parse_isin(" US0378331005"), Err(Error::NoResult));
    assert_eq!(ISIN::parse_isin("ÜS0378331005"), Err(Error::NoResult));
}

#[test]
fn isin_changed_codes_fail_the_checksum() {
    for code in [
        "US5949181040",
        "US38259P5080",
        "US0378331000",
        "SU5941981045",
        "US3825P95089",
        "US0378313005",
    ] {
        assert_eq!(ISIN::parse_isin(code), Err(Error::ChecksumError), "{}", code);
    }
}

#[test]
fn isin_known_codes_parse() {
    for code in ["US0378331005", "US5949181045", "US38259P5089", "DE000BAY0017", "AU0000XVGZA3"] {
        let parsed = ISIN::parse_isin(code).unwrap();
        assert_eq!(parsed.get_isin(), code);
        assert_eq!(parsed.get_county_code(), &code[0..2]);
        assert_eq!(parsed.get_identifier(), &code[2..11]);
        assert_eq!(parsed.get_checksum(), &code[11..]);
    }
}

#[test]
fn isin_parse_agrees_with_the_check_digit_of_the_prefix() {
    let prefix = "US037833100";
    let mut accepted = Vec::new();
    for digit in 0..10 {
        let code = format!("{}{}", prefix, digit);
        assert!(has_isin_format(&code));
        let parsed = ISIN::parse_isin(&code);
        assert_eq!(parsed.is_ok(), verify_isin(&code));
        assert_eq!(parsed.is_ok(), compute_checksum(&code) == digit);
        if parsed.is_ok() {
            accepted.push(digit);
        }
    }
    assert_eq!(accepted, vec![5]);
}

#[test]
fn isin_digits_of_bytes() {
    assert_eq!(convert_char_as_byte_to_numbers(&b'0'), vec![0]);
    assert_eq!(convert_char_as_byte_to_numbers(&b'9'), vec![9]);
    assert_eq!(convert_char_as_byte_to_numbers(&b'A'), vec![1, 0]);
    assert_eq!(convert_char_as_byte_to_numbers(&b'J'), vec![1, 9]);
    assert_eq!(convert_char_as_byte_to_numbers(&b'K'), vec![2, 0]);
    assert_eq!(convert_char_as_byte_to_numbers(&b'Z'), vec![3, 5]);
    assert_eq!(convert_char_as_byte_to_numbers(&b'a'), Vec::<u8>::new());
    assert_eq!(convert_char_as_byte_to_numbers(&b' '), Vec::<u8>::new());
    assert_eq!(convert_char_as_byte_to_numbers(&0xc3), Vec::<u8>::new());
    assert_eq!(
        replace_chars_to_numbers("US0378331005"),
        vec![3, 0, 2, 8, 0, 3, 7, 8, 3, 3, 1, 0, 0, 5]
    );
    assert_eq!(replace_chars_to_numbers("a-Z é9"), vec![3, 5, 9]);
    assert_eq!(replace_chars_to_numbers(""), Vec::<u8>::new());
}

#[test]
fn isin_checksum_values() {
    assert_eq!(compute_checksum("US0378331005"), 5);
    assert_eq!(compute_checksum("US0378331000"), 5);
    assert_eq!(compute_checksum("US5949181045"), 5);
    assert_eq!(compute_checksum("US38259P5089"), 9);
    assert_eq!(compute_checksum(""), 0);
    assert_eq!(compute_checksum("7"), 0);
    assert_eq!(compute_checksum("18"), 8);
    assert_eq!(compute_checksum("59"), 9);
    assert_eq!(compute_checksum("A"), 8);
    assert!(!verify_isin(""));
    assert!(verify_isin("0"));
    assert!(verify_isin("18"));
    assert!(!verify_isin("A"));
}

#[test]
fn isin_captures_decide_the_result() {
    let matched = || Ok(Some(vec![Some("US".to_string())]));
    assert!(ISIN::from_captures("US0378331005", matched()).is_ok());
    assert_eq!(
        ISIN::from_captures("US0378331000", matched()),
        Err(Error::ChecksumError)
    );
    assert_eq!(
        ISIN::from_captures("US037833100", matched()),
        Err(Error::NoResult)
    );
    assert_eq!(
        ISIN::from_captures("US0378331005", Ok(None)),
        Err(Error::NoResult)
    );
    assert_eq!(
        ISIN::from_captures("US0378331005", Err("Invalid repeat syntax".to_string())),
        Err(Error::RegexError("Invalid repeat syntax".to_string()))
    );
}
