use patternscanner::{create_bytes_from_string, PatternScannerError};

#[test]
fn test_create_bytes_from_string_1() {
    assert_eq!(
        create_bytes_from_string("AA BB CC").unwrap(),
        vec![Some(0xAA), Some(0xBB), Some(0xCC)]
    );
}

#[test]
fn test_create_bytes_from_string_2() {
    assert_eq!(
        create_bytes_from_string("AA BB CC AA BB FF").unwrap(),
        vec![
            Some(0xAA),
            Some(0xBB),
            Some(0xCC),
            Some(0xAA),
            Some(0xBB),
            Some(0xFF)
        ]
    );
}

#[test]
fn test_create_bytes_from_string_wildcard_1() {
    assert_eq!(
        create_bytes_from_string("AA BB ? ? CC").unwrap(),
        vec![Some(0xAA), Some(0xBB), None, None, Some(0xCC)]
    );
}

#[test]
fn test_create_bytes_from_string_wildcard_2() {
    assert_eq!(
        create_bytes_from_string("? AA BB ? ? CC ? ? ? FF").unwrap(),
        vec![
            None,
            Some(0xAA),
            Some(0xBB),
            None,
            None,
            Some(0xCC),
            None,
            None,
            None,
            Some(0xFF)
        ]
    );
}

#[test]
fn test_create_bytes_from_string_error_invalid_byte() {
    assert!(create_bytes_from_string("AA GG").is_err());
}

#[test]
fn test_create_bytes_from_string_error_space() {
    assert_eq!(
        create_bytes_from_string("A A BB"),
        Err(PatternScannerError::ByteLength("A".to_owned()))
    );
}

#[test]
fn invalid_byte_holds_the_token() {
    assert_eq!(
        create_bytes_from_string("AA GG"),
        Err(PatternScannerError::InvalidByte("GG".to_owned(), 'G'))
    );
}

#[test]
fn sign_is_not_a_hex_digit() {
    assert_eq!(
        create_bytes_from_string("+A"),
        Err(PatternScannerError::InvalidByte("+A".to_owned(), '+'))
    );
}

#[test]
fn long_token_is_a_length_error() {
    assert_eq!(
        create_bytes_from_string("AA ABC"),
        Err(PatternScannerError::ByteLength("ABC".to_owned()))
    );
    assert_eq!(
        create_bytes_from_string("???"),
        Err(PatternScannerError::ByteLength("???".to_owned()))
    );
}

#[test]
fn first_invalid_token_decides_the_error() {
    assert_eq!(
        create_bytes_from_string("GG A"),
        Err(PatternScannerError::InvalidByte("GG".to_owned(), 'G'))
    );
    assert_eq!(
        create_bytes_from_string("A GG"),
        Err(PatternScannerError::ByteLength("A".to_owned()))
    );
}

#[test]
fn any_whitespace_separates_tokens() {
    assert_eq!(
        create_bytes_from_string("\t aa  ??\n0f\r\n Bb \u{3000}7E ").unwrap(),
        vec![Some(0xAA), None, Some(0x0F), Some(0xBB), Some(0x7E)]
    );
}

#[test]
fn double_question_mark_is_a_wildcard() {
    assert_eq!(
        create_bytes_from_string("?? 00 ?").unwrap(),
        vec![None, Some(0x00), None]
    );
}

#[test]
fn blank_pattern_compiles_to_nothing() {
    assert_eq!(create_bytes_from_string("").unwrap(), vec![]);
    assert_eq!(create_bytes_from_string(" \t\n").unwrap(), vec![]);
}

#[test]
fn token_count_matches_mask_length() {
    let mask = create_bytes_from_string("01 ? 23 ?? 45 67 ?").unwrap();
    assert_eq!(mask.len(), 7);
    assert_eq!(mask[0], Some(0x01));
    assert_eq!(mask[2], Some(0x23));
    assert_eq!(mask[5], Some(0x67));
}

#[test]
fn invalid_byte_cause_is_first_bad_digit() {
    assert_eq!(
        create_bytes_from_string("AZ"),
        Err(PatternScannerError::InvalidByte("AZ".to_owned(), 'Z'))
    );
    assert_eq!(
        create_bytes_from_string("x?"),
        Err(PatternScannerError::InvalidByte("x?".to_owned(), 'x'))
    );
}
