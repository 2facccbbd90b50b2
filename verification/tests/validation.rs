use artifact::rules::validate_token;

#[test]
fn validate_token_is_not_btc_or_native_token() {
    // Case: Mainchain Token
    assert_eq!(validate_token("BTC").is_ok(), false);
    // Case: Federated Token
    assert_eq!(validate_token("ART").is_ok(), false);
    // Case: Mainchain Subtoken
    assert_eq!(validate_token("BTC.A").is_ok(), false);
    // Case: Federated Subtoken
    assert_eq!(validate_token("ART.A").is_ok(), false);
}

#[test]
fn validate_token_is_not_multilevel_subtoken() {
    // Case: No-Levels
    assert_eq!(validate_token("ABC").is_ok(), true);
    // Case: One-Level
    assert_eq!(validate_token("ABC.ABC").is_ok(), true);
    // Case: Two-Levels
    assert_eq!(validate_token("ABC.ABC.ABC").is_ok(), false);
    // Case: Empty Level
    assert_eq!(validate_token("ABC..ABC").is_ok(), false);
    // Case: Empty Level
    assert_eq!(validate_token("ABC...ABC").is_ok(), false);
}

#[test]
fn validate_token_does_not_start_with_period() {
    // Case: Starting
    assert_eq!(validate_token(".ABC").is_ok(), false);
    // Case: Starting (Subtoken)
    assert_eq!(validate_token(".ABC.ABC").is_ok(), false);
}

#[test]
fn validate_token_does_not_end_with_a_period() {
    // Case: Ending
    assert_eq!(validate_token("ABC.").is_ok(), false);
    // Case: Ending (Subtoken)
    assert_eq!(validate_token("ABC.ABC.").is_ok(), false);
}

#[test]
fn validate_token_does_not_use_invalid_hyphens() {
    // Case: Single
    assert_eq!(validate_token("ABC-ABC").is_ok(), false);
    // Case: Double
    assert_eq!(validate_token("ABC--ABC").is_ok(), false);
    // Case: Start
    assert_eq!(validate_token("-ABC").is_ok(), false);
    // Case: Ending
    assert_eq!(validate_token("ABC-").is_ok(), false);
}

#[test]
fn validate_token_is_between_3_and_13_chars() {
    // Case: Empty Name
    assert_eq!(validate_token("").is_ok(), false);
    // Case: 1 Character
    assert_eq!(validate_token("A").is_ok(), false);
    // Case: 3 Characters
    assert_eq!(validate_token("AAA").is_ok(), true);
    // Case: 12 Characters
    assert_eq!(validate_token("ZZZZZZZZZZZZ").is_ok(), true);
    // Case: 13 Characters
    assert_eq!(validate_token("XXXXXXXXXXXXX").is_ok(), false);
}

#[test]
fn validate_subtoken_is_between_5_and_13_chars() {
    // Case: Empty Name
    assert_eq!(validate_token("").is_ok(), false);
    // Case: 1 Character (Subtoken)
    assert_eq!(validate_token("A.A").is_ok(), false);
    // Case: 3 Characters (Subtoken)
    assert_eq!(validate_token("ABC.1").is_ok(), true);
    // Case: 12 Characters (Subtoken)
    assert_eq!(validate_token("ZZZZZZZZ.ZZZ").is_ok(), true);
    // Case: 13 Characters (Subtoken)
    assert_eq!(validate_token("XXXXXXXXX.XXX").is_ok(), false);
}

#[test]
fn validate_token_is_only_ascii_uppercase() {
    // Case: Lowercase
    assert_eq!(validate_token("lowercase").is_ok(), false);
    // Case: Lowercase (Subtoken)
    assert_eq!(validate_token("lower.case").is_ok(), false);
    // Case: Uppercase
    assert_eq!(validate_token("UPPERCASE").is_ok(), true);
    // Case: Uppercase (Subtoken)
    assert_eq!(validate_token("UPPER.case").is_ok(), false);
    // Case: Uppercase (Subtoken)
    assert_eq!(validate_token("UPPER.CASE").is_ok(), true);
    // Case: Mixed case
    assert_eq!(validate_token("TitleCase").is_ok(), false);
    // Case: Mixed case (Subtoken)
    assert_eq!(validate_token("Title.case").is_ok(), false);
}

#[test]
fn validate_token_is_only_ascii_alphanumeric() {
    // Case: Alphabetic
    assert_eq!(validate_token("ALPHABETIC").is_ok(), true);
    // Case: Alphabetic (Subtoken)
    assert_eq!(validate_token("ALPHA.BETIC").is_ok(), true);
    // Case: Japanese
    assert_eq!(validate_token("あ").is_ok(), false);
    // Case: Japanese (Subtoken)
    assert_eq!(validate_token("あ.あ").is_ok(), false);
    // Case: Numeric
    assert_eq!(validate_token("123456").is_ok(), true);
    // Case: Numeric (Subtoken)
    assert_eq!(validate_token("123.456").is_ok(), true);
    // Case: Mixed
    assert_eq!(validate_token("ABC123").is_ok(), true);
    // Case: Mixed (Subtoken)
    assert_eq!(validate_token("ABC.123").is_ok(), true);
}

#[test]
fn validate_token_can_be_internationalized() {
    // Case: "艺术"
    assert_eq!(validate_token("艺术").is_ok(), false);
    // Case: "艺术" (ITN)
    assert_eq!(validate_token("XN--CQV902D").is_ok(), true);
    // Case: the hyphen rule looks at the prefix and at the last symbol
    // only, so any letters and digits may follow the prefix
    assert_eq!(validate_token("XN--1234567").is_ok(), true);
}
