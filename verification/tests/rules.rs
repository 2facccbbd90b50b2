use artifact::alphabet::Alphabet;
use artifact::rules::{
    digit, first_broken_rule, holds, lower, report, rule_chain, upper, validate, validate_token,
    violation, Rule, RuleViolation, MIN_NAME_LEN, MIN_SUBTOKEN_NAME_LEN, RULE_COUNT,
};

fn symbols(name: &str) -> Vec<char> {
    name.chars().collect()
}

fn keeps(rule: Rule, name: &str) -> bool {
    holds(rule, &Alphabet::standard(), &symbols(name))
}

#[test]
fn reserved_names_are_rejected() {
    assert_eq!(validate_token("BTC"), Err(RuleViolation::ReservedName));
    assert_eq!(validate_token("ART"), Err(RuleViolation::ReservedName));
    assert_eq!(validate_token("BTC.X"), Err(RuleViolation::ReservedName));
    assert_eq!(validate_token("ART.X"), Err(RuleViolation::ReservedName));
    assert_eq!(validate_token("BTC.ABCDEFGH"), Err(RuleViolation::ReservedName));
    // names that only begin like a reserved one
    assert_eq!(validate_token("BTCX"), Ok(()));
    assert_eq!(validate_token("ARTS"), Ok(()));
    assert_eq!(validate_token("BTC1.ABC"), Ok(()));
    assert_eq!(validate_token("XBTC"), Ok(()));
}

#[test]
fn boundary_lengths() {
    assert_eq!(validate_token(""), Err(RuleViolation::NameTooShort));
    assert_eq!(validate_token("AA"), Err(RuleViolation::NameTooShort));
    assert_eq!(validate_token("AAA"), Ok(()));
    assert_eq!(validate_token("999999999999"), Ok(()));
    assert_eq!(validate_token("ZZZZZZZZZZZZ"), Ok(()));
    assert_eq!(validate_token("ZZZZZZZZZZZZZ"), Err(RuleViolation::NameTooLong));
    assert_eq!(MIN_NAME_LEN, 3);
    assert_eq!(MIN_SUBTOKEN_NAME_LEN, 5);
}

#[test]
fn length_counts_symbols_not_bytes() {
    // one symbol of three bytes
    assert_eq!(validate_token("あ"), Err(RuleViolation::NameTooShort));
    // three symbols of nine bytes
    assert_eq!(validate_token("あああ"), Err(RuleViolation::InvalidLetterCase));
    // thirteen bytes in five symbols
    assert_eq!(validate_token("AB艺术C"), Err(RuleViolation::InvalidLetterCase));
}

#[test]
fn subtoken_rules() {
    assert_eq!(validate_token("ABC.DEFGH"), Ok(()));
    assert_eq!(validate_token("ABC.DE"), Ok(()));
    assert_eq!(validate_token("ABC.D"), Ok(()));
    // a separator in a name of fewer than five symbols
    assert_eq!(validate_token("ABC."), Err(RuleViolation::SubtokenTooShort));
    assert_eq!(validate_token("ABC.DEF.GHI"), Err(RuleViolation::TooManySubtokenLevels));
    assert_eq!(validate_token("ABC..ABC"), Err(RuleViolation::TooManySubtokenLevels));
    // the part before the separator is too short
    assert_eq!(validate_token("AB.CDE"), Err(RuleViolation::NameTooShort));
    assert_eq!(validate_token("A.A"), Err(RuleViolation::NameTooShort));
    assert_eq!(validate_token(".ABC"), Err(RuleViolation::NameTooShort));
    assert_eq!(validate_token("ABCD."), Err(RuleViolation::TrailingSeparator));
}

#[test]
fn case_and_character_class() {
    assert_eq!(validate_token("abc"), Err(RuleViolation::InvalidLetterCase));
    assert_eq!(validate_token("ABc"), Err(RuleViolation::InvalidLetterCase));
    assert_eq!(validate_token("AB C"), Err(RuleViolation::InvalidLetterCase));
    assert_eq!(validate_token("AB_C"), Err(RuleViolation::InvalidLetterCase));
    // the base-37 alphabet has no hyphen
    let plain = Alphabet::alphanumeric();
    assert_eq!(validate(&plain, "XN--ABC"), Err(RuleViolation::UnknownSymbol));
    assert_eq!(validate(&plain, "ABC"), Ok(()));
    // an alphabet of three letters
    let small = Alphabet::new(vec!['.', 'A', 'B', 'C']).unwrap();
    assert_eq!(validate(&small, "ABC"), Ok(()));
    assert_eq!(validate(&small, "ABD"), Err(RuleViolation::UnknownSymbol));
    assert_eq!(validate(&small, "AB1"), Err(RuleViolation::UnknownSymbol));
    assert_eq!(validate(&small, "ABd"), Err(RuleViolation::InvalidLetterCase));
}

#[test]
fn hyphens_are_for_internationalized_names() {
    assert_eq!(validate_token("XN--CQV902D"), Ok(()));
    assert_eq!(validate_token("XN--A"), Ok(()));
    assert_eq!(validate_token("XN--A-B"), Ok(()));
    assert_eq!(validate_token("ABC-ABC"), Err(RuleViolation::IllegalHyphenUsage));
    assert_eq!(validate_token("XN-ABC"), Err(RuleViolation::IllegalHyphenUsage));
    assert_eq!(validate_token("XN--"), Err(RuleViolation::IllegalHyphenUsage));
    assert_eq!(validate_token("XN--ABC-"), Err(RuleViolation::IllegalHyphenUsage));
    assert_eq!(validate_token("-ABC"), Err(RuleViolation::IllegalHyphenUsage));
    assert_eq!(validate_token("XN--ABC.DEF"), Ok(()));
}

#[test]
fn the_first_broken_rule_is_reported() {
    let alphabet = Alphabet::standard();
    // too short and lower case: the length comes first
    assert_eq!(first_broken_rule(&alphabet, "ab"), Some(Rule::Length));
    // two separators, a trailing one and lower case
    assert_eq!(first_broken_rule(&alphabet, "abc.d."), Some(Rule::SubtokenLevels));
    // reserved and followed by lower case
    assert_eq!(first_broken_rule(&alphabet, "BTC.abc"), Some(Rule::NotReserved));
    // a hyphen and lower case
    assert_eq!(first_broken_rule(&alphabet, "abc-d"), Some(Rule::Hyphens));
    assert_eq!(first_broken_rule(&alphabet, ".ABC"), Some(Rule::BaseLength));
    assert_eq!(first_broken_rule(&alphabet, "ABC."), Some(Rule::SubtokenLength));
    assert_eq!(first_broken_rule(&alphabet, "ABCD."), Some(Rule::NoTrailingSeparator));
    assert_eq!(first_broken_rule(&alphabet, "abcd"), Some(Rule::LetterCase));
    assert_eq!(first_broken_rule(&alphabet, "ABCD"), None);
    assert_eq!(
        first_broken_rule(&Alphabet::alphanumeric(), "XN--ABC"),
        Some(Rule::KnownSymbols)
    );
}

#[test]
fn the_chain_has_eleven_rules_in_order() {
    let chain = rule_chain();
    assert_eq!(chain.len(), RULE_COUNT);
    assert_eq!(
        chain,
        vec![
            Rule::Length,
            Rule::BaseLength,
            Rule::SubtokenLength,
            Rule::SubtokenLevels,
            Rule::NoLeadingSeparator,
            Rule::NoTrailingSeparator,
            Rule::Hyphens,
            Rule::NotReserved,
            Rule::LetterCase,
            Rule::CharacterClass,
            Rule::KnownSymbols,
        ]
    );
}

#[test]
fn each_rule_alone() {
    assert!(keeps(Rule::Length, "ABC"));
    assert!(keeps(Rule::Length, "..."));
    assert!(!keeps(Rule::Length, "AB"));
    assert!(!keeps(Rule::Length, "ABCDEFGHIJKLM"));

    assert!(keeps(Rule::BaseLength, "ABC"));
    assert!(keeps(Rule::BaseLength, "ABC.D"));
    assert!(!keeps(Rule::BaseLength, "AB.CD"));
    assert!(!keeps(Rule::BaseLength, "AB"));
    assert!(!keeps(Rule::BaseLength, ""));

    assert!(keeps(Rule::SubtokenLength, "AB"));
    assert!(keeps(Rule::SubtokenLength, "A.BCD"));
    assert!(!keeps(Rule::SubtokenLength, "A.BC"));
    assert!(!keeps(Rule::SubtokenLength, "."));

    assert!(keeps(Rule::SubtokenLevels, ""));
    assert!(keeps(Rule::SubtokenLevels, "A.B"));
    assert!(!keeps(Rule::SubtokenLevels, "A.B.C"));
    assert!(!keeps(Rule::SubtokenLevels, ".."));

    assert!(keeps(Rule::NoLeadingSeparator, ""));
    assert!(keeps(Rule::NoLeadingSeparator, "A."));
    assert!(!keeps(Rule::NoLeadingSeparator, ".A"));

    assert!(keeps(Rule::NoTrailingSeparator, ""));
    assert!(keeps(Rule::NoTrailingSeparator, ".A"));
    assert!(!keeps(Rule::NoTrailingSeparator, "A."));

    assert!(keeps(Rule::Hyphens, "ABC"));
    assert!(keeps(Rule::Hyphens, "XN--A"));
    assert!(!keeps(Rule::Hyphens, "XN--"));
    assert!(!keeps(Rule::Hyphens, "xn--A"));
    assert!(!keeps(Rule::Hyphens, "-"));

    assert!(keeps(Rule::NotReserved, "BT"));
    assert!(keeps(Rule::NotReserved, "BTCC"));
    assert!(!keeps(Rule::NotReserved, "BTC"));
    assert!(!keeps(Rule::NotReserved, "BTC."));
    assert!(!keeps(Rule::NotReserved, "ART.ABC"));

    assert!(keeps(Rule::LetterCase, "A1.-"));
    assert!(!keeps(Rule::LetterCase, "a"));
    assert!(!keeps(Rule::LetterCase, "A!"));

    assert!(keeps(Rule::CharacterClass, "Aa1.-"));
    assert!(!keeps(Rule::CharacterClass, "A!"));
    assert!(!keeps(Rule::CharacterClass, "あ"));

    assert!(keeps(Rule::KnownSymbols, "A1.-"));
    assert!(!keeps(Rule::KnownSymbols, "a"));
    assert!(!holds(Rule::KnownSymbols, &Alphabet::alphanumeric(), &symbols("A-")));
}

#[test]
fn every_violation_has_its_rule() {
    assert_eq!(violation(Rule::Length, &symbols("AB")), RuleViolation::NameTooShort);
    assert_eq!(violation(Rule::Length, &symbols("ABCDEFGHIJKLM")), RuleViolation::NameTooLong);
    assert_eq!(violation(Rule::BaseLength, &symbols("AB.C")), RuleViolation::NameTooShort);
    assert_eq!(violation(Rule::SubtokenLength, &symbols("A.B")), RuleViolation::SubtokenTooShort);
    assert_eq!(
        violation(Rule::SubtokenLevels, &symbols("A.B.C")),
        RuleViolation::TooManySubtokenLevels
    );
    assert_eq!(
        violation(Rule::NoLeadingSeparator, &symbols(".A")),
        RuleViolation::LeadingSeparator
    );
    assert_eq!(
        violation(Rule::NoTrailingSeparator, &symbols("A.")),
        RuleViolation::TrailingSeparator
    );
    assert_eq!(violation(Rule::Hyphens, &symbols("A-")), RuleViolation::IllegalHyphenUsage);
    assert_eq!(violation(Rule::NotReserved, &symbols("BTC")), RuleViolation::ReservedName);
    assert_eq!(violation(Rule::LetterCase, &symbols("a")), RuleViolation::InvalidLetterCase);
    assert_eq!(
        violation(Rule::CharacterClass, &symbols("!")),
        RuleViolation::InvalidCharacterClass
    );
    assert_eq!(violation(Rule::KnownSymbols, &symbols("a")), RuleViolation::UnknownSymbol);
}

#[test]
fn reports_name_the_rule() {
    assert_eq!(report(Rule::Length, "AB"), "InvalidTokenLength: Must be between 3 and 12");
    assert_eq!(report(Rule::BaseLength, "A.A"), "InvalidTokenLength: Minimum token length is 3");
    assert_eq!(
        report(Rule::SubtokenLength, "ABC."),
        "InvalidTokenLength: Minimum subtoken length is 5"
    );
    assert_eq!(
        report(Rule::SubtokenLevels, "A.B.C"),
        "InvalidTokenLength: Maximum subtoken level is 1"
    );
    assert_eq!(
        report(Rule::NoLeadingSeparator, ".ABC"),
        "InvalidTokenCharacters: First character cannot be '.'"
    );
    assert_eq!(
        report(Rule::NoTrailingSeparator, "ABCD."),
        "InvalidTokenCharacters: Last character cannot be '.'"
    );
    assert_eq!(report(Rule::Hyphens, "A-B"), "InvalidTokenCharacters: Hyphens for IDN only.");
    assert_eq!(
        report(Rule::NotReserved, "BTC.A"),
        "InvalidTokenCharacters: Cannot issue BTC as a token."
    );
    assert_eq!(
        report(Rule::NotReserved, "ART"),
        "InvalidTokenCharacters: Cannot issue ART as a token."
    );
    assert_eq!(
        report(Rule::LetterCase, "abc"),
        "InvalidTokenLetterCase: Must be uppercase characters."
    );
    assert_eq!(
        report(Rule::CharacterClass, "A!"),
        "InvalidTokenCharacters: Must be ascii alphanumeric."
    );
    assert_eq!(
        report(Rule::KnownSymbols, "A?"),
        "InvalidTokenCharacters: Must only use valid characters."
    );
}

#[test]
fn character_classes() {
    assert!(upper('A') && upper('Z') && !upper('a') && !upper('@') && !upper('['));
    assert!(lower('a') && lower('z') && !lower('A') && !lower('`') && !lower('{'));
    assert!(digit('0') && digit('9') && !digit('/') && !digit(':') && !digit('٣'));
}
