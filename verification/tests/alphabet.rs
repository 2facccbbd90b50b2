use artifact::alphabet::{Alphabet, HYPHEN, MAX_BASE, SEPARATOR};

#[test]
fn standard_alphabet_has_38_symbols() {
    let alphabet = Alphabet::standard();
    assert_eq!(alphabet.base(), 38);
    assert_eq!(MAX_BASE, 38);
    assert_eq!(alphabet.symbol(0), Some(SEPARATOR));
    assert_eq!(alphabet.symbol(1), Some(HYPHEN));
    assert_eq!(alphabet.symbol(2), Some('A'));
    assert_eq!(alphabet.symbol(27), Some('Z'));
    assert_eq!(alphabet.symbol(28), Some('0'));
    assert_eq!(alphabet.symbol(37), Some('9'));
    assert_eq!(alphabet.symbol(38), None);
    assert_eq!(alphabet.symbol(u64::MAX), None);
    assert_eq!(alphabet.lowest(), 2);
    let expected: Vec<char> = ".-ABCDEFGHIJKLMNOPQRSTUVWXYZ0123456789".chars().collect();
    assert_eq!(alphabet.symbols(), &expected);
}

#[test]
fn alphanumeric_alphabet_has_37_symbols() {
    let alphabet = Alphabet::alphanumeric();
    assert_eq!(alphabet.base(), 37);
    assert_eq!(alphabet.symbol(0), Some('.'));
    assert_eq!(alphabet.symbol(1), Some('A'));
    assert_eq!(alphabet.symbol(36), Some('9'));
    assert_eq!(alphabet.lowest(), 1);
    assert_eq!(alphabet.position('-'), None);
}

#[test]
fn position_is_the_digit_value() {
    let alphabet = Alphabet::standard();
    assert_eq!(alphabet.position('.'), Some(0));
    assert_eq!(alphabet.position('-'), Some(1));
    assert_eq!(alphabet.position('A'), Some(2));
    assert_eq!(alphabet.position('9'), Some(37));
    assert_eq!(alphabet.position('a'), None);
    assert_eq!(alphabet.position(' '), None);
    for digit in 0..38 {
        assert_eq!(alphabet.position(alphabet.symbol(digit).unwrap()), Some(digit));
    }
}

#[test]
fn new_takes_valid_symbols_only() {
    let small = Alphabet::new(vec!['.', 'A', 'B']).unwrap();
    assert_eq!(small.base(), 3);
    assert_eq!(small.position('B'), Some(2));
    assert!(Alphabet::new(vec!['.', '-', 'X']).is_some());
    assert!(Alphabet::new(vec!['.', 'A']).is_some());
    // too few symbols
    assert!(Alphabet::new(vec![]).is_none());
    assert!(Alphabet::new(vec!['.']).is_none());
    // nothing besides separator and hyphen
    assert!(Alphabet::new(vec!['.', '-']).is_none());
    // the separator is not first
    assert!(Alphabet::new(vec!['A', '.', 'B']).is_none());
    // the hyphen is not second
    assert!(Alphabet::new(vec!['.', 'A', '-']).is_none());
    // a symbol twice
    assert!(Alphabet::new(vec!['.', 'A', 'B', 'A']).is_none());
    assert!(Alphabet::new(vec!['.', 'A', '.']).is_none());
    // too many symbols
    let many: Vec<char> = ".-ABCDEFGHIJKLMNOPQRSTUVWXYZ0123456789a".chars().collect();
    assert_eq!(many.len(), 39);
    assert!(Alphabet::new(many).is_none());
    let all: Vec<char> = ".-ABCDEFGHIJKLMNOPQRSTUVWXYZ0123456789".chars().collect();
    assert!(Alphabet::new(all).is_some());
}
