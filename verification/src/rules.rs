//! The rule chain: the ordered rules that decide whether a name is an
//! admissible token name. The rules are applied in a fixed order and the
//! first one that a name breaks decides the violation that is reported.

use vstd::prelude::*;
use vstd::arithmetic::power::lemma_pow_positive;
use crate::alphabet::{standard_symbols, valid_symbols, Alphabet, HYPHEN, SEPARATOR};
use crate::codec::{
    decode_spec, encodable, encode_spec, lemma_codes_fit, lemma_decode_encode,
    lemma_encode_bounds, lemma_encode_increasing, precedes, spelled_in, MAX_CODES, MAX_NAME_LEN,
};
use crate::text::symbols_of;

verus! {

/// The shortest name.
pub const MIN_NAME_LEN: usize = 3;

/// The shortest name that holds a subtoken.
pub const MIN_SUBTOKEN_NAME_LEN: usize = 5;

/// The number of rules in the chain.
pub const RULE_COUNT: usize = 11;

/// What a name can be rejected for.
#[derive(Clone, Copy, Debug, PartialEq, Eq, Structural)]
pub enum RuleViolation {
    /// The name, or its part before the separator, has fewer than three
    /// symbols.
    NameTooShort,
    /// The name has more than twelve symbols.
    NameTooLong,
    /// The name holds a separator and has fewer than five symbols.
    SubtokenTooShort,
    /// The name holds more than one separator.
    TooManySubtokenLevels,
    /// The name starts with the separator.
    LeadingSeparator,
    /// The name ends with the separator.
    TrailingSeparator,
    /// The name holds a hyphen without being an internationalized name,
    /// or ends with one.
    IllegalHyphenUsage,
    /// The name is a reserved name or a subtoken of one.
    ReservedName,
    /// A symbol other than separator and hyphen is neither an upper-case
    /// letter nor a digit.
    InvalidLetterCase,
    /// A symbol other than separator and hyphen is neither a letter nor a
    /// digit.
    InvalidCharacterClass,
    /// A symbol is not in the alphabet.
    UnknownSymbol,
}

/// One rule of the chain.
#[derive(Clone, Copy, Debug, PartialEq, Eq, Structural)]
pub enum Rule {
    /// The name has three to twelve symbols.
    Length,
    /// The part before the first separator has at least three symbols.
    BaseLength,
    /// A name with a separator has at least five symbols.
    SubtokenLength,
    /// There is at most one separator.
    SubtokenLevels,
    /// The first symbol is not the separator.
    NoLeadingSeparator,
    /// The last symbol is not the separator.
    NoTrailingSeparator,
    /// A hyphen occurs only in a name that starts with the prefix of
    /// internationalized names and does not end with a hyphen.
    Hyphens,
    /// The name is neither a reserved name nor a subtoken of one.
    NotReserved,
    /// Apart from separator and hyphen, every symbol is an upper-case
    /// letter or a digit.
    LetterCase,
    /// Apart from separator and hyphen, every symbol is a letter or a
    /// digit.
    CharacterClass,
    /// Every symbol belongs to the alphabet.
    KnownSymbols,
}

/// The rules in the order in which they are applied.
pub open spec fn rule_order() -> Seq<Rule> {
    seq![
        Rule::Length,
        Rule::BaseLength,
        Rule::SubtokenLength,
        Rule::SubtokenLevels,
        Rule::NoLeadingSeparator,
        Rule::NoTrailingSeparator,
        Rule::Hyphens,
        Rule::NotReserved,
        Rule::LetterCase,
        Rule::CharacterClass,
        Rule::KnownSymbols,
    ]
}

/// The prefix that marks an internationalized name.
pub open spec fn idn_prefix() -> Seq<char> {
    seq!['X', 'N', '-', '-']
}

/// The name of the base-layer currency.
pub open spec fn base_currency() -> Seq<char> {
    seq!['B', 'T', 'C']
}

/// The name of the network's native asset.
pub open spec fn native_asset() -> Seq<char> {
    seq!['A', 'R', 'T']
}

/// Whether `name` is `reserved` itself or a subtoken of it.
pub open spec fn claims(name: Seq<char>, reserved: Seq<char>) -> bool {
    name == reserved || reserved.push(SEPARATOR).is_prefix_of(name)
}

/// Whether `c` is an upper-case ASCII letter.
pub open spec fn is_upper(c: char) -> bool {
    'A' <= c <= 'Z'
}

/// Whether `c` is a lower-case ASCII letter.
pub open spec fn is_lower(c: char) -> bool {
    'a' <= c <= 'z'
}

/// Whether `c` is an ASCII digit.
pub open spec fn is_digit(c: char) -> bool {
    '0' <= c <= '9'
}

/// Whether `c` is one of the two symbols that structure a name.
pub open spec fn is_punctuation(c: char) -> bool {
    c == SEPARATOR || c == HYPHEN
}

/// Whether the part of `name` before its first separator, or all of it
/// where it has none, has at least `n` symbols.
pub open spec fn base_has(name: Seq<char>, n: int) -> bool {
    n <= name.len() && forall|i: int| 0 <= i < n ==> name[i] != SEPARATOR
}

/// Whether `name` keeps `rule`.
pub open spec fn rule_holds(rule: Rule, symbols: Seq<char>, name: Seq<char>) -> bool {
    match rule {
        Rule::Length => MIN_NAME_LEN <= name.len() <= MAX_NAME_LEN,
        Rule::BaseLength => base_has(name, MIN_NAME_LEN as int),
        Rule::SubtokenLength => name.contains(SEPARATOR) ==> name.len() >= MIN_SUBTOKEN_NAME_LEN,
        Rule::SubtokenLevels => forall|i: int, j: int|
            0 <= i < j < name.len() && name[i] == SEPARATOR ==> name[j] != SEPARATOR,
        Rule::NoLeadingSeparator => name.len() > 0 ==> name[0] != SEPARATOR,
        Rule::NoTrailingSeparator => name.len() > 0 ==> name.last() != SEPARATOR,
        Rule::Hyphens => name.contains(HYPHEN) ==> idn_prefix().is_prefix_of(name) && name.last()
            != HYPHEN,
        Rule::NotReserved => !claims(name, base_currency()) && !claims(name, native_asset()),
        Rule::LetterCase => forall|i: int|
            0 <= i < name.len() && !is_punctuation(#[trigger] name[i]) ==> is_upper(name[i])
                || is_digit(name[i]),
        Rule::CharacterClass => forall|i: int|
            0 <= i < name.len() && !is_punctuation(#[trigger] name[i]) ==> is_upper(name[i])
                || is_lower(name[i]) || is_digit(name[i]),
        Rule::KnownSymbols => spelled_in(symbols, name),
    }
}

/// The violation that is reported where `name` breaks `rule`.
pub open spec fn violation_of(rule: Rule, name: Seq<char>) -> RuleViolation {
    match rule {
        Rule::Length => if name.len() < MIN_NAME_LEN {
            RuleViolation::NameTooShort
        } else {
            RuleViolation::NameTooLong
        },
        Rule::BaseLength => RuleViolation::NameTooShort,
        Rule::SubtokenLength => RuleViolation::SubtokenTooShort,
        Rule::SubtokenLevels => RuleViolation::TooManySubtokenLevels,
        Rule::NoLeadingSeparator => RuleViolation::LeadingSeparator,
        Rule::NoTrailingSeparator => RuleViolation::TrailingSeparator,
        Rule::Hyphens => RuleViolation::IllegalHyphenUsage,
        Rule::NotReserved => RuleViolation::ReservedName,
        Rule::LetterCase => RuleViolation::InvalidLetterCase,
        Rule::CharacterClass => RuleViolation::InvalidCharacterClass,
        Rule::KnownSymbols => RuleViolation::UnknownSymbol,
    }
}

/// The first rule, from position `from` of the chain on, that `name`
/// breaks; `None` where it keeps them all.
pub open spec fn first_broken_from(symbols: Seq<char>, name: Seq<char>, from: int) -> Option<Rule>
    decreases rule_order().len() - from,
{
    if from < 0 || from >= rule_order().len() {
        None
    } else if !rule_holds(rule_order()[from], symbols, name) {
        Some(rule_order()[from])
    } else {
        first_broken_from(symbols, name, from + 1)
    }
}

/// The first rule of the chain that `name` breaks.
pub open spec fn first_broken(symbols: Seq<char>, name: Seq<char>) -> Option<Rule> {
    first_broken_from(symbols, name, 0)
}

/// What the rule chain says of `name`: the violation of the first rule
/// that it breaks.
pub open spec fn verdict_of(symbols: Seq<char>, name: Seq<char>) -> Result<(), RuleViolation> {
    match first_broken(symbols, name) {
        Some(rule) => Err(violation_of(rule, name)),
        None => Ok(()),
    }
}

/// Whether `name` is an admissible token name over `symbols`: it keeps
/// every rule.
pub open spec fn admissible(symbols: Seq<char>, name: Seq<char>) -> bool {
    forall|rule: Rule| rule_holds(rule, symbols, name)
}

/// Whether `c` is an upper-case ASCII letter.
pub fn upper(c: char) -> (yes: bool)
    ensures
        yes == is_upper(c),
{
    'A' <= c && c <= 'Z'
}

/// Whether `c` is a lower-case ASCII letter.
pub fn lower(c: char) -> (yes: bool)
    ensures
        yes == is_lower(c),
{
    'a' <= c && c <= 'z'
}

/// Whether `c` is an ASCII digit.
pub fn digit(c: char) -> (yes: bool)
    ensures
        yes == is_digit(c),
{
    '0' <= c && c <= '9'
}

fn occurs(name: &Vec<char>, c: char) -> (found: bool)
    ensures
        found == name@.contains(c),
{
    let mut i: usize = 0;
    while i < name.len()
        invariant
            i <= name.len(),
            forall|k: int| 0 <= k < i ==> name@[k] != c,
        decreases name.len() - i,
    {
        if name[i] == c {
            return true;
        }
        i += 1;
    }
    false
}

fn starts_with(name: &Vec<char>, prefix: &Vec<char>) -> (yes: bool)
    ensures
        yes == prefix@.is_prefix_of(name@),
{
    if prefix.len() > name.len() {
        return false;
    }
    let mut i: usize = 0;
    while i < prefix.len()
        invariant
            i <= prefix.len() <= name.len(),
            forall|k: int| 0 <= k < i ==> name@[k] == prefix@[k],
        decreases prefix.len() - i,
    {
        if name[i] != prefix[i] {
            assert(name@.subrange(0, prefix@.len() as int)[i as int] != prefix@[i as int]);
            return false;
        }
        i += 1;
    }
    assert(prefix@ =~= name@.subrange(0, prefix@.len() as int));
    true
}

fn base_reaches(name: &Vec<char>, n: usize) -> (yes: bool)
    ensures
        yes == base_has(name@, n as int),
{
    if n > name.len() {
        return false;
    }
    let mut i: usize = 0;
    while i < n
        invariant
            i <= n <= name.len(),
            forall|k: int| 0 <= k < i ==> name@[k] != SEPARATOR,
        decreases n - i,
    {
        if name[i] == SEPARATOR {
            return false;
        }
        i += 1;
    }
    true
}

fn one_separator_at_most(name: &Vec<char>) -> (yes: bool)
    ensures
        yes == rule_holds(Rule::SubtokenLevels, Seq::empty(), name@),
{
    let mut seen = false;
    let ghost mut first: int = 0;
    let mut i: usize = 0;
    while i < name.len()
        invariant
            i <= name.len(),
            seen ==> 0 <= first < i && name@[first] == SEPARATOR,
            !seen ==> forall|k: int| 0 <= k < i ==> name@[k] != SEPARATOR,
            forall|a: int, b: int|
                0 <= a < b < i && name@[a] == SEPARATOR ==> name@[b] != SEPARATOR,
        decreases name.len() - i,
    {
        if name[i] == SEPARATOR {
            if seen {
                return false;
            }
            seen = true;
            proof {
                first = i as int;
            }
        }
        i += 1;
    }
    true
}

fn reserves(name: &Vec<char>, reserved: &Vec<char>) -> (yes: bool)
    ensures
        yes == claims(name@, reserved@),
{
    if !starts_with(name, reserved) {
        proof {
            if name@ == reserved@ {
                assert(reserved@ =~= name@.subrange(0, reserved@.len() as int));
            }
            if reserved@.push(SEPARATOR).is_prefix_of(name@) {
                assert(reserved@ =~= name@.subrange(0, reserved@.len() as int)) by {
                    let longer = reserved@.push(SEPARATOR);
                    assert forall|k: int| 0 <= k < reserved@.len() implies reserved@[k]
                        == name@[k] by {
                        assert(longer[k] == name@.subrange(0, longer.len() as int)[k]);
                    }
                }
            }
        }
        return false;
    }
    assert(reserved@ =~= name@.subrange(0, reserved@.len() as int));
    if name.len() == reserved.len() {
        assert(name@ =~= reserved@);
        return true;
    }
    let follows = name[reserved.len()];
    proof {
        let longer = reserved@.push(SEPARATOR);
        let end = reserved@.len() as int;
        if follows == SEPARATOR {
            assert(longer =~= name@.subrange(0, end + 1));
        } else if longer.is_prefix_of(name@) {
            assert(longer[end] == name@.subrange(0, end + 1)[end]);
        }
    }
    follows == SEPARATOR
}

fn letters_and_digits(name: &Vec<char>, any_case: bool) -> (yes: bool)
    ensures
        yes == rule_holds(
            if any_case {
                Rule::CharacterClass
            } else {
                Rule::LetterCase
            },
            Seq::empty(),
            name@,
        ),
{
    let mut i: usize = 0;
    while i < name.len()
        invariant
            i <= name.len(),
            forall|k: int|
                0 <= k < i && !is_punctuation(#[trigger] name@[k]) ==> is_upper(name@[k])
                    || is_digit(name@[k]) || (any_case && is_lower(name@[k])),
        decreases name.len() - i,
    {
        let c = name[i];
        if c != SEPARATOR && c != HYPHEN && !upper(c) && !digit(c) && !(any_case && lower(c)) {
            assert(!is_punctuation(name@[i as int]));
            return false;
        }
        i += 1;
    }
    true
}

fn known_symbols(alphabet: &Alphabet, name: &Vec<char>) -> (yes: bool)
    ensures
        yes == spelled_in(alphabet@, name@),
{
    let mut i: usize = 0;
    while i < name.len()
        invariant
            i <= name.len(),
            forall|k: int| 0 <= k < i ==> alphabet@.contains(#[trigger] name@[k]),
        decreases name.len() - i,
    {
        if alphabet.position(name[i]).is_none() {
            return false;
        }
        i += 1;
    }
    true
}

/// Whether the name with the symbols `name` keeps `rule`.
pub fn holds(rule: Rule, alphabet: &Alphabet, name: &Vec<char>) -> (yes: bool)
    ensures
        yes == rule_holds(rule, alphabet@, name@),
{
    match rule {
        Rule::Length => MIN_NAME_LEN <= name.len() && name.len() <= MAX_NAME_LEN,
        Rule::BaseLength => base_reaches(name, MIN_NAME_LEN),
        Rule::SubtokenLength => !occurs(name, SEPARATOR) || name.len() >= MIN_SUBTOKEN_NAME_LEN,
        Rule::SubtokenLevels => one_separator_at_most(name),
        Rule::NoLeadingSeparator => name.len() == 0 || name[0] != SEPARATOR,
        Rule::NoTrailingSeparator => name.len() == 0 || name[name.len() - 1] != SEPARATOR,
        Rule::Hyphens => {
            if occurs(name, HYPHEN) {
                let prefix = vec!['X', 'N', '-', '-'];
                assert(prefix@ =~= idn_prefix());
                starts_with(name, &prefix) && name[name.len() - 1] != HYPHEN
            } else {
                true
            }
        },
        Rule::NotReserved => {
            let currency = vec!['B', 'T', 'C'];
            let asset = vec!['A', 'R', 'T'];
            assert(currency@ =~= base_currency());
            assert(asset@ =~= native_asset());
            !reserves(name, &currency) && !reserves(name, &asset)
        },
        Rule::LetterCase => letters_and_digits(name, false),
        Rule::CharacterClass => letters_and_digits(name, true),
        Rule::KnownSymbols => known_symbols(alphabet, name),
    }
}

/// The violation that is reported where a name breaks `rule`.
pub fn violation(rule: Rule, name: &Vec<char>) -> (v: RuleViolation)
    ensures
        v == violation_of(rule, name@),
{
    match rule {
        Rule::Length => if name.len() < MIN_NAME_LEN {
            RuleViolation::NameTooShort
        } else {
            RuleViolation::NameTooLong
        },
        Rule::BaseLength => RuleViolation::NameTooShort,
        Rule::SubtokenLength => RuleViolation::SubtokenTooShort,
        Rule::SubtokenLevels => RuleViolation::TooManySubtokenLevels,
        Rule::NoLeadingSeparator => RuleViolation::LeadingSeparator,
        Rule::NoTrailingSeparator => RuleViolation::TrailingSeparator,
        Rule::Hyphens => RuleViolation::IllegalHyphenUsage,
        Rule::NotReserved => RuleViolation::ReservedName,
        Rule::LetterCase => RuleViolation::InvalidLetterCase,
        Rule::CharacterClass => RuleViolation::InvalidCharacterClass,
        Rule::KnownSymbols => RuleViolation::UnknownSymbol,
    }
}

/// The words in which a breach of `rule` by `name` is reported.
pub open spec fn report_of(rule: Rule, name: Seq<char>) -> Seq<char> {
    match rule {
        Rule::Length => "InvalidTokenLength: Must be between 3 and 12"@,
        Rule::BaseLength => "InvalidTokenLength: Minimum token length is 3"@,
        Rule::SubtokenLength => "InvalidTokenLength: Minimum subtoken length is 5"@,
        Rule::SubtokenLevels => "InvalidTokenLength: Maximum subtoken level is 1"@,
        Rule::NoLeadingSeparator => "InvalidTokenCharacters: First character cannot be '.'"@,
        Rule::NoTrailingSeparator => "InvalidTokenCharacters: Last character cannot be '.'"@,
        Rule::Hyphens => "InvalidTokenCharacters: Hyphens for IDN only."@,
        Rule::NotReserved => if claims(name, base_currency()) {
            "InvalidTokenCharacters: Cannot issue BTC as a token."@
        } else {
            "InvalidTokenCharacters: Cannot issue ART as a token."@
        },
        Rule::LetterCase => "InvalidTokenLetterCase: Must be uppercase characters."@,
        Rule::CharacterClass => "InvalidTokenCharacters: Must be ascii alphanumeric."@,
        Rule::KnownSymbols => "InvalidTokenCharacters: Must only use valid characters."@,
    }
}

/// The words in which a breach of `rule` by `name` is reported.
pub fn report(rule: Rule, name: &str) -> (text: &'static str)
    ensures
        text@ == report_of(rule, name@),
{
    match rule {
        Rule::Length => "InvalidTokenLength: Must be between 3 and 12",
        Rule::BaseLength => "InvalidTokenLength: Minimum token length is 3",
        Rule::SubtokenLength => "InvalidTokenLength: Minimum subtoken length is 5",
        Rule::SubtokenLevels => "InvalidTokenLength: Maximum subtoken level is 1",
        Rule::NoLeadingSeparator => "InvalidTokenCharacters: First character cannot be '.'",
        Rule::NoTrailingSeparator => "InvalidTokenCharacters: Last character cannot be '.'",
        Rule::Hyphens => "InvalidTokenCharacters: Hyphens for IDN only.",
        Rule::NotReserved => {
            let symbols = symbols_of(name);
            let currency = vec!['B', 'T', 'C'];
            assert(currency@ =~= base_currency());
            if reserves(&symbols, &currency) {
                "InvalidTokenCharacters: Cannot issue BTC as a token."
            } else {
                "InvalidTokenCharacters: Cannot issue ART as a token."
            }
        },
        Rule::LetterCase => "InvalidTokenLetterCase: Must be uppercase characters.",
        Rule::CharacterClass => "InvalidTokenCharacters: Must be ascii alphanumeric.",
        Rule::KnownSymbols => "InvalidTokenCharacters: Must only use valid characters.",
    }
}

/// The rules in the order in which they are applied.
pub fn rule_chain() -> (chain: Vec<Rule>)
    ensures
        chain@ == rule_order(),
        chain.len() == RULE_COUNT,
{
    let chain = vec![
        Rule::Length,
        Rule::BaseLength,
        Rule::SubtokenLength,
        Rule::SubtokenLevels,
        Rule::NoLeadingSeparator,
        Rule::NoTrailingSeparator,
        Rule::Hyphens,
        Rule::NotReserved,
        Rule::LetterCase,
        Rule::CharacterClass,
        Rule::KnownSymbols,
    ];
    assert(chain@ =~= rule_order());
    chain
}

/// The first rule of the chain that `name` breaks, if any.
pub fn first_broken_rule(alphabet: &Alphabet, name: &str) -> (rule: Option<Rule>)
    ensures
        rule == first_broken(alphabet@, name@),
{
    let symbols = symbols_of(name);
    let chain = rule_chain();
    let mut i: usize = 0;
    while i < chain.len()
        invariant
            i <= chain.len(),
            chain@ == rule_order(),
            symbols@ == name@,
            first_broken(alphabet@, name@) == first_broken_from(alphabet@, name@, i as int),
        decreases chain.len() - i,
    {
        if !holds(chain[i], alphabet, &symbols) {
            return Some(chain[i]);
        }
        i += 1;
    }
    None
}

/// Applies the rule chain to `name`: `Ok` where the name keeps every rule,
/// otherwise the violation of the first rule in order that it breaks.
pub fn validate(alphabet: &Alphabet, name: &str) -> (verdict: Result<(), RuleViolation>)
    ensures
        verdict == verdict_of(alphabet@, name@),
{
    match first_broken_rule(alphabet, name) {
        Some(rule) => {
            let symbols = symbols_of(name);
            Err(violation(rule, &symbols))
        },
        None => Ok(()),
    }
}

/// Applies the rule chain over the base-38 alphabet to `token`.
pub fn validate_token(token: &str) -> (verdict: Result<(), RuleViolation>)
    ensures
        verdict == verdict_of(standard_symbols(), token@),
{
    let alphabet = Alphabet::standard();
    validate(&alphabet, token)
}

/// A name is admissible exactly where the rule chain finds no broken rule.
pub proof fn lemma_admissible(symbols: Seq<char>, name: Seq<char>)
    ensures
        admissible(symbols, name) <==> first_broken(symbols, name) is None,
        admissible(symbols, name) <==> verdict_of(symbols, name) is Ok,
{
    reveal_with_fuel(first_broken_from, 12);
    if first_broken(symbols, name) is None {
        assert forall|rule: Rule| rule_holds(rule, symbols, name) by {
            assert(exists|k: int| 0 <= k < rule_order().len() && rule_order()[k] == rule) by {
                match rule {
                    Rule::Length => assert(rule_order()[0] == rule),
                    Rule::BaseLength => assert(rule_order()[1] == rule),
                    Rule::SubtokenLength => assert(rule_order()[2] == rule),
                    Rule::SubtokenLevels => assert(rule_order()[3] == rule),
                    Rule::NoLeadingSeparator => assert(rule_order()[4] == rule),
                    Rule::NoTrailingSeparator => assert(rule_order()[5] == rule),
                    Rule::Hyphens => assert(rule_order()[6] == rule),
                    Rule::NotReserved => assert(rule_order()[7] == rule),
                    Rule::LetterCase => assert(rule_order()[8] == rule),
                    Rule::CharacterClass => assert(rule_order()[9] == rule),
                    Rule::KnownSymbols => assert(rule_order()[10] == rule),
                }
            }
        }
    }
}

/// The length decides first: whatever else it breaks, a name of fewer
/// than three symbols is reported as too short and a name of more than
/// twelve as too long.
pub proof fn lemma_length_decides_first(symbols: Seq<char>, name: Seq<char>)
    ensures
        name.len() < MIN_NAME_LEN ==> verdict_of(symbols, name) == Err::<(), RuleViolation>(
            RuleViolation::NameTooShort,
        ),
        name.len() > MAX_NAME_LEN ==> verdict_of(symbols, name) == Err::<(), RuleViolation>(
            RuleViolation::NameTooLong,
        ),
{
    reveal_with_fuel(first_broken_from, 2);
}

/// Two rules never decide. A name that starts with the separator has an
/// empty part before it and breaks the rule on that part first; a symbol
/// that is neither letter nor digit breaks the rule on the letter case
/// first.
pub proof fn lemma_shadowed_rules(symbols: Seq<char>, name: Seq<char>)
    ensures
        first_broken(symbols, name) != Some(Rule::NoLeadingSeparator),
        first_broken(symbols, name) != Some(Rule::CharacterClass),
        verdict_of(symbols, name) != Err::<(), RuleViolation>(RuleViolation::LeadingSeparator),
        verdict_of(symbols, name) != Err::<(), RuleViolation>(
            RuleViolation::InvalidCharacterClass,
        ),
{
    reveal_with_fuel(first_broken_from, 12);
}

/// No reserved name is admissible, nor any subtoken of one; the two
/// reserved names themselves are reported as reserved.
pub proof fn lemma_reserved_names(symbols: Seq<char>, name: Seq<char>)
    ensures
        claims(name, base_currency()) || claims(name, native_asset()) ==> verdict_of(
            symbols,
            name,
        ) is Err,
        verdict_of(symbols, base_currency()) == Err::<(), RuleViolation>(
            RuleViolation::ReservedName,
        ),
        verdict_of(symbols, native_asset()) == Err::<(), RuleViolation>(
            RuleViolation::ReservedName,
        ),
{
    reveal_with_fuel(first_broken_from, 12);
    lemma_admissible(symbols, name);
    if claims(name, base_currency()) || claims(name, native_asset()) {
        assert(!rule_holds(Rule::NotReserved, symbols, name));
    }
    lemma_plain_word(base_currency());
    lemma_plain_word(native_asset());
}

/// A word of three symbols that are no punctuation keeps the seven rules
/// on lengths, separators and hyphens.
proof fn lemma_plain_word(word: Seq<char>)
    requires
        word.len() == 3,
        forall|i: int| 0 <= i < 3 ==> !is_punctuation(#[trigger] word[i]),
    ensures
        forall|k: int| 0 <= k < 7 ==> rule_holds(#[trigger] rule_order()[k], Seq::empty(), word),
{
    assert(!word.contains(SEPARATOR)) by {
        if word.contains(SEPARATOR) {
            let i = choose|i: int| 0 <= i < word.len() && word[i] == SEPARATOR;
            assert(is_punctuation(word[i]));
        }
    }
    assert(!word.contains(HYPHEN)) by {
        if word.contains(HYPHEN) {
            let i = choose|i: int| 0 <= i < word.len() && word[i] == HYPHEN;
            assert(is_punctuation(word[i]));
        }
    }
    assert(!is_punctuation(word[0]) && !is_punctuation(word[1]) && !is_punctuation(word[2]));
    assert forall|k: int| 0 <= k < 7 implies rule_holds(
        #[trigger] rule_order()[k],
        Seq::empty(),
        word,
    ) by {
        if k == 3 {
            assert forall|i: int, j: int|
                0 <= i < j < word.len() && word[i] == SEPARATOR implies word[j] != SEPARATOR by {
                assert(is_punctuation(word[i]));
            }
        }
    }
}

/// Round trip: an admissible name has an id that fits in 64 bits, and
/// decoding that id gives the name back.
pub proof fn lemma_round_trip(symbols: Seq<char>, name: Seq<char>)
    requires
        valid_symbols(symbols),
        admissible(symbols, name),
    ensures
        encodable(symbols, name),
        0 < encode_spec(symbols, name) < MAX_CODES,
        decode_spec(symbols, encode_spec(symbols, name)) == name,
{
    assert(rule_holds(Rule::Length, symbols, name));
    assert(rule_holds(Rule::NoLeadingSeparator, symbols, name));
    assert(rule_holds(Rule::KnownSymbols, symbols, name));
    lemma_decode_encode(symbols, name);
    lemma_encode_bounds(symbols, name);
    lemma_codes_fit(symbols.len() as int, name.len());
    lemma_pow_positive(symbols.len() as int, (name.len() - 1) as nat);
}

/// Order: of two admissible names of one length, the one that comes first
/// symbol by symbol, each symbol taken by its digit value, has the smaller
/// id.
pub proof fn lemma_ids_follow_names(symbols: Seq<char>, x: Seq<char>, y: Seq<char>)
    requires
        valid_symbols(symbols),
        admissible(symbols, x),
        admissible(symbols, y),
        precedes(symbols, x, y),
    ensures
        encode_spec(symbols, x) < encode_spec(symbols, y),
{
    assert(rule_holds(Rule::KnownSymbols, symbols, x));
    assert(rule_holds(Rule::KnownSymbols, symbols, y));
    lemma_encode_increasing(symbols, x, y);
}

} // verus!
