//! The id range validator: a cheap test on an id that every id of an
//! admissible name passes, made before the id is decoded and its name is
//! put through the rule chain.

use vstd::prelude::*;
use vstd::arithmetic::power::{lemma_pow_adds, lemma_pow1, lemma_pow_increases, pow};
use crate::alphabet::{
    lemma_digit_of, lemma_standard_symbols, lowest_digit, standard_symbols, valid_symbols,
    Alphabet, HYPHEN, SEPARATOR,
};
use crate::codec::{
    encode_spec, lemma_codes_fit, lemma_encode_bounds, lemma_name_digits, lemma_value_push,
    name_digits, value_of, MAX_CODES, MAX_NAME_LEN,
};
use crate::error::RegistrationError;
use crate::rules::{
    admissible, base_currency, claims, idn_prefix, is_digit, is_lower, is_punctuation, is_upper,
    native_asset, rule_holds, Rule, MIN_NAME_LEN,
};

verus! {

/// The smallest id of the standard alphabet that can have an admissible
/// name: the id of `AAA`.
pub const STANDARD_MIN_ID: u64 = 2966;

/// The largest id of the standard alphabet that can have an admissible
/// name: the id of twelve times `9`.
pub const STANDARD_MAX_ID: u64 = 9065737908494995455;

/// The name of `n` symbols that are all `symbol`.
pub open spec fn repeated(symbol: char, n: nat) -> Seq<char> {
    Seq::new(n, |i: int| symbol)
}

/// The smallest id in range: the id of the shortest name made of the
/// lowest symbol that is neither separator nor hyphen.
pub open spec fn min_id_of(symbols: Seq<char>) -> int {
    encode_spec(symbols, repeated(symbols[lowest_digit(symbols)], MIN_NAME_LEN as nat))
}

/// The largest id in range: the id of the longest name made of the highest
/// symbol.
pub open spec fn max_id_of(symbols: Seq<char>) -> int {
    encode_spec(symbols, repeated(symbols.last(), MAX_NAME_LEN as nat))
}

/// Whether `id` lies in the range of `symbols`.
pub open spec fn id_in_range(symbols: Seq<char>, id: int) -> bool {
    min_id_of(symbols) <= id <= max_id_of(symbols)
}

proof fn lemma_repeated_value(symbols: Seq<char>, digit: int, n: nat)
    requires
        valid_symbols(symbols),
        0 <= digit < symbols.len(),
    ensures
        name_digits(symbols, repeated(symbols[digit], n)) == Seq::new(n, |i: int| digit),
        n > 0 ==> encode_spec(symbols, repeated(symbols[digit], n)) == encode_spec(
            symbols,
            repeated(symbols[digit], (n - 1) as nat),
        ) * symbols.len() + digit,
        n == 0 ==> encode_spec(symbols, repeated(symbols[digit], n)) == 0,
{
    lemma_digit_of(symbols, digit);
    assert(name_digits(symbols, repeated(symbols[digit], n)) =~= Seq::new(n, |i: int| digit));
    if n > 0 {
        let shorter = (n - 1) as nat;
        lemma_digit_of(symbols, digit);
        assert(name_digits(symbols, repeated(symbols[digit], shorter)) =~= Seq::new(
            shorter,
            |i: int| digit,
        ));
        assert(Seq::new(n, |i: int| digit) =~= Seq::new(shorter, |i: int| digit).push(digit));
        lemma_value_push(Seq::new(shorter, |i: int| digit), digit, symbols.len() as int);
    }
}

/// The smallest id in range is the lowest digit times `base^2 + base + 1`.
pub proof fn lemma_min_id(symbols: Seq<char>)
    requires
        valid_symbols(symbols),
    ensures
        min_id_of(symbols) == lowest_digit(symbols) * (symbols.len() * symbols.len()
            + symbols.len() + 1),
{
    let low = lowest_digit(symbols);
    let base = symbols.len() as int;
    lemma_repeated_value(symbols, low, 0);
    lemma_repeated_value(symbols, low, 1);
    lemma_repeated_value(symbols, low, 2);
    lemma_repeated_value(symbols, low, 3);
    let one = encode_spec(symbols, repeated(symbols[low], 1));
    let two = encode_spec(symbols, repeated(symbols[low], 2));
    assert(one == low);
    assert(two == low * base + low);
    assert((low * base + low) * base + low == low * (base * base + base + 1))
        by (nonlinear_arith);
}

proof fn lemma_all_highest(symbols: Seq<char>, n: nat)
    requires
        valid_symbols(symbols),
    ensures
        encode_spec(symbols, repeated(symbols.last(), n)) == pow(symbols.len() as int, n) - 1,
    decreases n,
{
    let base = symbols.len() as int;
    lemma_repeated_value(symbols, base - 1, n);
    if n == 0 {
        vstd::arithmetic::power::lemma_pow0(base);
    } else {
        lemma_all_highest(symbols, (n - 1) as nat);
        let lower = pow(base, (n - 1) as nat);
        assert(pow(base, n) == lower * base) by {
            lemma_pow_adds(base, (n - 1) as nat, 1);
            lemma_pow1(base);
        }
        assert((lower - 1) * base + (base - 1) == lower * base - 1) by (nonlinear_arith);
    }
}

/// The largest id in range is `base^12 - 1`, which fits in 64 bits.
pub proof fn lemma_max_id(symbols: Seq<char>)
    requires
        valid_symbols(symbols),
    ensures
        max_id_of(symbols) == pow(symbols.len() as int, MAX_NAME_LEN as nat) - 1,
        max_id_of(symbols) < MAX_CODES,
{
    lemma_all_highest(symbols, MAX_NAME_LEN as nat);
    lemma_codes_fit(symbols.len() as int, MAX_NAME_LEN as nat);
}

/// The range of the standard alphabet runs from [`STANDARD_MIN_ID`] to
/// [`STANDARD_MAX_ID`].
pub proof fn lemma_standard_range()
    ensures
        min_id_of(standard_symbols()) == STANDARD_MIN_ID,
        max_id_of(standard_symbols()) == STANDARD_MAX_ID,
{
    lemma_standard_symbols();
    lemma_min_id(standard_symbols());
    lemma_max_id(standard_symbols());
    lemma_codes_fit(38, MAX_NAME_LEN as nat);
}

/// The smallest id in the range of `alphabet`.
pub fn min_id(alphabet: &Alphabet) -> (id: u64)
    ensures
        id == min_id_of(alphabet@),
{
    let base = alphabet.base();
    let low = alphabet.lowest();
    proof {
        lemma_min_id(alphabet@);
        assert(base * base <= 1444) by (nonlinear_arith)
            requires
                base <= 38,
        ;
        assert(low * (base * base + base + 1) <= 2 * 1483) by (nonlinear_arith)
            requires
                low <= 2,
                base * base + base + 1 <= 1483,
        ;
    }
    low * (base * base + base + 1)
}

/// The largest id in the range of `alphabet`.
pub fn max_id(alphabet: &Alphabet) -> (id: u64)
    ensures
        id == max_id_of(alphabet@),
{
    let base = alphabet.base();
    let mut codes: u64 = 1;
    let mut n: usize = 0;
    proof {
        vstd::arithmetic::power::lemma_pow0(base as int);
    }
    while n < MAX_NAME_LEN
        invariant
            n <= MAX_NAME_LEN,
            2 <= base <= 38,
            codes == pow(base as int, n as nat),
        decreases MAX_NAME_LEN - n,
    {
        proof {
            lemma_pow_adds(base as int, n as nat, 1);
            lemma_pow1(base as int);
            lemma_codes_fit(base as int, (n + 1) as nat);
        }
        codes = codes * base;
        n += 1;
    }
    proof {
        lemma_max_id(alphabet@);
        lemma_codes_fit(base as int, MAX_NAME_LEN as nat);
    }
    codes - 1
}

/// Whether `id` lies in the range of `alphabet`.
pub fn in_range(alphabet: &Alphabet, id: u64) -> (yes: bool)
    ensures
        yes == id_in_range(alphabet@, id as int),
{
    min_id(alphabet) <= id && id <= max_id(alphabet)
}

/// Rejects the ids outside the range of the standard alphabet.
pub fn validate_id(id: u64) -> (verdict: Result<(), RegistrationError>)
    ensures
        id_in_range(standard_symbols(), id as int) ==> verdict is Ok,
        !id_in_range(standard_symbols(), id as int) ==> verdict == Err::<
            (),
            RegistrationError,
        >(RegistrationError::IdOutOfRange),
{
    proof {
        lemma_standard_range();
    }
    if id < STANDARD_MIN_ID || id > STANDARD_MAX_ID {
        Err(RegistrationError::IdOutOfRange)
    } else {
        Ok(())
    }
}

/// The range misses no admissible name: the id of every admissible name
/// lies in it.
pub proof fn lemma_admissible_in_range(symbols: Seq<char>, name: Seq<char>)
    requires
        valid_symbols(symbols),
        admissible(symbols, name),
    ensures
        id_in_range(symbols, encode_spec(symbols, name)),
{
    let base = symbols.len() as int;
    let low = lowest_digit(symbols);
    let digits = name_digits(symbols, name);
    assert(rule_holds(Rule::Length, symbols, name));
    assert(rule_holds(Rule::BaseLength, symbols, name));
    assert(rule_holds(Rule::Hyphens, symbols, name));
    assert(rule_holds(Rule::KnownSymbols, symbols, name));
    lemma_name_digits(symbols, name);
    lemma_encode_bounds(symbols, name);
    lemma_max_id(symbols);
    lemma_min_id(symbols);
    if name.len() < MAX_NAME_LEN {
        lemma_pow_increases(base as nat, name.len(), MAX_NAME_LEN as nat);
    }
    // No symbol among the first three is the separator, and a hyphen
    // stands only behind the leading `X` of an internationalized name.
    assert forall|i: int| 0 <= i < 3 && (i == 0 || name.len() == 3) implies low
        <= #[trigger] digits[i] by {
        assert(symbols[digits[i]] == name[i]);
        assert(name[i] != SEPARATOR);
        if name[i] == HYPHEN {
            assert(name.contains(HYPHEN));
            assert(idn_prefix().is_prefix_of(name));
            assert(idn_prefix()[0] == name.subrange(0, idn_prefix().len() as int)[0]);
        }
    }
    if name.len() == 3 {
        let first = seq![digits[0]];
        let second = first.push(digits[1]);
        assert(first =~= Seq::<int>::empty().push(digits[0]));
        lemma_value_push(Seq::<int>::empty(), digits[0], base);
        lemma_value_push(first, digits[1], base);
        lemma_value_push(second, digits[2], base);
        assert(digits =~= second.push(digits[2]));
        assert(value_of(Seq::<int>::empty(), base) == 0);
        assert((digits[0] * base + digits[1]) * base + digits[2] >= low * (base * base + base
            + 1)) by (nonlinear_arith)
            requires
                digits[0] >= low,
                digits[1] >= low,
                digits[2] >= low,
                base >= 2,
                low >= 1,
        ;
    } else {
        let high = pow(base, (name.len() - 1) as nat);
        assert(pow(base, 3) <= high) by {
            if name.len() > 4 {
                lemma_pow_increases(base as nat, 3, (name.len() - 1) as nat);
            }
        }
        assert(pow(base, 3) == base * base * base) by {
            reveal_with_fuel(pow, 4);
            assert(base * (base * (base * 1)) == base * base * base) by (nonlinear_arith);
        }
        assert(digits[0] * high >= low * (base * base + base + 1)) by (nonlinear_arith)
            requires
                digits[0] >= low,
                high >= base * base * base,
                base >= 2,
                low >= 1,
        ;
    }
}

/// A name of three to twelve symbols that are all one letter or digit of
/// the alphabet is admissible.
pub proof fn lemma_repeated_admissible(symbols: Seq<char>, symbol: char, n: nat)
    requires
        symbols.contains(symbol),
        is_upper(symbol) || is_digit(symbol),
        MIN_NAME_LEN <= n <= MAX_NAME_LEN,
    ensures
        admissible(symbols, repeated(symbol, n)),
{
    let name = repeated(symbol, n);
    assert(!name.contains(SEPARATOR)) by {
        if name.contains(SEPARATOR) {
            let i = choose|i: int| 0 <= i < name.len() && name[i] == SEPARATOR;
            assert(name[i] == symbol);
        }
    }
    assert(!name.contains(HYPHEN)) by {
        if name.contains(HYPHEN) {
            let i = choose|i: int| 0 <= i < name.len() && name[i] == HYPHEN;
            assert(name[i] == symbol);
        }
    }
    assert(name[0] == symbol && name[1] == symbol);
    assert(!claims(name, base_currency())) by {
        let longer = base_currency().push(SEPARATOR);
        if longer.is_prefix_of(name) {
            assert(longer[0] == name.subrange(0, longer.len() as int)[0]);
            assert(longer[1] == name.subrange(0, longer.len() as int)[1]);
        }
    }
    assert(!claims(name, native_asset())) by {
        let longer = native_asset().push(SEPARATOR);
        if longer.is_prefix_of(name) {
            assert(longer[0] == name.subrange(0, longer.len() as int)[0]);
            assert(longer[1] == name.subrange(0, longer.len() as int)[1]);
        }
    }
    assert forall|rule: Rule| rule_holds(rule, symbols, name) by {
        match rule {
            Rule::SubtokenLevels => {
                assert forall|i: int, j: int|
                    0 <= i < j < name.len() && name[i] == SEPARATOR implies name[j]
                    != SEPARATOR by {
                    assert(name[i] == symbol);
                }
            },
            Rule::LetterCase => {
                assert forall|i: int|
                    0 <= i < name.len() && !is_punctuation(#[trigger] name[i]) implies is_upper(
                    name[i],
                ) || is_digit(name[i]) by {
                    assert(name[i] == symbol);
                }
            },
            Rule::CharacterClass => {
                assert forall|i: int|
                    0 <= i < name.len() && !is_punctuation(#[trigger] name[i]) implies is_upper(
                    name[i],
                ) || is_lower(name[i]) || is_digit(name[i]) by {
                    assert(name[i] == symbol);
                }
            },
            Rule::KnownSymbols => {
                assert forall|i: int| 0 <= i < name.len() implies symbols.contains(
                    #[trigger] name[i],
                ) by {
                    assert(name[i] == symbol);
                }
            },
            _ => {},
        }
    }
}

/// The range of the standard alphabet is as narrow as it can be: both of
/// its ends are ids of admissible names, `AAA` and twelve times `9`.
pub proof fn lemma_standard_range_is_tight()
    ensures
        admissible(standard_symbols(), repeated('A', 3)),
        encode_spec(standard_symbols(), repeated('A', 3)) == STANDARD_MIN_ID,
        admissible(standard_symbols(), repeated('9', 12)),
        encode_spec(standard_symbols(), repeated('9', 12)) == STANDARD_MAX_ID,
{
    let symbols = standard_symbols();
    lemma_standard_range();
    assert(symbols[2] == 'A' && symbols[37] == '9');
    assert(symbols.last() == '9');
    lemma_repeated_admissible(symbols, 'A', 3);
    lemma_repeated_admissible(symbols, '9', 12);
}

} // verus!
