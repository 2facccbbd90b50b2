//! The positional codec between token ids and token names.
//!
//! A name is read as a numeral whose base is the size of the alphabet and
//! whose digits are the positions of its symbols, most significant first.

use vstd::prelude::*;
use vstd::arithmetic::div_mod::lemma_fundamental_div_mod_converse;
use vstd::arithmetic::power::{lemma_pow0, lemma_pow_adds, lemma_pow1, lemma_pow_positive, pow};
use crate::alphabet::{
    digit_of, lemma_digit_of, standard_symbols, valid_symbols, Alphabet, SEPARATOR,
};
use crate::text::{reversed_string, symbols_of};

verus! {

/// The longest name the codec takes: with at most 38 symbols, every
/// numeral of this length fits in 64 bits.
pub const MAX_NAME_LEN: usize = 12;

/// The number of numerals of [`MAX_NAME_LEN`] digits in base 38.
pub const MAX_CODES: u64 = 9065737908494995456;

/// The number that the digits denote in `base`, most significant digit
/// first: the sum of `digits[i] * base^(len - 1 - i)`.
pub open spec fn value_of(digits: Seq<int>, base: int) -> int
    decreases digits.len(),
{
    if digits.len() == 0 {
        0
    } else {
        digits[0] * pow(base, (digits.len() - 1) as nat) + value_of(digits.drop_first(), base)
    }
}

/// Whether every symbol of `name` belongs to `symbols`.
pub open spec fn spelled_in(symbols: Seq<char>, name: Seq<char>) -> bool {
    forall|i: int| 0 <= i < name.len() ==> symbols.contains(#[trigger] name[i])
}

/// The digit values of the symbols of `name`.
pub open spec fn name_digits(symbols: Seq<char>, name: Seq<char>) -> Seq<int> {
    Seq::new(name.len(), |i: int| digit_of(symbols, name[i]))
}

/// The id of `name`: its value as a numeral over `symbols`.
pub open spec fn encode_spec(symbols: Seq<char>, name: Seq<char>) -> int {
    value_of(name_digits(symbols, name), symbols.len() as int)
}

/// Whether the codec takes `name`: it is short enough and spelled in the
/// alphabet.
pub open spec fn encodable(symbols: Seq<char>, name: Seq<char>) -> bool {
    name.len() <= MAX_NAME_LEN && spelled_in(symbols, name)
}

/// The name of `id`: the remainders of repeated division by the base,
/// least significant first, spelled in `symbols` and reversed. Zero has
/// the empty name.
pub open spec fn decode_spec(symbols: Seq<char>, id: int) -> Seq<char>
    decreases id,
    when symbols.len() >= 2
    via decode_spec_decreases
{
    if id <= 0 {
        Seq::empty()
    } else {
        decode_spec(symbols, id / (symbols.len() as int)).push(
            symbols[id % (symbols.len() as int)],
        )
    }
}

#[via_fn]
proof fn decode_spec_decreases(symbols: Seq<char>, id: int) {
    if id > 0 {
        lemma_quotient_smaller(id, symbols.len() as int);
    }
}

proof fn lemma_quotient_smaller(n: int, base: int)
    requires
        n > 0,
        base >= 2,
    ensures
        0 <= n / base < n,
        0 <= n % base < base,
        n == base * (n / base) + n % base,
{
    vstd::arithmetic::div_mod::lemma_fundamental_div_mod(n, base);
    vstd::arithmetic::div_mod::lemma_div_is_strictly_smaller(n, base);
    vstd::arithmetic::div_mod::lemma_div_pos_is_pos(n, base);
    vstd::arithmetic::div_mod::lemma_mod_bound(n, base);
}

/// `num_integer::Integer::div_rem` on `u64`: the quotient and the remainder
/// of `n` by `d`, in that order. Both are those of the built-in `/` and
/// `%`; like them the call panics where `d` is zero.
#[verifier::external_body]
fn div_rem(n: u64, d: u64) -> (qr: (u64, u64))
    requires
        d != 0,
    ensures
        qr.0 == n / d,
        qr.1 == n % d,
{
    num_integer::Integer::div_rem(&n, &d)
}

/// The id of `name` over `alphabet`, or `None` where the name is longer
/// than [`MAX_NAME_LEN`] symbols or holds a symbol outside the alphabet.
pub fn encode(alphabet: &Alphabet, name: &str) -> (id: Option<u64>)
    ensures
        match id {
            Some(v) => encodable(alphabet@, name@) && v == encode_spec(alphabet@, name@),
            None => !encodable(alphabet@, name@),
        },
{
    let symbols = symbols_of(name);
    if symbols.len() > MAX_NAME_LEN {
        return None;
    }
    let base = alphabet.base();
    let mut id: u64 = 0;
    let mut i: usize = 0;
    proof {
        assert(name_digits(alphabet@, name@.take(0)) =~= Seq::<int>::empty());
    }
    while i < symbols.len()
        invariant
            i <= symbols.len() <= MAX_NAME_LEN,
            symbols@ == name@,
            base == alphabet@.len(),
            valid_symbols(alphabet@),
            spelled_in(alphabet@, name@.take(i as int)),
            id == encode_spec(alphabet@, name@.take(i as int)),
        decreases symbols.len() - i,
    {
        let ghost read = name@.take(i as int);
        let ghost next = name@.take(i + 1);
        match alphabet.position(symbols[i]) {
            None => {
                return None;
            },
            Some(digit) => {
                proof {
                    assert(next =~= read.push(name@[i as int]));
                    assert(name_digits(alphabet@, next) =~= name_digits(alphabet@, read).push(
                        digit as int,
                    ));
                    lemma_value_push(name_digits(alphabet@, read), digit as int, base as int);
                    assert(spelled_in(alphabet@, next)) by {
                        assert forall|k: int| 0 <= k < next.len() implies alphabet@.contains(
                            #[trigger] next[k],
                        ) by {
                            if k < i {
                                assert(next[k] == read[k]);
                            }
                        }
                    }
                    lemma_encode_bounds(alphabet@, next);
                    lemma_codes_fit(base as int, (i + 1) as nat);
                }
                id = id * base + digit;
            },
        }
        i += 1;
    }
    proof {
        assert(name@.take(i as int) =~= name@);
    }
    Some(id)
}

/// The name of `id` over `alphabet`; the empty name for zero.
pub fn decode(alphabet: &Alphabet, id: u64) -> (name: String)
    ensures
        name@ == decode_spec(alphabet@, id as int),
{
    let base = alphabet.base();
    let mut rest = id;
    let mut low_first: Vec<char> = Vec::new();
    while rest > 0
        invariant
            base == alphabet@.len(),
            valid_symbols(alphabet@),
            decode_spec(alphabet@, id as int) == decode_spec(alphabet@, rest as int)
                + low_first@.reverse(),
        decreases rest,
    {
        let (quotient, remainder) = div_rem(rest, base);
        proof {
            lemma_quotient_smaller(rest as int, base as int);
        }
        let symbol = alphabet.symbol_at(remainder);
        proof {
            let high = decode_spec(alphabet@, quotient as int);
            assert(decode_spec(alphabet@, rest as int) == high.push(symbol));
            assert(low_first@.push(symbol).reverse() =~= seq![symbol] + low_first@.reverse());
            assert(high.push(symbol) + low_first@.reverse() =~= high + (seq![symbol]
                + low_first@.reverse()));
        }
        low_first.push(symbol);
        rest = quotient;
    }
    reversed_string(&low_first)
}

/// The id of `token` over the base-38 alphabet, or `None` where the codec
/// does not take it.
pub fn generate_id(token: &str) -> (id: Option<u64>)
    ensures
        match id {
            Some(v) => encodable(standard_symbols(), token@) && v == encode_spec(
                standard_symbols(),
                token@,
            ),
            None => !encodable(standard_symbols(), token@),
        },
{
    let alphabet = Alphabet::standard();
    encode(&alphabet, token)
}

/// The name of `id` over the base-38 alphabet.
pub fn generate_token(id: u64) -> (token: String)
    ensures
        token@ == decode_spec(standard_symbols(), id as int),
{
    let alphabet = Alphabet::standard();
    decode(&alphabet, id)
}

/// Appending a digit multiplies the value by the base and adds the digit.
pub proof fn lemma_value_push(digits: Seq<int>, last: int, base: int)
    ensures
        value_of(digits.push(last), base) == value_of(digits, base) * base + last,
    decreases digits.len(),
{
    let all = digits.push(last);
    if digits.len() == 0 {
        assert(all.drop_first() =~= Seq::<int>::empty());
        assert(value_of(all.drop_first(), base) == 0);
        lemma_pow0(base);
    } else {
        let rest = digits.drop_first();
        assert(all.drop_first() =~= rest.push(last));
        lemma_value_push(rest, last, base);
        let high = pow(base, (digits.len() - 1) as nat);
        assert(pow(base, digits.len()) == high * base) by {
            lemma_pow_adds(base, (digits.len() - 1) as nat, 1);
            lemma_pow1(base);
        }
        assert(digits[0] * (high * base) == (digits[0] * high) * base) by (nonlinear_arith);
        assert((digits[0] * high + value_of(rest, base)) * base == (digits[0] * high) * base
            + value_of(rest, base) * base) by (nonlinear_arith);
    }
}

/// Whether every digit is a digit of `base`.
pub open spec fn digits_in_base(digits: Seq<int>, base: int) -> bool {
    forall|i: int| 0 <= i < digits.len() ==> 0 <= #[trigger] digits[i] < base
}

/// A numeral of `n` digits denotes a number below `base^n`.
pub proof fn lemma_value_bounds(digits: Seq<int>, base: int)
    requires
        base >= 1,
        digits_in_base(digits, base),
    ensures
        0 <= value_of(digits, base) < pow(base, digits.len()),
    decreases digits.len(),
{
    if digits.len() == 0 {
        lemma_pow0(base);
    } else {
        let rest = digits.drop_first();
        assert(digits_in_base(rest, base)) by {
            assert forall|i: int| 0 <= i < rest.len() implies 0 <= #[trigger] rest[i] < base by {
                assert(rest[i] == digits[i + 1]);
            }
        }
        lemma_value_bounds(rest, base);
        let high = pow(base, (digits.len() - 1) as nat);
        lemma_pow_positive(base, (digits.len() - 1) as nat);
        assert(pow(base, digits.len()) == high * base) by {
            lemma_pow_adds(base, (digits.len() - 1) as nat, 1);
            lemma_pow1(base);
        }
        assert(0 <= digits[0] < base);
        assert(0 <= digits[0] * high && digits[0] * high + high <= high * base)
            by (nonlinear_arith)
            requires
                0 <= digits[0] < base,
                high > 0,
        ;
    }
}

/// No power of a base up to 38 with an exponent up to [`MAX_NAME_LEN`]
/// exceeds [`MAX_CODES`], which fits in 64 bits.
pub proof fn lemma_codes_fit(base: int, n: nat)
    requires
        1 <= base <= 38,
        n <= MAX_NAME_LEN,
    ensures
        0 < pow(base, n) <= MAX_CODES,
        pow(38, MAX_NAME_LEN as nat) == MAX_CODES,
{
    lemma_pow_positive(base, n);
    lemma_pow_base_increases(base, 38, n);
    assert(pow(38, 12) == 9065737908494995456) by {
        reveal_with_fuel(pow, 13);
    }
    if n < 12 {
        vstd::arithmetic::power::lemma_pow_increases(38, n, 12);
    }
}

proof fn lemma_pow_base_increases(small: int, large: int, n: nat)
    requires
        0 <= small <= large,
    ensures
        0 <= pow(small, n) <= pow(large, n),
    decreases n,
{
    reveal_with_fuel(pow, 2);
    if n > 0 {
        lemma_pow_base_increases(small, large, (n - 1) as nat);
        let p = pow(small, (n - 1) as nat);
        let q = pow(large, (n - 1) as nat);
        assert(0 <= small * p <= large * q) by (nonlinear_arith)
            requires
                0 <= small <= large,
                0 <= p <= q,
        ;
    }
}

/// The digits of a name spelled in a valid alphabet are digits of its
/// base, and each spells its symbol back.
pub proof fn lemma_name_digits(symbols: Seq<char>, name: Seq<char>)
    requires
        valid_symbols(symbols),
        spelled_in(symbols, name),
    ensures
        digits_in_base(name_digits(symbols, name), symbols.len() as int),
        forall|i: int|
            0 <= i < name.len() ==> symbols[#[trigger] name_digits(symbols, name)[i]] == name[i],
{
    assert forall|i: int| 0 <= i < name.len() implies {
        &&& 0 <= #[trigger] name_digits(symbols, name)[i] < symbols.len()
        &&& symbols[name_digits(symbols, name)[i]] == name[i]
    } by {
        assert(symbols.contains(name[i]));
    }
}

/// A name of `n` symbols denotes a number below `base^n`; one that does
/// not start with the separator denotes at least `base^(n - 1)`.
pub proof fn lemma_encode_bounds(symbols: Seq<char>, name: Seq<char>)
    requires
        valid_symbols(symbols),
        spelled_in(symbols, name),
    ensures
        0 <= encode_spec(symbols, name) < pow(symbols.len() as int, name.len()),
        name.len() > 0 ==> encode_spec(symbols, name) >= digit_of(symbols, name[0]) * pow(
            symbols.len() as int,
            (name.len() - 1) as nat,
        ),
        name.len() > 0 && name[0] != SEPARATOR ==> encode_spec(symbols, name) >= pow(
            symbols.len() as int,
            (name.len() - 1) as nat,
        ),
{
    let base = symbols.len() as int;
    let digits = name_digits(symbols, name);
    lemma_name_digits(symbols, name);
    lemma_value_bounds(digits, base);
    if name.len() > 0 {
        let rest = digits.drop_first();
        assert(digits_in_base(rest, base)) by {
            assert forall|i: int| 0 <= i < rest.len() implies 0 <= #[trigger] rest[i] < base by {
                assert(rest[i] == digits[i + 1]);
            }
        }
        lemma_value_bounds(rest, base);
        let high = pow(base, (name.len() - 1) as nat);
        lemma_pow_positive(base, (name.len() - 1) as nat);
        assert(symbols[digits[0]] == name[0]);
        if name[0] != SEPARATOR {
            assert(digits[0] >= 1);
            assert(digits[0] * high >= high) by (nonlinear_arith)
                requires
                    digits[0] >= 1,
                    high > 0,
            ;
        }
    }
}

/// Decoding undoes encoding on every name that is spelled in the alphabet
/// and does not start with the separator.
pub proof fn lemma_decode_encode(symbols: Seq<char>, name: Seq<char>)
    requires
        valid_symbols(symbols),
        spelled_in(symbols, name),
        name.len() > 0 ==> name[0] != SEPARATOR,
    ensures
        decode_spec(symbols, encode_spec(symbols, name)) == name,
    decreases name.len(),
{
    let base = symbols.len() as int;
    if name.len() == 0 {
        assert(decode_spec(symbols, encode_spec(symbols, name)) =~= name);
    } else {
        let init = name.drop_last();
        let last = name.last();
        let digit = digit_of(symbols, last);
        lemma_name_digits(symbols, name);
        assert(name_digits(symbols, name)[name.len() - 1] == digit);
        assert(name_digits(symbols, name) =~= name_digits(symbols, init).push(digit));
        lemma_value_push(name_digits(symbols, init), digit, base);
        lemma_decode_encode(symbols, init);
        lemma_encode_bounds(symbols, init);
        lemma_encode_bounds(symbols, name);
        let high = encode_spec(symbols, init);
        let id = encode_spec(symbols, name);
        assert(id > 0) by {
            lemma_pow_positive(base, (name.len() - 1) as nat);
        }
        assert(id == base * high + digit) by (nonlinear_arith)
            requires
                id == high * base + digit,
        ;
        lemma_fundamental_div_mod_converse(id, base, high, digit);
        assert(decode_spec(symbols, id) == decode_spec(symbols, high).push(symbols[digit]));
        assert(init.push(last) =~= name);
    }
}

/// Encoding undoes decoding on every id, and a decoded name is spelled in
/// the alphabet and never starts with the separator.
pub proof fn lemma_encode_decode(symbols: Seq<char>, id: int)
    requires
        valid_symbols(symbols),
        id >= 0,
    ensures
        spelled_in(symbols, decode_spec(symbols, id)),
        encode_spec(symbols, decode_spec(symbols, id)) == id,
        (id == 0) == (decode_spec(symbols, id).len() == 0),
        id > 0 ==> decode_spec(symbols, id)[0] != SEPARATOR,
    decreases id,
{
    let base = symbols.len() as int;
    let name = decode_spec(symbols, id);
    if id == 0 {
        assert(name_digits(symbols, name) =~= Seq::<int>::empty());
    } else {
        let high = id / base;
        let digit = id % base;
        lemma_quotient_smaller(id, base);
        lemma_encode_decode(symbols, high);
        let init = decode_spec(symbols, high);
        assert(name == init.push(symbols[digit]));
        assert(spelled_in(symbols, name)) by {
            assert forall|i: int| 0 <= i < name.len() implies symbols.contains(
                #[trigger] name[i],
            ) by {
                if i < init.len() {
                    assert(name[i] == init[i]);
                }
            }
        }
        lemma_digit_of(symbols, digit);
        assert(name_digits(symbols, name) =~= name_digits(symbols, init).push(digit));
        lemma_value_push(name_digits(symbols, init), digit, base);
        assert(high * base == base * high) by (nonlinear_arith);
        if high == 0 {
            assert(name[0] == symbols[digit]);
            assert(digit != 0);
        } else {
            assert(name[0] == init[0]);
        }
    }
}

/// Whether `x` comes before `y` in the order that compares two names of
/// one length symbol by symbol, each symbol by its digit value.
pub open spec fn precedes(symbols: Seq<char>, x: Seq<char>, y: Seq<char>) -> bool {
    &&& x.len() == y.len()
    &&& exists|k: int|
        {
            &&& 0 <= k < x.len()
            &&& forall|i: int| 0 <= i < k ==> x[i] == y[i]
            &&& digit_of(symbols, #[trigger] x[k]) < digit_of(symbols, y[k])
        }
}

proof fn lemma_value_increasing(a: Seq<int>, b: Seq<int>, base: int, k: int)
    requires
        base >= 1,
        a.len() == b.len(),
        digits_in_base(a, base),
        digits_in_base(b, base),
        0 <= k < a.len(),
        forall|i: int| 0 <= i < k ==> a[i] == b[i],
        a[k] < b[k],
    ensures
        value_of(a, base) < value_of(b, base),
    decreases k,
{
    let rest_a = a.drop_first();
    let rest_b = b.drop_first();
    assert(digits_in_base(rest_a, base)) by {
        assert forall|i: int| 0 <= i < rest_a.len() implies 0 <= #[trigger] rest_a[i] < base by {
            assert(rest_a[i] == a[i + 1]);
        }
    }
    assert(digits_in_base(rest_b, base)) by {
        assert forall|i: int| 0 <= i < rest_b.len() implies 0 <= #[trigger] rest_b[i] < base by {
            assert(rest_b[i] == b[i + 1]);
        }
    }
    let high = pow(base, (a.len() - 1) as nat);
    if k == 0 {
        lemma_value_bounds(rest_a, base);
        lemma_value_bounds(rest_b, base);
        assert(a[0] * high + high <= b[0] * high) by (nonlinear_arith)
            requires
                a[0] + 1 <= b[0],
                high >= 0,
        ;
    } else {
        assert(a[0] == b[0]);
        assert forall|i: int| 0 <= i < k - 1 implies rest_a[i] == rest_b[i] by {
            assert(a[i + 1] == b[i + 1]);
        }
        assert(rest_a[k - 1] == a[k] && rest_b[k - 1] == b[k]);
        lemma_value_increasing(rest_a, rest_b, base, k - 1);
    }
}

/// Among names of one length that are spelled in the alphabet, the one
/// that comes first symbol by symbol has the smaller id.
pub proof fn lemma_encode_increasing(symbols: Seq<char>, x: Seq<char>, y: Seq<char>)
    requires
        valid_symbols(symbols),
        spelled_in(symbols, x),
        spelled_in(symbols, y),
        precedes(symbols, x, y),
    ensures
        encode_spec(symbols, x) < encode_spec(symbols, y),
{
    let k = choose|k: int|
        {
            &&& 0 <= k < x.len()
            &&& forall|i: int| 0 <= i < k ==> x[i] == y[i]
            &&& digit_of(symbols, #[trigger] x[k]) < digit_of(symbols, y[k])
        };
    lemma_name_digits(symbols, x);
    lemma_name_digits(symbols, y);
    lemma_value_increasing(
        name_digits(symbols, x),
        name_digits(symbols, y),
        symbols.len() as int,
        k,
    );
}

} // verus!
