//! The symbol table that defines the numeral base of token names.

use vstd::prelude::*;

verus! {

/// The symbol that separates a token from its subtoken. It is always the
/// zero digit of an alphabet.
pub const SEPARATOR: char = '.';

/// The symbol reserved for internationalized names. Where an alphabet has
/// it, it is the digit one.
pub const HYPHEN: char = '-';

/// The largest base for which every twelve-symbol name fits in 64 bits.
pub const MAX_BASE: usize = 38;

/// Whether `symbols` can serve as an alphabet: between two and
/// [`MAX_BASE`] pairwise distinct symbols, the separator first, the
/// hyphen, if present at all, second, and at least one symbol besides
/// these two.
pub open spec fn valid_symbols(symbols: Seq<char>) -> bool {
    &&& 2 <= symbols.len() <= MAX_BASE
    &&& symbols[0] == SEPARATOR
    &&& forall|i: int, j: int| 0 <= i < j < symbols.len() ==> symbols[i] != symbols[j]
    &&& forall|i: int| 0 <= i < symbols.len() && symbols[i] == HYPHEN ==> i == 1
    &&& lowest_digit(symbols) < symbols.len()
}

/// The smallest digit whose symbol is neither the separator nor the
/// hyphen.
pub open spec fn lowest_digit(symbols: Seq<char>) -> int {
    if symbols.len() > 1 && symbols[1] == HYPHEN {
        2
    } else {
        1
    }
}

/// The digit value of `c`: its position in `symbols`.
pub open spec fn digit_of(symbols: Seq<char>, c: char) -> int {
    symbols.index_of(c)
}

/// In a valid alphabet a symbol has exactly one position.
pub proof fn lemma_digit_of(symbols: Seq<char>, i: int)
    requires
        valid_symbols(symbols),
        0 <= i < symbols.len(),
    ensures
        digit_of(symbols, symbols[i]) == i,
{
    let j = symbols.index_of(symbols[i]);
    assert(0 <= j < symbols.len() && symbols[j] == symbols[i]);
}

/// An ordered table of distinct symbols; the position of a symbol is its
/// digit value and the number of symbols is the base.
pub struct Alphabet {
    symbols: Vec<char>,
}

impl View for Alphabet {
    type V = Seq<char>;

    closed spec fn view(&self) -> Seq<char> {
        self.symbols@
    }
}

impl Alphabet {
    #[verifier::type_invariant]
    spec fn well_formed(&self) -> bool {
        valid_symbols(self.symbols@)
    }

    /// The number of symbols.
    pub fn base(&self) -> (b: u64)
        ensures
            b == self@.len(),
            valid_symbols(self@),
    {
        proof {
            use_type_invariant(self);
        }
        self.symbols.len() as u64
    }

    /// The digit value of `c`, or `None` where `c` is no symbol of this
    /// alphabet.
    pub fn position(&self, c: char) -> (digit: Option<u64>)
        ensures
            match digit {
                Some(d) => self@.contains(c) && d == digit_of(self@, c),
                None => !self@.contains(c),
            },
    {
        proof {
            use_type_invariant(self);
        }
        let mut i: usize = 0;
        while i < self.symbols.len()
            invariant
                i <= self.symbols.len(),
                valid_symbols(self.symbols@),
                forall|k: int| 0 <= k < i ==> self.symbols@[k] != c,
            decreases self.symbols.len() - i,
        {
            if self.symbols[i] == c {
                proof {
                    lemma_digit_of(self.symbols@, i as int);
                }
                return Some(i as u64);
            }
            i += 1;
        }
        None
    }

    /// The symbol whose digit value is `digit`, or `None` where the base
    /// has no such digit.
    pub fn symbol(&self, digit: u64) -> (c: Option<char>)
        ensures
            c == if digit < self@.len() {
                Some(self@[digit as int])
            } else {
                None
            },
    {
        if digit < self.base() {
            Some(self.symbol_at(digit))
        } else {
            None
        }
    }

    pub(crate) fn symbol_at(&self, digit: u64) -> (c: char)
        requires
            digit < self@.len(),
        ensures
            c == self@[digit as int],
    {
        proof {
            use_type_invariant(self);
        }
        self.symbols[digit as usize]
    }

    /// The alphabet of base 38: separator, hyphen, `A` to `Z`, `0` to `9`.
    pub fn standard() -> (alphabet: Alphabet)
        ensures
            alphabet@ == standard_symbols(),
    {
        let symbols = vec![
            '.', '-', 'A', 'B', 'C', 'D', 'E', 'F', 'G', 'H', 'I', 'J', 'K', 'L', 'M', 'N', 'O',
            'P', 'Q', 'R', 'S', 'T', 'U', 'V', 'W', 'X', 'Y', 'Z', '0', '1', '2', '3', '4', '5',
            '6', '7', '8', '9',
        ];
        proof {
            assert(symbols@ =~= standard_symbols());
            lemma_standard_symbols();
        }
        Alphabet { symbols }
    }

    /// The alphabet of base 37, which has no hyphen: separator, `A` to
    /// `Z`, `0` to `9`.
    pub fn alphanumeric() -> (alphabet: Alphabet)
        ensures
            alphabet@ == alphanumeric_symbols(),
    {
        let symbols = vec![
            '.', 'A', 'B', 'C', 'D', 'E', 'F', 'G', 'H', 'I', 'J', 'K', 'L', 'M', 'N', 'O', 'P',
            'Q', 'R', 'S', 'T', 'U', 'V', 'W', 'X', 'Y', 'Z', '0', '1', '2', '3', '4', '5', '6',
            '7', '8', '9',
        ];
        proof {
            assert(symbols@ =~= alphanumeric_symbols());
            lemma_alphanumeric_symbols();
        }
        Alphabet { symbols }
    }

    /// The alphabet made of `symbols` in the given order, or `None` where
    /// they are no valid alphabet.
    pub fn new(symbols: Vec<char>) -> (alphabet: Option<Alphabet>)
        ensures
            match alphabet {
                Some(a) => valid_symbols(symbols@) && a@ == symbols@,
                None => !valid_symbols(symbols@),
            },
    {
        let n = symbols.len();
        if n < 2 || n > MAX_BASE || symbols[0] != SEPARATOR {
            return None;
        }
        if symbols[1] == HYPHEN && n < 3 {
            return None;
        }
        let mut j: usize = 1;
        while j < n
            invariant
                1 <= j <= n,
                n == symbols.len(),
                forall|a: int, b: int| 0 <= a < b < j ==> symbols@[a] != symbols@[b],
                forall|a: int| 0 <= a < j && symbols@[a] == HYPHEN ==> a == 1,
            decreases n - j,
        {
            if symbols[j] == HYPHEN && j != 1 {
                return None;
            }
            let mut i: usize = 0;
            while i < j
                invariant
                    i <= j < n,
                    n == symbols.len(),
                    forall|a: int| 0 <= a < i ==> symbols@[a] != symbols@[j as int],
                decreases j - i,
            {
                if symbols[i] == symbols[j] {
                    return None;
                }
                i += 1;
            }
            j += 1;
        }
        Some(Alphabet { symbols })
    }

    /// The smallest digit whose symbol is neither the separator nor the
    /// hyphen.
    pub fn lowest(&self) -> (digit: u64)
        ensures
            digit == lowest_digit(self@),
            digit < self@.len(),
    {
        proof {
            use_type_invariant(self);
        }
        if self.symbols[1] == HYPHEN {
            2
        } else {
            1
        }
    }

    /// The symbols in digit order.
    pub fn symbols(&self) -> (symbols: &Vec<char>)
        ensures
            symbols@ == self@,
            valid_symbols(self@),
    {
        proof {
            use_type_invariant(self);
        }
        &self.symbols
    }
}

/// The symbols of the base-37 alphabet, in digit order.
pub open spec fn alphanumeric_symbols() -> Seq<char> {
    seq![
        '.', 'A', 'B', 'C', 'D', 'E', 'F', 'G', 'H', 'I', 'J', 'K', 'L', 'M', 'N', 'O', 'P', 'Q',
        'R', 'S', 'T', 'U', 'V', 'W', 'X', 'Y', 'Z', '0', '1', '2', '3', '4', '5', '6', '7', '8',
        '9',
    ]
}

/// The base-37 symbols form a valid alphabet.
pub proof fn lemma_alphanumeric_symbols()
    ensures
        valid_symbols(alphanumeric_symbols()),
        alphanumeric_symbols().len() == 37,
{
}

/// The symbols of the base-38 alphabet, in digit order.
pub open spec fn standard_symbols() -> Seq<char> {
    seq![
        '.', '-', 'A', 'B', 'C', 'D', 'E', 'F', 'G', 'H', 'I', 'J', 'K', 'L', 'M', 'N', 'O', 'P',
        'Q', 'R', 'S', 'T', 'U', 'V', 'W', 'X', 'Y', 'Z', '0', '1', '2', '3', '4', '5', '6', '7',
        '8', '9',
    ]
}

/// The base-38 symbols form a valid alphabet.
pub proof fn lemma_standard_symbols()
    ensures
        valid_symbols(standard_symbols()),
        standard_symbols().len() == 38,
{
}

} // verus!
