//! Moving between strings and sequences of symbols.

use vstd::prelude::*;

verus! {

/// `String::push` appends one character to the end of the string and leaves
/// the characters before it as they were.
pub assume_specification[ String::push ](s: &mut String, ch: char)
    ensures
        final(s)@ == old(s)@.push(ch),
;

/// The characters of `s`, in order.
pub fn symbols_of(s: &str) -> (symbols: Vec<char>)
    ensures
        symbols@ == s@,
{
    let mut symbols: Vec<char> = Vec::new();
    for c in it: s.chars()
        invariant
            it.seq() == s@,
            symbols@ == s@.take(it.index()),
    {
        assert(s@.take(it.index() + 1) =~= s@.take(it.index()).push(c));
        symbols.push(c);
    }
    assert(s@.take(s@.len() as int) =~= s@);
    symbols
}

/// The string that reads `symbols` from the last to the first.
pub fn reversed_string(symbols: &Vec<char>) -> (s: String)
    ensures
        s@ == symbols@.reverse(),
{
    let mut s = String::new();
    let mut i: usize = symbols.len();
    while i > 0
        invariant
            i <= symbols.len(),
            s@ == symbols@.subrange(i as int, symbols.len() as int).reverse(),
        decreases i,
    {
        i -= 1;
        s.push(symbols[i]);
    }
    s
}

} // verus!
