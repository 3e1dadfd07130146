//! The symbol alphabet and the bounds that its length gives.
use vstd::prelude::*;

verus! {

/// The numeral symbols in ascending order of magnitude:
/// 1, 5, 10, 50, 100, 500 and 1000.
pub const ROMAN_NUMERALS: [char; 7] = ['I', 'V', 'X', 'L', 'C', 'D', 'M'];

/// The smallest value that has a numeral.
pub const MINIMUM: u16 = 1;

/// The largest value that the alphabet can write.
pub const MAXIMUM: u16 = 3999;

/// The alphabet as a sequence.
pub open spec fn symbols() -> Seq<char> {
    seq!['I', 'V', 'X', 'L', 'C', 'D', 'M']
}

/// Whether `c` is one of the seven symbols.
pub open spec fn is_symbol(c: char) -> bool {
    symbols().contains(c)
}

pub open spec fn pow10(n: nat) -> nat
    decreases n,
{
    if n == 0 {
        1
    } else {
        10 * pow10((n - 1) as nat)
    }
}

/// The largest value that an alphabet of `len` symbols writes: with an even
/// count the top symbol is a "five", with an odd count a lone "unit".
pub open spec fn maximum_for(len: nat) -> int {
    if len % 2 == 0 {
        pow10((len / 2 - 1) as nat) * 9 - 1
    } else {
        pow10(len / 2) * 4 - 1
    }
}

/// The constants agree with the alphabet: `ROMAN_NUMERALS` holds the seven
/// symbols, and `MAXIMUM` is the bound that their count gives.
pub proof fn lemma_bounds_from_alphabet()
    ensures
        ROMAN_NUMERALS@ == symbols(),
        MINIMUM == 1,
        MAXIMUM == maximum_for(ROMAN_NUMERALS@.len()),
{
    assert(ROMAN_NUMERALS@ =~= symbols());
    reveal_with_fuel(pow10, 4);
}

} // verus!
