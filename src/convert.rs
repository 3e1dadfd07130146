//! Conversion of an integer into its Roman numeral, digit by decimal digit.
use crate::alphabet::{is_symbol, pow10, symbols, MAXIMUM, MINIMUM, ROMAN_NUMERALS};
use crate::support::{check_range, push_char};
use vstd::prelude::*;
use vstd::string::*;

verus! {

/// The error of a value outside `[minimum, maximum]`.
#[derive(Debug, Clone, Copy, PartialEq, Eq, Structural)]
pub struct OutOfRange {
    /// The value that was rejected.
    pub value: u16,
    /// The smallest value accepted.
    pub minimum: u16,
    /// The largest value accepted.
    pub maximum: u16,
}

/// The symbols that write the decimal digit `d`, given the symbols of one
/// unit, five units and ten units of its magnitude (subtractive notation).
pub open spec fn fragment(d: nat, unit: char, five: char, ten: char) -> Seq<char> {
    if d == 0 {
        seq![]
    } else if d == 1 {
        seq![unit]
    } else if d == 2 {
        seq![unit, unit]
    } else if d == 3 {
        seq![unit, unit, unit]
    } else if d == 4 {
        seq![unit, five]
    } else if d == 5 {
        seq![five]
    } else if d == 6 {
        seq![five, unit]
    } else if d == 7 {
        seq![five, unit, unit]
    } else if d == 8 {
        seq![five, unit, unit, unit]
    } else {
        seq![unit, ten]
    }
}

/// The symbols of digit `d` at decimal position `p` (0 for the units).
pub open spec fn digit_numeral(d: nat, p: nat) -> Seq<char> {
    fragment(d, symbols()[2 * p as int], symbols()[2 * p as int + 1], symbols()[2 * p as int + 2])
}

/// Whether the alphabet holds every symbol that digit `d` at position `p` needs.
pub open spec fn digit_writable(d: nat, p: nat) -> bool {
    &&& d < 10
    &&& 2 * p < symbols().len()
    &&& d >= 4 ==> 2 * p + 1 < symbols().len()
    &&& d == 9 ==> 2 * p + 2 < symbols().len()
}

/// The numeral of the decimal digits of `v`, the last of which stands at
/// position `p`: the most significant digit comes first.
pub open spec fn numeral_from(v: nat, p: nat) -> Seq<char>
    decreases v,
{
    if v == 0 {
        seq![]
    } else {
        numeral_from(v / 10, p + 1) + digit_numeral(v % 10, p)
    }
}

/// The Roman numeral of `v`.
pub open spec fn roman(v: nat) -> Seq<char> {
    numeral_from(v, 0)
}

/// The number of decimal digits of a positive `v`.
pub open spec fn digit_count(v: nat) -> nat
    decreases v,
{
    if v == 0 {
        0
    } else {
        1 + digit_count(v / 10)
    }
}

/// The largest value that the digits from position `p` on may make, for a
/// whole value of at most `MAXIMUM`.
pub open spec fn reach(p: nat) -> nat {
    MAXIMUM as nat / pow10(p)
}

proof fn lemma_pow10_at_least(p: nat)
    requires
        p >= 4,
    ensures
        pow10(p) >= 10000,
    decreases p,
{
    reveal_with_fuel(pow10, 5);
    if p > 4 {
        lemma_pow10_at_least((p - 1) as nat);
    }
}

/// Each position's bound is a tenth of the one before, the thousands take at
/// most three, and nothing is left for the positions after them.
proof fn lemma_reach(p: nat)
    ensures
        reach(0) == MAXIMUM,
        p <= 3 ==> reach(p + 1) == reach(p) / 10,
        p == 3 ==> reach(p) == 3,
        p >= 4 ==> reach(p) == 0,
{
    reveal_with_fuel(pow10, 5);
    assert(pow10(0) == 1 && pow10(1) == 10 && pow10(2) == 100);
    assert(pow10(3) == 1000 && pow10(4) == 10000);
    if p >= 4 {
        lemma_pow10_at_least(p);
        let d = pow10(p);
        assert(MAXIMUM as nat / d == 0) by (nonlinear_arith)
            requires
                d >= 10000,
                MAXIMUM < 10000,
        ;
    } else if p == 0 {
        assert(reach(1) == 399);
    } else if p == 1 {
        assert(reach(2) == 39);
    } else if p == 2 {
        assert(reach(3) == 3);
    } else {
        assert(reach(4) == 0);
    }
}

/// The error that `value` out of range gives.
pub open spec fn out_of_range(value: u16) -> OutOfRange {
    OutOfRange { value, minimum: MINIMUM, maximum: MAXIMUM }
}

/// Whether `r` is what converting `value` gives: the numeral when `value`
/// lies in `[MINIMUM, MAXIMUM]`, the range error otherwise.
pub open spec fn is_conversion(value: u16, r: Result<String, OutOfRange>) -> bool {
    &&& r is Ok <==> MINIMUM <= value <= MAXIMUM
    &&& r matches Ok(s) ==> s@ == roman(value as nat)
    &&& r matches Err(e) ==> e == out_of_range(value)
}

/// Builds the symbols of digit `d` at decimal position `p`.
fn digit_symbols(d: u16, p: usize) -> (r: String)
    requires
        digit_writable(d as nat, p as nat),
    ensures
        r@ == digit_numeral(d as nat, p as nat),
{
    proof {
        crate::alphabet::lemma_bounds_from_alphabet();
    }
    let mut r = String::new();
    let unit = ROMAN_NUMERALS[2 * p];
    if d == 9 {
        push_char(&mut r, unit);
        push_char(&mut r, ROMAN_NUMERALS[2 * p + 2]);
    } else if d == 4 {
        push_char(&mut r, unit);
        push_char(&mut r, ROMAN_NUMERALS[2 * p + 1]);
    } else {
        let mut units: u16 = d;
        if d >= 5 {
            push_char(&mut r, ROMAN_NUMERALS[2 * p + 1]);
            units = d - 5;
        }
        let mut i: u16 = 0;
        while i < units
            invariant
                units <= 3,
                i <= units,
                r@ == (if d >= 5 {
                    seq![symbols()[2 * p as int + 1]]
                } else {
                    seq![]
                }) + Seq::new(i as nat, |k: int| unit),
                units == (if d >= 5 {
                    d - 5
                } else {
                    d as int
                }),
                unit == symbols()[2 * p as int],
                digit_writable(d as nat, p as nat),
                d != 4 && d != 9,
            decreases units - i,
        {
            push_char(&mut r, unit);
            i = i + 1;
            assert(r@ =~= (if d >= 5 {
                seq![symbols()[2 * p as int + 1]]
            } else {
                seq![]
            }) + Seq::new(i as nat, |k: int| unit));
        }
        assert(r@ =~= digit_numeral(d as nat, p as nat));
    }
    r
}

/// Every symbol that digit `d` at position `p` uses is in the alphabet, and a
/// digit takes at most four symbols, and at least one when it is not zero.
proof fn lemma_digit_numeral_shape(d: nat, p: nat)
    requires
        digit_writable(d, p),
    ensures
        forall|i: int|
            0 <= i < digit_numeral(d, p).len() ==> #[trigger] is_symbol(digit_numeral(d, p)[i]),
        digit_numeral(d, p).len() <= 4,
        d > 0 ==> digit_numeral(d, p).len() > 0,
{
    let s = symbols();
    let k = 2 * p as int;
    assert(is_symbol(s[k]));
    if d >= 4 {
        assert(is_symbol(s[k + 1]));
    }
    if d == 9 {
        assert(is_symbol(s[k + 2]));
    }
}

/// The digits of `v`, the last at position `p`, write a numeral of alphabet
/// symbols only, at most four per digit and not empty when `v` is not zero.
proof fn lemma_numeral_from_shape(v: nat, p: nat)
    requires
        v <= reach(p),
    ensures
        forall|i: int|
            0 <= i < numeral_from(v, p).len() ==> #[trigger] is_symbol(numeral_from(v, p)[i]),
        numeral_from(v, p).len() <= 4 * digit_count(v),
        v > 0 ==> numeral_from(v, p).len() > 0,
    decreases v,
{
    lemma_reach(p);
    if v > 0 {
        let head = numeral_from(v / 10, p + 1);
        let tail = digit_numeral(v % 10, p);
        lemma_numeral_from_shape(v / 10, p + 1);
        lemma_digit_numeral_shape(v % 10, p);
        assert(numeral_from(v, p) == head + tail);
        assert forall|i: int| 0 <= i < numeral_from(v, p).len() implies #[trigger] is_symbol(
            numeral_from(v, p)[i],
        ) by {
            if i < head.len() {
                assert(is_symbol(head[i]));
            } else {
                assert(is_symbol(tail[i - head.len()]));
            }
        }
    }
}

/// Every value in `[MINIMUM, MAXIMUM]` has a numeral that is not empty, holds
/// alphabet symbols only (so no whitespace and no null character), and is at
/// most four symbols long per decimal digit of the value.
pub proof fn lemma_roman_well_formed(v: u16)
    requires
        MINIMUM <= v <= MAXIMUM,
    ensures
        roman(v as nat).len() > 0,
        forall|i: int| 0 <= i < roman(v as nat).len() ==> #[trigger] is_symbol(roman(v as nat)[i]),
        forall|i: int| 0 <= i < roman(v as nat).len() ==> #[trigger] roman(v as nat)[i] != '\0',
        roman(v as nat).len() <= 4 * digit_count(v as nat),
{
    lemma_reach(0);
    lemma_numeral_from_shape(v as nat, 0);
    assert forall|i: int| 0 <= i < roman(v as nat).len() implies #[trigger] roman(v as nat)[i]
        != '\0' by {
        assert(is_symbol(roman(v as nat)[i]));
    }
}

/// Converting a value twice gives the same outcome: two results that both
/// meet the contract of `to_roman_numeral` for one value hold the same numeral,
/// or the same error.
pub proof fn lemma_conversion_deterministic(
    value: u16,
    r1: Result<String, OutOfRange>,
    r2: Result<String, OutOfRange>,
)
    requires
        is_conversion(value, r1),
        is_conversion(value, r2),
    ensures
        r1 is Ok <==> r2 is Ok,
        r1 is Ok ==> r1->Ok_0@ == r2->Ok_0@,
        r1 is Err ==> r1 == r2,
{
}

/// Converts `value` into its Roman numeral, or fails with the range error
/// when it lies outside `[MINIMUM, MAXIMUM]`.
pub fn to_roman_numeral(value: u16) -> (r: Result<String, OutOfRange>)
    ensures
        is_conversion(value, r),
        r is Ok <==> MINIMUM <= value <= MAXIMUM,
        r matches Ok(s) ==> s@ == roman(value as nat),
        r matches Err(e) ==> e == out_of_range(value),
        r matches Ok(s) ==> s@.len() > 0 && s@.len() <= 4 * digit_count(value as nat),
        r matches Ok(s) ==> forall|i: int| 0 <= i < s@.len() ==> #[trigger] is_symbol(s@[i]),
{
    if check_range(value, MINIMUM, MAXIMUM + 1).is_err() {
        return Err(OutOfRange { value, minimum: MINIMUM, maximum: MAXIMUM });
    }
    proof {
        lemma_roman_well_formed(value);
        lemma_reach(0);
    }
    let mut result = String::new();
    let mut v: u16 = value;
    let mut p: usize = 0;
    while v > 0
        invariant
            roman(value as nat) == numeral_from(v as nat, p as nat) + result@,
            v <= reach(p as nat),
            p <= 4,
        decreases v,
    {
        proof {
            lemma_reach(p as nat);
        }
        let d: u16 = v % 10;
        let mut piece = digit_symbols(d, p);
        piece.append(result.as_str());
        proof {
            assert(numeral_from(v as nat, p as nat) == numeral_from((v / 10) as nat, (p + 1) as nat)
                + digit_numeral(d as nat, p as nat));
            assert(roman(value as nat) =~= numeral_from((v / 10) as nat, (p + 1) as nat) + piece@);
        }
        result = piece;
        v = v / 10;
        p = p + 1;
    }
    assert(result@ =~= roman(value as nat));
    Ok(result)
}

} // verus!
