//! Calls into code that Verus does not read: the range check of `range_check`
//! and appending a character to a `String`.
use range_check::Check;
use vstd::prelude::*;

verus! {

#[verifier::external_type_specification]
#[verifier::external_body]
#[verifier::reject_recursive_types(T)]
pub struct ExOutOfRangeError<T>(range_check::OutOfRangeError<T>);

/// Relies on `range_check::Check::check_range` over `minimum..end`: it hands
/// the value back in `Ok` exactly when the range contains it, that is when
/// `minimum <= value < end`, and returns an error otherwise.
#[verifier::external_body]
pub(crate) fn check_range(value: u16, minimum: u16, end: u16) -> (r: Result<
    u16,
    range_check::OutOfRangeError<u16>,
>)
    ensures
        r is Ok <==> minimum <= value < end,
        r matches Ok(v) ==> v == value,
{
    value.check_range(minimum..end)
}

/// Relies on `String::push`: it appends the character to the end.
#[verifier::external_body]
pub(crate) fn push_char(s: &mut String, c: char)
    ensures
        final(s)@ == old(s)@.push(c),
{
    s.push(c)
}

} // verus!
