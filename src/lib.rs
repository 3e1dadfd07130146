//! Conversion of integers from 1 to 3999 into canonical Roman numerals.
pub mod alphabet;
pub mod convert;
mod support;

pub use alphabet::{MAXIMUM, MINIMUM, ROMAN_NUMERALS};
pub use convert::{to_roman_numeral, OutOfRange};
