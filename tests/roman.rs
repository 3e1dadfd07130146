use roman_numerals::convert::{to_roman_numeral, OutOfRange};
use roman_numerals::{MAXIMUM, MINIMUM, ROMAN_NUMERALS};

/// An independent converter, greedy over the value table, used as the
/// ordered reference list.
fn greedy(mut value: u16) -> String {
    let table: [(u16, &str); 13] = [
        (1000, "M"),
        (900, "CM"),
        (500, "D"),
        (400, "CD"),
        (100, "C"),
        (90, "XC"),
        (50, "L"),
        (40, "XL"),
        (10, "X"),
        (9, "IX"),
        (5, "V"),
        (4, "IV"),
        (1, "I"),
    ];
    let mut out = String::new();
    for (amount, symbols) in table {
        while value >= amount {
            out.push_str(symbols);
            value -= amount;
        }
    }
    out
}

#[test]
fn test_out_of_range() {
    for value in [0, 3999 + 1] {
        assert!(to_roman_numeral(value).is_err())
    }
}

#[test]
fn test_last_roman_number() {
    assert!(to_roman_numeral(3999).is_ok())
}

#[test]
fn ordered_reference_set() {
    let reference: Vec<String> = (1..=3999u16).map(greedy).collect();
    for (index, expected) in reference.iter().enumerate() {
        assert_eq!(&to_roman_numeral((index + 1) as u16).unwrap(), expected);
    }
}

#[test]
fn ordered_first_values() {
    let expected = [
        "I", "II", "III", "IV", "V", "VI", "VII", "VIII", "IX", "X", "XI", "XII", "XIII", "XIV",
        "XV", "XVI", "XVII", "XVIII", "XIX", "XX",
    ];
    for (index, line) in expected.iter().enumerate() {
        assert_eq!(to_roman_numeral((index + 1) as u16).unwrap(), *line);
    }
}

#[test]
fn random_values() {
    let pairs: [(&str, u16); 12] = [
        ("MCMLXXXVII", 1987),
        ("MMXXIV", 2024),
        ("CDXLIV", 444),
        ("MDCLXVI", 1666),
        ("MMMDCCCLXXXVIII", 3888),
        ("XLIX", 49),
        ("XCIX", 99),
        ("D", 500),
        ("M", 1000),
        ("MM", 2000),
        ("CMXCIX", 999),
        ("LXXIII", 73),
    ];
    for (numeral, value) in pairs {
        assert_eq!(to_roman_numeral(value).unwrap(), numeral);
    }
}

#[test]
fn length_class_boundaries() {
    assert_eq!(to_roman_numeral(1).unwrap(), "I");
    assert_eq!(to_roman_numeral(4).unwrap(), "IV");
    assert_eq!(to_roman_numeral(9).unwrap(), "IX");
    assert_eq!(to_roman_numeral(40).unwrap(), "XL");
    assert_eq!(to_roman_numeral(90).unwrap(), "XC");
    assert_eq!(to_roman_numeral(400).unwrap(), "CD");
    assert_eq!(to_roman_numeral(900).unwrap(), "CM");
    assert_eq!(to_roman_numeral(3999).unwrap(), "MMMCMXCIX");
}

#[test]
fn range_error_reports_value_and_bounds() {
    assert_eq!(
        to_roman_numeral(0),
        Err(OutOfRange { value: 0, minimum: 1, maximum: 3999 })
    );
    assert_eq!(
        to_roman_numeral(4000),
        Err(OutOfRange { value: 4000, minimum: 1, maximum: 3999 })
    );
    let err = to_roman_numeral(u16::MAX).unwrap_err();
    assert_eq!((err.minimum, err.maximum), (1, 3999));
    assert_eq!(err.value, u16::MAX);
}

#[test]
fn bounds_accepted() {
    assert_eq!(to_roman_numeral(MINIMUM).unwrap(), "I");
    assert!(to_roman_numeral(MAXIMUM).is_ok());
    assert!(to_roman_numeral(MINIMUM - 1).is_err());
    assert!(to_roman_numeral(MAXIMUM + 1).is_err());
}

#[test]
fn constants() {
    assert_eq!(MINIMUM, 1);
    assert_eq!(MAXIMUM, 3999);
    assert_eq!(ROMAN_NUMERALS, ['I', 'V', 'X', 'L', 'C', 'D', 'M']);
}

#[test]
fn every_value_in_range_uses_only_symbols() {
    for value in MINIMUM..=MAXIMUM {
        let numeral = to_roman_numeral(value).unwrap();
        assert!(!numeral.is_empty());
        assert!(numeral.chars().all(|c| ROMAN_NUMERALS.contains(&c)));
    }
}

#[test]
fn converting_twice_gives_the_same_numeral() {
    for value in [1u16, 7, 48, 444, 1994, 3999] {
        assert_eq!(to_roman_numeral(value), to_roman_numeral(value));
    }
    assert_eq!(to_roman_numeral(0), to_roman_numeral(0));
}

#[test]
fn no_whitespace_and_bounded_length() {
    for value in MINIMUM..=MAXIMUM {
        let numeral = to_roman_numeral(value).unwrap();
        assert_eq!(numeral.trim(), numeral);
        assert!(!numeral.contains('\0'));
        let digits = value.to_string().len();
        assert!(numeral.chars().count() <= 4 * digits);
    }
    assert_eq!(to_roman_numeral(3888).unwrap().len(), 15);
}
