use std::str::FromStr;

use imgfilter::rect::{RectInfo, RectParseError};

#[test]
fn parse_four_numbers() {
    let r = RectInfo::parse_str("1 2 3 4").unwrap();
    assert_eq!(r.0, (1, 2, 3, 4));
}

#[test]
fn parse_extra_whitespace() {
    let r = RectInfo::parse_str("  10\t20\n30 40  ").unwrap();
    assert_eq!(r.0, (10, 20, 30, 40));
}

#[test]
fn parse_unicode_whitespace() {
    // Any Unicode whitespace separates tokens, exactly as
    // str::split_whitespace would: no-break space, em space, ideographic
    // space, next line.
    let r = RectInfo::parse_str("1\u{00A0}2 3 4").unwrap();
    assert_eq!(r.0, (1, 2, 3, 4));
    let r = RectInfo::parse_str("5\u{2003}6\u{3000}7\u{0085}8").unwrap();
    assert_eq!(r.0, (5, 6, 7, 8));
    let r = RectInfo::parse_str("\u{1680}9 10 11 12\u{202F}").unwrap();
    assert_eq!(r.0, (9, 10, 11, 12));
}

#[test]
fn parse_matches_split_whitespace() {
    // The crate's tokenizer agrees with the standard library's splitter on
    // a mixed sample.
    let s = "\u{2028}1\u{2029}2\u{205F}3\t4\u{200A}";
    let std_tokens: Vec<u32> = s.split_whitespace().map(|t| t.parse().unwrap()).collect();
    let r = RectInfo::parse_str(s).unwrap();
    assert_eq!(std_tokens, vec![r.0 .0, r.0 .1, r.0 .2, r.0 .3]);
}

#[test]
fn parse_plus_sign() {
    let r = RectInfo::parse_str("+5 0 1 2").unwrap();
    assert_eq!(r.0, (5, 0, 1, 2));
}

#[test]
fn parse_u32_limits() {
    let r = RectInfo::parse_str("4294967295 0 0 0").unwrap();
    assert_eq!(r.0, (u32::MAX, 0, 0, 0));
    let e = RectInfo::parse_str("4294967296 0 0 0").unwrap_err();
    assert_eq!(e, RectParseError::Number);
}

#[test]
fn parse_wrong_count() {
    assert_eq!(RectInfo::parse_str("1 2 3").unwrap_err(), RectParseError::Count);
    assert_eq!(RectInfo::parse_str("1 2 3 4 5").unwrap_err(), RectParseError::Count);
    assert_eq!(RectInfo::parse_str("").unwrap_err(), RectParseError::Count);
}

#[test]
fn parse_bad_tokens() {
    assert_eq!(RectInfo::parse_str("1 a 3 4").unwrap_err(), RectParseError::Number);
    assert_eq!(RectInfo::parse_str("1 -2 3 4").unwrap_err(), RectParseError::Number);
    assert_eq!(RectInfo::parse_str("+ 1 2 3").unwrap_err(), RectParseError::Number);
    assert_eq!(RectInfo::parse_str("12a 1 2 3").unwrap_err(), RectParseError::Number);
    // A non-whitespace, non-digit character glues to its token.
    assert_eq!(RectInfo::parse_str("1\u{200B}2 3 4").unwrap_err(), RectParseError::Number);
}

#[test]
fn parse_zeroes() {
    let r = RectInfo::parse_str("0 0 0 0").unwrap();
    assert_eq!(r.0, (0, 0, 0, 0));
}

#[test]
fn from_str_matches_parse_str() {
    let r = RectInfo::from_str("7 8 9 10").unwrap();
    assert_eq!(r.0, (7, 8, 9, 10));
    assert_eq!(
        RectInfo::from_str("1 2 3").unwrap_err(),
        "the number of numbers must be 4.".to_string()
    );
    assert!(RectInfo::from_str("x y w h").is_err());
}
