use neo_calc::error::ParseError;
use neo_calc::names::validate_var_name;
use neo_calc::text::{error_pointer, strip_whitespace, to_chars, trim_fraction};

// error pointer string
#[test]
fn test_error_pointer() {
    assert_eq!(error_pointer("1+}", 2), "  ^");
    assert_eq!(error_pointer("1 + }", 4), "    ^");
    assert_eq!(error_pointer("x", 0), "^");
}

// validation
#[test]
fn test_validate_var_name() {
    assert!(validate_var_name("x").is_ok());
    assert!(validate_var_name("my_var").is_ok());
    assert!(validate_var_name("").is_err());
    assert!(validate_var_name("pi").is_err());
    assert!(validate_var_name("sin").is_err());
    assert!(validate_var_name("1x").is_err());
}

#[test]
fn error_pointer_past_the_end_stops_at_the_line_end() {
    assert_eq!(error_pointer("12", 7), "  ^");
    assert_eq!(error_pointer("", 3), "^");
    assert_eq!(error_pointer("ä+ö", 2), "  ^");
}

#[test]
fn validate_var_name_messages() {
    assert_eq!(validate_var_name(""), Err("Name darf nicht leer sein".to_string()));
    assert_eq!(validate_var_name("e"), Err("'e' ist reserviert".to_string()));
    assert_eq!(validate_var_name("sqrt"), Err("'sqrt' ist reserviert".to_string()));
    assert_eq!(validate_var_name("ceil"), Err("'ceil' ist reserviert".to_string()));
    let shape = Err(
        "Nur Buchstaben, Ziffern und '_' erlaubt; muss mit einem Buchstaben beginnen".to_string(),
    );
    assert_eq!(validate_var_name("1x"), shape);
    assert_eq!(validate_var_name("a-b"), shape);
    assert_eq!(validate_var_name("a b"), shape);
    // the name must start with a letter, as the calculator's help says
    assert_eq!(validate_var_name("_x"), shape);
}

#[test]
fn validate_var_name_accepts_letters_digits_and_underscores() {
    assert_eq!(validate_var_name("tax"), Ok(()));
    assert_eq!(validate_var_name("x1_y2"), Ok(()));
    assert_eq!(validate_var_name("Pi"), Ok(()));
    assert_eq!(validate_var_name("sinus"), Ok(()));
    assert_eq!(validate_var_name("größe"), Ok(()));
}

#[test]
fn trim_fraction_drops_trailing_zeros_then_the_point() {
    assert_eq!(trim_fraction("33.3333333333"), "33.3333333333");
    assert_eq!(trim_fraction("120.0000000000"), "120");
    assert_eq!(trim_fraction("0.5000000000"), "0.5");
    assert_eq!(trim_fraction("-0.0000000000"), "-0");
    assert_eq!(trim_fraction("100"), "1");
    assert_eq!(trim_fraction(""), "");
}

#[test]
fn stripping_keeps_original_positions() {
    let (chars, positions) = strip_whitespace(" 1 +\t2 ");
    assert_eq!(chars, vec!['1', '+', '2']);
    assert_eq!(positions, vec![1, 3, 5]);
    let (chars, positions) = strip_whitespace("   ");
    assert!(chars.is_empty());
    assert!(positions.is_empty());
}

#[test]
fn character_classes_decide_names_and_stripping() {
    // whitespace of every kind is stripped
    let (chars, _) = strip_whitespace("a\tb\nc\u{A0}d");
    assert_eq!(chars, vec!['a', 'b', 'c', 'd']);
    // letters start names, digits and '_' may follow
    assert_eq!(validate_var_name("é1_"), Ok(()));
    assert!(validate_var_name("7a").is_err());
    assert!(validate_var_name("a+").is_err());
    // the caret line is built character by character
    assert_eq!(error_pointer("abc", 1), " ^");
    assert_eq!(to_chars("aß"), vec!['a', 'ß']);
}

#[test]
fn parse_error_at() {
    let e = ParseError::at("boom".to_string(), 3);
    assert_eq!(e.msg, "boom");
    assert_eq!(e.pos, Some(3));
}

#[test]
fn white_space_agrees_with_std_on_every_char() {
    for code in 0u32..=0x10FFFF {
        if let Some(c) = char::from_u32(code) {
            assert_eq!(neo_calc::text::white_space(c), c.is_whitespace(), "U+{:04X}", code);
        }
    }
}
