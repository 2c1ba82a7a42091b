use fibonacci_sequence::validation::{
    get_error_message, is_valid_input, validate_input, validate_input_with_max, MAX_FIBONACCI_N,
};

#[test]
fn accepts_a_number_in_range() {
    assert_eq!(validate_input("10"), Ok(10));
    assert_eq!(validate_input("0"), Ok(0));
    assert_eq!(validate_input("25"), Ok(25));
}

#[test]
fn rejects_a_number_above_the_bound() {
    assert_eq!(MAX_FIBONACCI_N, 25);
    assert_eq!(
        validate_input("26"),
        Err("Number 26 is too large! Please enter 0-25".to_string())
    );
}

#[test]
fn rejects_text_that_is_no_number() {
    assert_eq!(validate_input("abc"), Err("Please enter a valid number".to_string()));
    assert_eq!(validate_input(""), Err("Please enter a valid number".to_string()));
    assert_eq!(validate_input("   "), Err("Please enter a valid number".to_string()));
    assert_eq!(validate_input("1 2"), Err("Please enter a valid number".to_string()));
    assert_eq!(validate_input("+"), Err("Please enter a valid number".to_string()));
}

#[test]
fn trims_white_space() {
    assert_eq!(validate_input(" 5 "), Ok(5));
    assert_eq!(validate_input("\t7\n"), Ok(7));
    assert_eq!(validate_input("\u{3000}8\u{a0}"), Ok(8));
}

#[test]
fn rejects_negative_numbers() {
    assert_eq!(validate_input("-1"), Err("Please enter a valid number".to_string()));
}

#[test]
fn accepts_a_plus_sign() {
    assert_eq!(validate_input("+12"), Ok(12));
}

#[test]
fn numbers_beyond_u32_are_too_large() {
    assert_eq!(
        validate_input("4294967296"),
        Err("Number 4294967296 is too large! Please enter 0-25".to_string())
    );
    assert_eq!(
        validate_input("4294967295"),
        Err("Number 4294967295 is too large! Please enter 0-25".to_string())
    );
    assert_eq!(
        validate_input(" +123456789012345678901234567890 "),
        Err("Number 123456789012345678901234567890 is too large! Please enter 0-25".to_string())
    );
}

#[test]
fn leading_zeros_are_allowed() {
    assert_eq!(validate_input("007"), Ok(7));
    assert_eq!(validate_input("000"), Ok(0));
    assert_eq!(
        validate_input("0026"),
        Err("Number 26 is too large! Please enter 0-25".to_string())
    );
}

#[test]
fn bound_is_configurable() {
    assert_eq!(validate_input_with_max("40", 40), Ok(40));
    assert_eq!(
        validate_input_with_max("41", 40),
        Err("Number 41 is too large! Please enter 0-40".to_string())
    );
}

#[test]
fn validity_and_error_message() {
    assert!(is_valid_input("3"));
    assert!(!is_valid_input("x"));
    assert_eq!(get_error_message("x"), "Please enter a valid number");
    assert_eq!(get_error_message("100"), "Number 100 is too large! Please enter 0-25");
}
