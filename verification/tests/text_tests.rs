use pipequery::interpreter::Interpreter;
use pipequery::text::{parse_dec_u64, str_eq, u128_to_dec_string, usize_to_dec_string};

#[test]
fn parse_dec_accepts_digit_runs_that_fit() {
    assert_eq!(parse_dec_u64("0"), Some(0));
    assert_eq!(parse_dec_u64("007"), Some(7));
    assert_eq!(parse_dec_u64("18446744073709551615"), Some(u64::MAX));
}

#[test]
fn parse_dec_rejects_everything_else() {
    assert_eq!(parse_dec_u64(""), None);
    assert_eq!(parse_dec_u64("+5"), None);
    assert_eq!(parse_dec_u64("-5"), None);
    assert_eq!(parse_dec_u64("5a"), None);
    assert_eq!(parse_dec_u64(" 5"), None);
    assert_eq!(parse_dec_u64("18446744073709551616"), None);
}

#[test]
fn decimal_rendering_is_canonical() {
    assert_eq!(u128_to_dec_string(0).as_str(), "0");
    assert_eq!(u128_to_dec_string(10).as_str(), "10");
    assert_eq!(
        u128_to_dec_string(36893488147419103230).as_str(),
        "36893488147419103230"
    );
    assert_eq!(usize_to_dec_string(12345).as_str(), "12345");
}

#[test]
fn str_eq_compares_by_characters() {
    assert!(str_eq("", ""));
    assert!(str_eq("abc", "abc"));
    assert!(!str_eq("abc", "abd"));
    assert!(!str_eq("abc", "abcd"));
}

#[test]
fn leading_zeros_still_add_numerically() {
    let mut interpreter = Interpreter::new();
    interpreter.run_text("| generate count=1 name=a").unwrap();
    interpreter.run_text("| eval z = 007 + 1").unwrap();
    assert_eq!(interpreter.output().get_cell(1, 1).as_str(), "8");
}

#[test]
fn signed_looking_text_concatenates_rather_than_adds() {
    let mut interpreter = Interpreter::new();
    interpreter.run_text("| generate count=1 name=a").unwrap();
    let r = interpreter.run_text("| eval z = \"+5\" + 1");
    assert!(r.is_ok());
    assert_eq!(interpreter.output().get_cell(1, 1).as_str(), "+51");
}
