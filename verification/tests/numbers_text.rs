use stmax_control::numbers::{
    decimal_in_range_exec, hex4_lower_exec, hex4_upper_exec, nat_string, number_display_exec,
    parse_number, parse_u8_exec, parse_u8_range, ParsedNumber,
};
use stmax_control::text::{
    eq_ignore_ascii_case_exec, find_exec, join_exec, split_once_exec, trim_chars, words_exec,
};

fn chars(s: &str) -> Vec<char> {
    s.chars().collect()
}

fn text(v: &[char]) -> String {
    v.iter().collect()
}

fn power(raw: &str) -> Result<String, String> {
    decimal_in_range_exec(&chars(raw), "Power", 0, 100_000, "0", "100")
}

#[test]
fn decimals_are_written_with_at_most_three_places() {
    assert_eq!(power("55").unwrap(), "55");
    assert_eq!(power("55.50").unwrap(), "55.5");
    assert_eq!(power("0.1234").unwrap(), "0.123");
    assert_eq!(power("0.1236").unwrap(), "0.124");
    assert_eq!(power("99.9996").unwrap(), "100");
    assert_eq!(power(".5").unwrap(), "0.5");
    assert_eq!(power("5.").unwrap(), "5");
    assert_eq!(power("+7").unwrap(), "7");
    assert_eq!(power("  3  ").unwrap(), "3");
    assert_eq!(power("-0").unwrap(), "-0");
}

#[test]
fn exponents_move_the_decimal_point() {
    assert_eq!(power("1e1").unwrap(), "10");
    assert_eq!(power("5E+1").unwrap(), "50");
    assert_eq!(power("1e-3").unwrap(), "0.001");
    assert_eq!(power("2.5e-1").unwrap(), "0.25");
    assert_eq!(power(".5e2").unwrap(), "50");
    assert_eq!(power("0e999").unwrap(), "0");
    assert_eq!(power("-1e-999").unwrap(), "-0");
    assert_eq!(power("-1000e-310").unwrap_err(), "Power must be between 0 and 100, got -0");
    assert_eq!(power("0.00000001e8").unwrap(), "1");
    assert_eq!(power("0.001e310").unwrap_err().contains("inf"), false);
    assert_eq!(power("1000e306").unwrap_err(), "Power must be between 0 and 100, got inf");
    assert_eq!(power("1e2").unwrap(), "100");
    assert_eq!(power("1e3").unwrap_err(), "Power must be between 0 and 100, got 1000");
    assert_eq!(power("1e309").unwrap_err(), "Power must be between 0 and 100, got inf");
    assert_eq!(power("1e").unwrap_err(), "Power must be numeric, got `1e`");
    assert_eq!(power("e1").unwrap_err(), "Power must be numeric, got `e1`");
    assert_eq!(power("1e+").unwrap_err(), "Power must be numeric, got `1e+`");
    assert_eq!(power("1e1.5").unwrap_err(), "Power must be numeric, got `1e1.5`");
}

#[test]
fn exact_ties_round_to_even() {
    assert_eq!(power("0.0625").unwrap(), "0.062");
    assert_eq!(power("12.0625").unwrap(), "12.062");
    assert_eq!(power("0.1875").unwrap(), "0.188");
    assert_eq!(power("0.06251").unwrap(), "0.063");
}

#[test]
fn decimal_range_errors() {
    assert_eq!(power("100.0001").unwrap_err(), "Power must be between 0 and 100, got 100");
    assert_eq!(power("-1").unwrap_err(), "Power must be between 0 and 100, got -1");
    assert_eq!(power("-0.0001").unwrap_err(), "Power must be between 0 and 100, got -0");
    assert_eq!(power("inf").unwrap_err(), "Power must be between 0 and 100, got inf");
    assert_eq!(power("-Infinity").unwrap_err(), "Power must be between 0 and 100, got -inf");
    assert_eq!(power("NaN").unwrap_err(), "Power must be between 0 and 100, got NaN");
    assert_eq!(power("").unwrap_err(), "Power must be numeric, got ``");
    assert_eq!(power(".").unwrap_err(), "Power must be numeric, got `.`");
    assert_eq!(power("1.2.3").unwrap_err(), "Power must be numeric, got `1.2.3`");
    assert_eq!(power("12abc").unwrap_err(), "Power must be numeric, got `12abc`");
}

#[test]
fn large_numbers_are_refused() {
    assert_eq!(power("1000000").unwrap_err(), "Power must be between 0 and 100, got 1000000");
    assert_eq!(power("250.5").unwrap_err(), "Power must be between 0 and 100, got 250.5");
}

#[test]
fn numbers_are_read_by_kind() {
    assert!(matches!(parse_number(&chars("-12.5")), ParsedNumber::Finite { negative: true, .. }));
    assert!(matches!(parse_number(&chars("INF")), ParsedNumber::Infinite { negative: false }));
    assert!(matches!(parse_number(&chars("nan")), ParsedNumber::NotANumber));
    assert!(matches!(parse_number(&chars("1x")), ParsedNumber::Malformed));
    assert_eq!(text(&number_display_exec(&parse_number(&chars("007.25000")))), "7.25");
}

#[test]
fn small_integers() {
    assert_eq!(parse_u8_exec(&chars("255")), Some(255));
    assert_eq!(parse_u8_exec(&chars("+0")), Some(0));
    assert_eq!(parse_u8_exec(&chars("256")), None);
    assert_eq!(parse_u8_exec(&chars("-1")), None);
    assert_eq!(parse_u8_exec(&chars("")), None);
    assert_eq!(parse_u8_range(&chars(" 9 "), "RDS DI", 0, 15), Ok(9));
    assert_eq!(
        parse_u8_range(&chars("20"), "RDS DI", 0, 15).unwrap_err(),
        "RDS DI must be between 0 and 15, got 20"
    );
    assert_eq!(
        parse_u8_range(&chars("x"), "RDS DI", 0, 15).unwrap_err(),
        "RDS DI must be an integer, got `x`"
    );
}

#[test]
fn integer_and_hex_text() {
    assert_eq!(nat_string(0), "0");
    assert_eq!(nat_string(115_200), "115200");
    assert_eq!(nat_string(u64::MAX), "18446744073709551615");
    assert_eq!(text(&hex4_upper_exec(0x1a2b)), "1A2B");
    assert_eq!(text(&hex4_lower_exec(0x1A2B)), "1a2b");
    assert_eq!(text(&hex4_upper_exec(7)), "0007");
}

#[test]
fn text_helpers() {
    assert_eq!(text(&trim_chars(&chars("\t a b \n"))), "a b");
    assert_eq!(find_exec(&chars("abcabc"), &chars("ca")), Some(2));
    assert_eq!(find_exec(&chars("abc"), &chars("x")), None);
    assert!(eq_ignore_ascii_case_exec(&chars("Not Set"), &chars("not set")));
    let (a, b) = split_once_exec(&chars("99.5 MHz x"), &chars("MHz")).unwrap();
    assert_eq!(text(&a), "99.5 ");
    assert_eq!(text(&b), " x");
    let words = words_exec(&chars(" a,b;; c "), true);
    assert_eq!(words.iter().map(|w| text(w)).collect::<Vec<_>>(), vec!["a", "b", "c"]);
    let joined = join_exec(&vec![chars("a"), chars("b")], &chars(", "));
    assert_eq!(text(&joined), "a, b");
}
