use focusmini::{parse_args, parse_value};

fn args(values: &[&str]) -> Vec<String> {
    values.iter().map(|v| v.to_string()).collect()
}

#[test]
fn tests_parse_args_defaults() {
    assert_eq!(parse_args(&args(&[])).unwrap(), (60, 10));
}

#[test]
fn tests_parse_args_custom_values() {
    assert_eq!(parse_args(&args(&["-w", "25", "-b", "5"])).unwrap(), (25, 5));
}

#[test]
fn tests_parse_args_missing_value_error() {
    assert_eq!(parse_args(&args(&["-w"])).unwrap_err(), "no value for -w");
}

#[test]
fn tests_parse_value_invalid_number() {
    assert_eq!(
        parse_value("--work", "abc").unwrap_err(),
        "invalid value 'abc' for --work"
    );
}

#[test]
fn tests_parse_value_too_big_number() {
    assert_eq!(
        parse_value("--work", "1081").unwrap_err(),
        "--work value cannot exceed 1080 minutes"
    );
}

#[test]
fn tests_parse_args_long_flags() {
    assert_eq!(
        parse_args(&args(&["--work", "15", "--break", "7"])).unwrap(),
        (15, 7)
    );
}

#[test]
fn parse_args_unknown_flag_error() {
    assert_eq!(
        parse_args(&args(&["--unknown", "1"])).unwrap_err(),
        "unknown flag --unknown"
    );
}

#[test]
fn tests_parse_value_valid_number() {
    assert_eq!(parse_value("--break", "3").unwrap(), 3);
}

#[test]
fn lib_tests_parse_args_defaults() {
    assert_eq!(parse_args(&args(&[])).unwrap(), (60, 10));
}

#[test]
fn lib_tests_parse_args_custom_values() {
    assert_eq!(parse_args(&args(&["-w", "25", "-b", "5"])).unwrap(), (25, 5));
}

#[test]
fn lib_tests_parse_args_missing_value_error() {
    assert_eq!(parse_args(&args(&["-w"])).unwrap_err(), "no value for -w");
}

#[test]
fn lib_tests_parse_value_invalid_number() {
    assert_eq!(
        parse_value("--work", "abc").unwrap_err(),
        "invalid value 'abc' for --work"
    );
}

#[test]
fn lib_tests_parse_value_too_big_number() {
    assert_eq!(
        parse_value("--work", "1081").unwrap_err(),
        "--work value cannot exceed 1080 minutes"
    );
}

#[test]
fn lib_tests_parse_args_long_flags() {
    assert_eq!(
        parse_args(&args(&["--work", "15", "--break", "7"])).unwrap(),
        (15, 7)
    );
}

#[test]
fn lib_tests_parse_value_valid_number() {
    assert_eq!(parse_value("--break", "3").unwrap(), 3);
}

#[test]
fn parse_args_break_missing_value_error() {
    assert_eq!(parse_args(&args(&["-b"])).unwrap_err(), "no value for -b");
}

#[test]
fn parse_value_break_invalid_number() {
    assert_eq!(
        parse_value("--break", "xyz").unwrap_err(),
        "invalid value 'xyz' for --break"
    );
}

#[test]
fn parse_value_short_flag_too_big_number() {
    assert_eq!(
        parse_value("-b", "1081").unwrap_err(),
        "-b value cannot exceed 1080 minutes"
    );
}

#[test]
fn parse_value_accepts_bound() {
    assert_eq!(parse_value("--work", "1080").unwrap(), 1080);
}

#[test]
fn parse_value_accepts_zero() {
    assert_eq!(parse_value("--work", "0").unwrap(), 0);
}

#[test]
fn parse_value_accepts_plus_sign() {
    assert_eq!(parse_value("--work", "+25").unwrap(), 25);
}

#[test]
fn parse_value_accepts_leading_zeros() {
    assert_eq!(parse_value("--work", "0025").unwrap(), 25);
}

#[test]
fn parse_value_rejects_empty() {
    assert_eq!(
        parse_value("--work", "").unwrap_err(),
        "invalid value '' for --work"
    );
}

#[test]
fn parse_value_rejects_bare_plus() {
    assert_eq!(
        parse_value("--work", "+").unwrap_err(),
        "invalid value '+' for --work"
    );
}

#[test]
fn parse_value_rejects_surrounding_spaces() {
    assert!(parse_value("--work", " 25").is_err());
    assert!(parse_value("--work", "25 ").is_err());
}

#[test]
fn parse_value_rejects_negative() {
    assert_eq!(
        parse_value("--work", "-5").unwrap_err(),
        "invalid value '-5' for --work"
    );
}

#[test]
fn parse_value_rejects_huge_number() {
    assert_eq!(
        parse_value("--work", "999999999999999999").unwrap_err(),
        "invalid value '999999999999999999' for --work"
    );
}

#[test]
fn parse_args_later_flag_wins() {
    assert_eq!(parse_args(&args(&["-w", "5", "-w", "8"])).unwrap(), (8, 10));
}

#[test]
fn parse_args_stops_at_first_error() {
    assert_eq!(
        parse_args(&args(&["-w", "abc", "-b", "5"])).unwrap_err(),
        "invalid value 'abc' for -w"
    );
}

#[test]
fn parse_args_work_roundtrip() {
    for m in [0u16, 1, 9, 10, 59, 60, 99, 100, 999, 1000, 1080] {
        let tokens = args(&["-w", &format!("{m}")]);
        assert_eq!(parse_args(&tokens).unwrap(), (m, 10));
    }
}
