use benchmarks::parse::parse_number_with_underscores;

#[test]
fn parses_plain_numbers() {
    assert_eq!(parse_number_with_underscores("0"), Ok(0));
    assert_eq!(parse_number_with_underscores("123"), Ok(123));
}

#[test]
fn parses_underscore_separators() {
    assert_eq!(parse_number_with_underscores("1_000_000"), Ok(1_000_000));
    assert_eq!(parse_number_with_underscores("_5_"), Ok(5));
}

#[test]
fn accepts_leading_plus() {
    assert_eq!(parse_number_with_underscores("+42"), Ok(42));
}

#[test]
fn rejects_empty_and_garbage() {
    assert!(parse_number_with_underscores("").is_err());
    assert!(parse_number_with_underscores("_").is_err());
    assert!(parse_number_with_underscores("12a").is_err());
    assert!(parse_number_with_underscores("-3").is_err());
    assert!(parse_number_with_underscores("1 2").is_err());
}

#[test]
fn rejects_overflow() {
    assert!(parse_number_with_underscores("99_999_999_999_999_999_999_999").is_err());
}
