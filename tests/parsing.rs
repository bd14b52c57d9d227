use rotor::config::{parse_config, parse_row, parse_secret_names, parse_secret_options, ConfigError};
use rotor::text::split_lines;

fn names(text: &str) -> Vec<String> {
    parse_secret_names(text).unwrap()
}

#[test]
fn parsing_twice_gives_the_same_lists() {
    let text = "--secrets\nA\nB\n--secrets\n\n--values\nx:A=1\ny:B=\"two\"\n--values\n";
    let first = parse_config(text).unwrap();
    let second = parse_config(text).unwrap();
    assert_eq!(first.secrets, second.secrets);
    assert_eq!(first.values.len(), second.values.len());
    for (a, b) in first.values.iter().zip(second.values.iter()) {
        assert_eq!(a.name, b.name);
        assert_eq!(a.secret, b.secret);
        assert_eq!(a.value, b.value);
    }
}

#[test]
fn two_names_in_order() {
    assert_eq!(names("--secrets\nA\nB\n--secrets"), vec!["A".to_string(), "B".to_string()]);
}

#[test]
fn blank_lines_in_the_secrets_block_are_skipped() {
    assert_eq!(names("--secrets\n\nA\n\n\nB\n\n--secrets\n"), vec!["A".to_string(), "B".to_string()]);
}

#[test]
fn names_keep_duplicates_and_crlf_is_stripped() {
    let text = "intro\r\n--secrets\r\nA\r\nA\r\n--secrets\r\n";
    assert_eq!(names(text), vec!["A".to_string(), "A".to_string()]);
}

#[test]
fn adjacent_markers_are_a_missing_block() {
    let err = parse_secret_names("--secrets\n--secrets").unwrap_err();
    assert!(matches!(err, ConfigError::NoSecrets));
    let err = parse_secret_options("--values\n--values").unwrap_err();
    assert!(matches!(err, ConfigError::NoValues));
}

#[test]
fn a_block_of_one_blank_line_gives_no_names() {
    assert_eq!(names("--secrets\n\n--secrets"), Vec::<String>::new());
}

#[test]
fn names_block_among_other_lines() {
    let text = "# header\n\n--secrets\nA\n\nB\n--secrets\n--values\nx:A=1\n--values\ntrailer\n";
    assert_eq!(names(text), vec!["A".to_string(), "B".to_string()]);
}

#[test]
fn values_block_with_plain_and_quoted_values() {
    let opts = parse_secret_options("--values\nlbl1:SEC=val1\nlbl2:SEC=\"val 2\"\n--values").unwrap();
    assert_eq!(opts.len(), 2);
    assert_eq!(opts[0].name, "lbl1");
    assert_eq!(opts[0].secret, "SEC");
    assert_eq!(opts[0].value, "val1");
    assert_eq!(opts[1].name, "lbl2");
    assert_eq!(opts[1].secret, "SEC");
    assert_eq!(opts[1].value, "\"val 2\"");
}

#[test]
fn trailing_blanks_after_a_value_are_ignored() {
    let opts = parse_secret_options("--values\nlabel_1:DEMO_KEY=\"value_1\" \nlabel_2:DEMO_KEY=v2\t\n--values").unwrap();
    assert_eq!(opts[0].value, "\"value_1\"");
    assert_eq!(opts[1].value, "v2");
}

#[test]
fn malformed_row_names_the_line() {
    let err = parse_secret_options("--values\nok:SEC=v\nlbl1:SEC val1\n--values").unwrap_err();
    match &err {
        ConfigError::BadRow(row) => assert_eq!(row, "lbl1:SEC val1"),
        other => panic!("unexpected error {:?}", other),
    }
    assert_eq!(err.message(), "unable to parse row lbl1:SEC val1");
}

#[test]
fn missing_secrets_block_is_its_own_error() {
    let err = parse_secret_names("--values\na:B=c\n--values").unwrap_err();
    assert!(matches!(err, ConfigError::NoSecrets));
    assert_eq!(err.message(), "no secrets found");
}

#[test]
fn unclosed_values_block_is_missing() {
    let err = parse_secret_options("--values\na:B=c\n").unwrap_err();
    assert!(matches!(err, ConfigError::NoValues));
    assert_eq!(err.message(), "no values found");
}

#[test]
fn a_second_secrets_block_is_refused() {
    let err = parse_secret_names("--secrets\nA\n--secrets\n--secrets\nB\n--secrets").unwrap_err();
    assert!(matches!(err, ConfigError::RepeatedSecrets));
    let err = parse_secret_options("--values\n--values\n--values").unwrap_err();
    assert!(matches!(err, ConfigError::RepeatedValues));
}

#[test]
fn names_are_read_before_values() {
    let err = parse_config("--values\nbad row\n--values").unwrap_err();
    assert!(matches!(err, ConfigError::NoSecrets));
    let err = parse_config("--secrets\nA\n--secrets\n--values\nbad row\n--values").unwrap_err();
    assert!(matches!(err, ConfigError::BadRow(_)));
}

#[test]
fn row_grammar() {
    let o = parse_row("prod:API_KEY=abc123").unwrap();
    assert_eq!((o.name.as_str(), o.secret.as_str(), o.value.as_str()), ("prod", "API_KEY", "abc123"));
    let o = parse_row("clé:SEC=\"\"").unwrap();
    assert_eq!((o.name.as_str(), o.value.as_str()), ("clé", "\"\""));
    assert!(parse_row("lbl-1:SEC=v").is_none());
    assert!(parse_row(":SEC=v").is_none());
    assert!(parse_row("lbl:=v").is_none());
    assert!(parse_row("lbl:SEC=").is_none());
    assert!(parse_row("lbl:SEC=\"open").is_none());
    assert!(parse_row("lbl:SEC=val1 extra").is_none());
    assert!(parse_row("lbl:SEC=\"a b\" x").is_none());
}

#[test]
fn lines_of_a_text() {
    assert_eq!(split_lines("a\r\nb\n"), vec!["a".to_string(), "b".to_string(), String::new()]);
    assert_eq!(split_lines(""), vec![String::new()]);
}
