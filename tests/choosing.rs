use rotor::config::{parse_config, SecretValue};
use rotor::select::{export_line, on_line, read_choice, status_line, values_for, Prompt};
use rotor::session::{Answer, RunError, Session, Stage};

fn opt(name: &str, secret: &str, value: &str) -> SecretValue {
    SecretValue { value: value.to_string(), name: name.to_string(), secret: secret.to_string() }
}

#[test]
fn filtering_keeps_order_of_matching_options() {
    let opts = vec![opt("one", "A", "1"), opt("two", "B", "2"), opt("three", "A", "3")];
    let got = values_for(&opts, "A");
    let labels: Vec<&str> = got.iter().map(|o| o.name.as_str()).collect();
    assert_eq!(labels, vec!["one", "three"]);
    assert!(values_for(&opts, "C").is_empty());
}

#[test]
fn choices_outside_the_range_are_rejected() {
    assert_eq!(read_choice("-1", 3), None);
    assert_eq!(read_choice("abc", 3), None);
    assert_eq!(read_choice("3", 3), None);
    assert_eq!(read_choice("", 3), None);
    assert_eq!(read_choice("  \n", 3), None);
    assert_eq!(read_choice("1 2", 3), None);
    assert_eq!(read_choice("99999999999999999999999999", 3), None);
    assert_eq!(read_choice("0", 0), None);
}

#[test]
fn choices_inside_the_range_are_accepted() {
    assert_eq!(read_choice("0", 3), Some(0));
    assert_eq!(read_choice("2", 3), Some(2));
    assert_eq!(read_choice(" 1 \n", 3), Some(1));
    assert_eq!(read_choice("+1\r\n", 3), Some(1));
    assert_eq!(read_choice("007", 8), Some(7));
}

#[test]
fn unicode_white_space_around_a_choice_is_trimmed() {
    assert_eq!(read_choice("\u{c}1", 3), Some(1));
    assert_eq!(read_choice("\u{c}0", 2), Some(0));
    assert_eq!(read_choice("\u{b}\u{a0}2\u{3000}\u{2009}\n", 3), Some(2));
    assert_eq!(read_choice("\u{85}1\u{2028}", 3), Some(1));
    assert_eq!(read_choice("\u{200b}1", 3), None);
}

#[test]
fn prompt_outcomes() {
    assert_eq!(on_line(None, 2), Prompt::EndOfInput);
    assert_eq!(on_line(Some("x"), 2), Prompt::Retry);
    assert_eq!(on_line(Some("1\n"), 2), Prompt::Accepted(1));
}

#[test]
fn output_lines() {
    assert_eq!(export_line("API_KEY", "abc123"), "export API_KEY=abc123");
    assert_eq!(export_line("K", "\"a b\""), "export K=\"a b\"");
    assert_eq!(status_line("prod", "API_KEY"), "Setting prod value for API_KEY");
}

fn finished(session: &Session) -> (String, String) {
    match &session.stage {
        Stage::Finished { export, status } => (export.clone(), status.clone()),
        _ => panic!("run not finished"),
    }
}

#[test]
fn end_to_end_with_choices_zero_and_zero() {
    let config = parse_config("--secrets\nAPI_KEY\n--secrets\n--values\nprod:API_KEY=abc123\n--values\n").unwrap();
    let mut session = Session::start(config).unwrap();
    assert_eq!(session.menu(), vec!["API_KEY".to_string()]);
    assert_eq!(session.answer(Some("0\n")), Ok(Answer::Advanced));
    assert_eq!(session.menu(), vec!["prod".to_string()]);
    assert!(!session.is_finished());
    assert_eq!(session.answer(Some("0\n")), Ok(Answer::Advanced));
    assert!(session.is_finished());
    let (export, status) = finished(&session);
    assert_eq!(export, "export API_KEY=abc123");
    assert_eq!(status, "Setting prod value for API_KEY");
}

#[test]
fn rejected_lines_leave_the_session_unchanged() {
    let text = "--secrets\nA\nB\n--secrets\n--values\nx:A=1\ny:B=2\nz:B=3\n--values";
    let mut session = Session::start(parse_config(text).unwrap()).unwrap();
    for bad in ["-1", "abc", "2"] {
        assert_eq!(session.answer(Some(bad)), Ok(Answer::Retry));
        assert!(matches!(session.stage, Stage::ChooseSecret));
        assert_eq!(session.menu(), vec!["A".to_string(), "B".to_string()]);
    }
    assert_eq!(session.answer(Some("1")), Ok(Answer::Advanced));
    assert_eq!(session.menu(), vec!["y".to_string(), "z".to_string()]);
    assert_eq!(session.answer(Some("2")), Ok(Answer::Retry));
    assert_eq!(session.menu_len(), 2);
    assert_eq!(session.answer(Some("1")), Ok(Answer::Advanced));
    assert_eq!(finished(&session).0, "export B=3");
}

#[test]
fn a_secret_without_values_is_an_error() {
    let text = "--secrets\nA\nB\n--secrets\n--values\nx:A=1\n--values";
    let mut session = Session::start(parse_config(text).unwrap()).unwrap();
    assert_eq!(session.answer(Some("1")), Err(RunError::NoValuesAvailable));
    assert!(matches!(session.stage, Stage::ChooseSecret));
    assert_eq!(RunError::NoValuesAvailable.message(), "no values available for the chosen secret");
}

#[test]
fn no_secrets_and_end_of_input() {
    let config = parse_config("--secrets\n\n--secrets\n--values\n\n--values").unwrap();
    assert!(matches!(Session::start(config), Err(RunError::NoSecretsAvailable)));
    let config = parse_config("--secrets\nA\n--secrets\n--values\nx:A=1\n--values").unwrap();
    let mut session = Session::start(config).unwrap();
    assert_eq!(session.answer(None), Err(RunError::EndOfInput));
}
