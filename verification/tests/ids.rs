use wiz_cli::ids::{ids_from_stdin, parse_ids_text};

#[test]
fn parses_single_id() {
    assert_eq!(parse_ids_text("issue-1"), Ok(vec!["issue-1".to_string()]));
}

#[test]
fn parses_comma_separated_ids_and_trims_whitespace() {
    assert_eq!(
        parse_ids_text(" issue-1, issue-2 ,issue-3 "),
        Ok(vec![
            "issue-1".to_string(),
            "issue-2".to_string(),
            "issue-3".to_string()
        ])
    );
}

#[test]
fn skips_blank_lines() {
    assert_eq!(
        parse_ids_text("issue-1\n\n  \nissue-2\n"),
        Ok(vec!["issue-1".to_string(), "issue-2".to_string()])
    );
}

#[test]
fn refuses_input_without_ids() {
    assert_eq!(
        parse_ids_text(" ,\n\r, "),
        Err("no issue IDs were provided".to_string())
    );
    assert_eq!(parse_ids_text(""), Err("no issue IDs were provided".to_string()));
}

#[test]
fn trims_unicode_white_space_and_carriage_returns() {
    assert_eq!(
        parse_ids_text("\u{a0}a\u{3000}\r\nb\t"),
        Ok(vec!["a".to_string(), "b".to_string()])
    );
}

#[test]
fn stdin_without_ids_names_stdin() {
    assert_eq!(
        ids_from_stdin("\n\n"),
        Err("stdin did not contain any issue IDs".to_string())
    );
    assert_eq!(ids_from_stdin("x\ny\n"), Ok(vec!["x".to_string(), "y".to_string()]));
}

#[test]
fn joined_ids_read_back() {
    let ids = parse_ids_text(" a , b\r\n\nc ").unwrap();
    assert_eq!(parse_ids_text(&ids.join(",")), Ok(ids.clone()));
    assert_eq!(parse_ids_text(&ids.join("\n")), Ok(ids.clone()));
}
