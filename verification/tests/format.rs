use wiz_cli::format::{
    dry_run_text, format_human, format_issues, format_nodes, format_object, truncate,
    value_to_cell,
};
use wiz_cli::json::{compact_text, JsonValue};

fn s(text: &str) -> JsonValue {
    JsonValue::Str(text.to_string())
}

fn n(text: &str) -> JsonValue {
    JsonValue::Number(text.to_string())
}

fn arr(items: Vec<JsonValue>) -> JsonValue {
    JsonValue::Array(items, None)
}

fn obj(entries: Vec<(&str, JsonValue)>) -> JsonValue {
    JsonValue::Object(
        entries.into_iter().map(|(k, v)| (k.to_string(), v)).collect(),
        None,
    )
}

#[test]
fn truncates_by_characters_with_an_ellipsis() {
    assert_eq!(truncate("abcdefghij", 5), "ab...");
    assert_eq!(truncate("abcde", 5), "abcde");
    assert_eq!(truncate("héllo", 5), "héllo");
    assert_eq!(truncate("héllo wörld", 8), "héllo...");
    assert_eq!(truncate("abcdef", 2), "...");
    assert_eq!(truncate("", 0), "");
}

#[test]
fn cells_show_each_kind_of_value() {
    assert_eq!(value_to_cell(&JsonValue::Null), "-");
    assert_eq!(value_to_cell(&s("text")), "text");
    assert_eq!(value_to_cell(&JsonValue::Bool(true)), "true");
    assert_eq!(value_to_cell(&JsonValue::Bool(false)), "false");
    assert_eq!(value_to_cell(&n("-12.5")), "-12.5");
    assert_eq!(
        value_to_cell(&arr(vec![s("a"), JsonValue::Null, n("3")])),
        "a, -, 3"
    );
    let object = JsonValue::Object(
        vec![("k".to_string(), s("v"))],
        Some("{\"k\":\"v\"}".to_string()),
    );
    assert_eq!(value_to_cell(&object), "{\"k\":\"v\"}");
}

#[test]
fn escapes_strings_as_json() {
    assert_eq!(compact_text(&s("plain")), "\"plain\"");
    assert_eq!(compact_text(&s("a\"b\\c")), "\"a\\\"b\\\\c\"");
    assert_eq!(compact_text(&s("line\nnext\ttab")), "\"line\\nnext\\ttab\"");
    assert_eq!(compact_text(&s("\u{1}")), "\"\\u0001\"");
    assert_eq!(compact_text(&JsonValue::Null), "null");
    assert_eq!(compact_text(&JsonValue::Bool(true)), "true");
}

#[test]
fn reads_integers_as_serde_does() {
    assert_eq!(n("42").as_i64(), Some(42));
    assert_eq!(n("-9223372036854775808").as_i64(), Some(i64::MIN));
    assert_eq!(n("9223372036854775807").as_i64(), Some(i64::MAX));
    assert_eq!(n("9223372036854775808").as_i64(), None);
    assert_eq!(n("4.5").as_i64(), None);
    assert_eq!(s("1").as_i64(), None);
}

#[test]
fn issue_table_has_fixed_columns() {
    let node = obj(vec![
        ("id", s("issue-1")),
        ("type", s("THREAT_DETECTION")),
        ("status", s("OPEN")),
        ("severity", s("HIGH")),
        ("entity", obj(vec![("name", s("a-very-long-virtual-machine-name-indeed"))])),
        ("updatedAt", s("2024-01-01T00:00:00Z")),
    ]);
    let bare = obj(vec![("severity", JsonValue::Null)]);
    let mut expected = format!(
        "{:<38} {:<24} {:<12} {:<14} {:<28} {}\n",
        "ID", "TYPE", "STATUS", "SEVERITY", "ENTITY", "UPDATED"
    );
    expected.push_str(&"-".repeat(135));
    expected.push('\n');
    expected.push_str(&format!(
        "{:<38} {:<24} {:<12} {:<14} {:<28} {}\n",
        "issue-1",
        "THREAT_DETECTION",
        "OPEN",
        "HIGH",
        "a-very-long-virtual-machi...",
        "2024-01-01T00:00:00Z"
    ));
    expected.push_str(&format!(
        "{:<38} {:<24} {:<12} {:<14} {:<28} {}\n",
        "-", "-", "-", "-", "-", "-"
    ));
    assert_eq!(format_issues(&vec![node, bare]), expected);
}

#[test]
fn result_table_prefers_error_then_success() {
    assert_eq!(format_nodes(&vec![]), "No results");
    let failed = obj(vec![
        ("id", s("issue-1")),
        ("operation", s("updateIssue")),
        ("success", JsonValue::Bool(false)),
        ("error", s("denied")),
    ]);
    let done = obj(vec![
        ("id", s("issue-2")),
        ("operation", s("updateIssue")),
        ("success", JsonValue::Bool(true)),
    ]);
    let event = JsonValue::Object(
        vec![("timestamp".to_string(), s("2024-01-01"))],
        Some("{\"timestamp\":\"2024-01-01\"}".to_string()),
    );
    let mut expected = format!("{:<38} {:<24} {}\n", "ID", "OPERATION", "RESULT");
    expected.push_str(&"-".repeat(100));
    expected.push('\n');
    expected.push_str(&format!("{:<38} {:<24} {}\n", "issue-1", "updateIssue", "denied"));
    expected.push_str(&format!("{:<38} {:<24} {}\n", "issue-2", "updateIssue", "true"));
    expected.push_str(&format!(
        "{:<38} {:<24} {}\n",
        "-", "2024-01-01", "{\"timestamp\":\"2024-01-01\"}"
    ));
    assert_eq!(format_nodes(&vec![failed, done, event]), expected);
}

#[test]
fn field_table_widens_to_the_longest_key() {
    let entries = vec![
        ("id".to_string(), s("issue-1")),
        ("resolutionNote".to_string(), s("two\nlines")),
    ];
    let width = 14;
    let mut expected = format!("{:<width$} VALUE\n", "FIELD");
    expected.push_str(&"-".repeat(width + 65));
    expected.push('\n');
    expected.push_str(&format!("{:<width$} {}\n", "id", "issue-1"));
    expected.push_str(&format!("{:<width$} {}\n", "resolutionNote", "two lines"));
    assert_eq!(format_object(&entries), expected);

    let short = vec![("a".to_string(), n("1"))];
    let mut expected = format!("{:<5} VALUE\n", "FIELD");
    expected.push_str(&"-".repeat(70));
    expected.push('\n');
    expected.push_str(&format!("{:<5} {}\n", "a", "1"));
    assert_eq!(format_object(&short), expected);
}

#[test]
fn human_form_picks_the_table_by_shape() {
    let listing = obj(vec![(
        "nodes",
        arr(vec![obj(vec![("id", s("i")), ("severity", s("LOW"))])]),
    )]);
    let nodes = vec![obj(vec![("id", s("i")), ("severity", s("LOW"))])];
    assert_eq!(format_human(&listing), format_issues(&nodes));

    let plain = obj(vec![("nodes", arr(vec![obj(vec![("id", s("e"))])]))]);
    assert_eq!(format_human(&plain), format_nodes(&vec![obj(vec![("id", s("e"))])]));

    let results = arr(vec![obj(vec![("id", s("r"))])]);
    assert_eq!(format_human(&results), format_nodes(&vec![obj(vec![("id", s("r"))])]));

    let single = obj(vec![("id", s("x"))]);
    assert_eq!(
        format_human(&single),
        format_object(&vec![("id".to_string(), s("x"))])
    );
    assert_eq!(format_human(&n("7")), "7");
}

#[test]
fn dry_run_numbers_each_operation() {
    let ops = vec![
        ("query A", "{}".to_string()),
        ("query B", "{\n  \"a\": 1\n}".to_string()),
    ];
    assert_eq!(
        dry_run_text(&ops),
        "Operation 1\nQuery:\nquery A\nVariables:\n{}\n\nOperation 2\nQuery:\nquery B\nVariables:\n{\n  \"a\": 1\n}\n"
    );
    assert_eq!(dry_run_text(&vec![]), "");
}

#[test]
fn writes_built_values_as_serde_does() {
    let value = obj(vec![
        ("b", n("1")),
        ("a", arr(vec![s("x"), JsonValue::Null])),
        ("B", obj(vec![])),
        ("é", JsonValue::Bool(false)),
        ("b", JsonValue::Bool(true)),
        ("q\"", arr(vec![])),
    ]);
    assert_eq!(
        compact_text(&value),
        "{\"B\":{},\"a\":[\"x\",null],\"b\":true,\"q\\\"\":[],\"é\":false}"
    );
    assert_eq!(value_to_cell(&value), compact_text(&value));
    let carried = JsonValue::Array(vec![n("1")], Some("[1]".to_string()));
    assert_eq!(compact_text(&arr(vec![carried, n("2")])), "[[1],2]");
}
