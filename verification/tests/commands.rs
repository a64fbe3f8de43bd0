use wiz_cli::commands::close::{
    build_operation as build_close, check_close, check_issue_type, issue_type_of,
    normalize_reason, threat_reason,
};
use wiz_cli::commands::{assign, note, status, BatchResults};
use wiz_cli::json::JsonValue;

fn s(text: &str) -> JsonValue {
    JsonValue::Str(text.to_string())
}

fn arr(items: Vec<JsonValue>) -> JsonValue {
    JsonValue::Array(items, None)
}

fn obj(entries: Vec<(&str, JsonValue)>) -> JsonValue {
    JsonValue::Object(
        entries.into_iter().map(|(k, v)| (k.to_string(), v)).collect(),
        None,
    )
}

const THREAT_REASONS: [&str; 5] = [
    "MALICIOUS_THREAT",
    "NOT_MALICIOUS_THREAT",
    "SECURITY_TEST_THREAT",
    "PLANNED_ACTION_THREAT",
    "INCONCLUSIVE_THREAT",
];

#[test]
fn builds_one_assignment_for_every_id() {
    let ids = vec!["a".to_string(), "b".to_string(), "c".to_string()];
    assert_eq!(
        assign::build_operation(&ids, "owner@example.com").variables,
        obj(vec![(
            "input",
            obj(vec![
                ("issueIds", arr(vec![s("a"), s("b"), s("c")])),
                ("assignee", s("owner@example.com")),
            ]),
        )])
    );
}

#[test]
fn builds_patch_variables() {
    let cases = [
        (
            "wont_fix",
            None,
            None,
            obj(vec![("status", s("REJECTED")), ("resolutionReason", s("WONT_FIX"))]),
        ),
        (
            "issue_fixed",
            None,
            None,
            obj(vec![("status", s("RESOLVED")), ("resolutionReason", s("ISSUE_FIXED"))]),
        ),
        (
            "false_positive",
            Some("known scanner"),
            None,
            obj(vec![
                ("status", s("REJECTED")),
                ("resolutionReason", s("FALSE_POSITIVE")),
                ("note", s("known scanner")),
            ]),
        ),
        (
            "exception",
            None,
            Some(90),
            obj(vec![
                ("status", s("REJECTED")),
                ("resolutionReason", s("EXCEPTION")),
                ("rejectionExpiredAt", s("2024-02-12T22:13:20Z")),
            ]),
        ),
    ];

    for (reason, note, expiry, expected_patch) in cases {
        assert_eq!(
            build_close("issue-1", reason, note, expiry, 1_700_000_000)
                .expect("valid close")
                .variables,
            obj(vec![("issueId", s("issue-1")), ("patch", expected_patch)]),
            "reason {reason}"
        );
    }
}

#[test]
fn builds_threat_reason_variables_as_resolved() {
    for reason in THREAT_REASONS {
        assert_eq!(
            build_close("issue-1", reason, None, None, 1_700_000_000)
                .expect("valid close")
                .variables,
            obj(vec![
                ("issueId", s("issue-1")),
                (
                    "patch",
                    obj(vec![("status", s("RESOLVED")), ("resolutionReason", s(reason))]),
                ),
            ])
        );
    }
}

#[test]
fn rejects_rejection_expiry_for_a_resolved_reason() {
    assert!(build_close("issue-1", "not_malicious_threat", None, Some(90), 1_700_000_000).is_err());
}

#[test]
fn close_errors_name_the_cause() {
    assert_eq!(
        build_close("issue-1", "issue_fixed", None, Some(1), 0).unwrap_err(),
        "--rejection-expires-days can only be used with a reason that maps to REJECTED"
    );
    assert_eq!(
        build_close("issue-1", "wont_fix", None, Some(u64::MAX), 0).unwrap_err(),
        "rejection expiry is too large"
    );
    assert_eq!(
        build_close("issue-1", "wont_fix", None, Some(1), i64::MAX - 10).unwrap_err(),
        "rejection expiry is too large"
    );
    let error = build_close("issue-1", "done", None, None, 0).unwrap_err();
    assert!(error.starts_with("invalid resolution reason 'done'; valid values: OBJECT_DELETED, "));
    assert!(error.ends_with(", INCONCLUSIVE_THREAT, SEVERITY_CHANGED"));
    assert_eq!(normalize_reason("Wont_Fix"), Ok("WONT_FIX".to_string()));
}

#[test]
fn close_uses_the_status_mutation() {
    let op = build_close("issue-1", "exception", None, None, 0).unwrap();
    assert_eq!(op.query, status::MUTATION);
    assert!(op.query.starts_with("mutation UpdateIssue("));
}

#[test]
fn builds_note_variables() {
    assert_eq!(
        note::build_operation("issue-1", "needs review").variables,
        obj(vec![(
            "input",
            obj(vec![("issueId", s("issue-1")), ("text", s("needs review"))]),
        )])
    );
}

#[test]
fn builds_status_variables() {
    assert_eq!(
        status::build_operation("issue-1", "in_progress")
            .expect("valid status")
            .variables,
        obj(vec![
            ("issueId", s("issue-1")),
            ("patch", obj(vec![("status", s("IN_PROGRESS"))])),
        ])
    );
}

#[test]
fn status_refuses_closing_states() {
    assert_eq!(
        status::build_operation("issue-1", "resolved").unwrap_err(),
        "invalid status 'RESOLVED'; valid values: OPEN, IN_PROGRESS"
    );
}

#[test]
fn checks_the_issue_type_against_the_reason() {
    let nodes = vec![
        obj(vec![("id", s("a")), ("type", s("THREAT_DETECTION"))]),
        obj(vec![("id", s("b")), ("type", s("CLOUD_CONFIGURATION"))]),
        obj(vec![("id", s("b")), ("type", s("TOXIC_COMBINATION"))]),
        obj(vec![("id", s("c"))]),
    ];
    assert_eq!(issue_type_of(&nodes, "a"), Some("THREAT_DETECTION".to_string()));
    assert_eq!(issue_type_of(&nodes, "b"), Some("TOXIC_COMBINATION".to_string()));
    assert_eq!(issue_type_of(&nodes, "c"), None);
    assert!(threat_reason("MALICIOUS_THREAT"));
    assert!(!threat_reason("WONT_FIX"));
    assert_eq!(check_issue_type(None, true), Some("issue was not found"));
    assert_eq!(
        check_issue_type(Some("CLOUD_CONFIGURATION"), true),
        Some("threat-only resolution reasons require a THREAT_DETECTION issue")
    );
    assert_eq!(
        check_issue_type(Some("THREAT_DETECTION"), false),
        Some("THREAT_DETECTION issues require a threat-only resolution reason")
    );
    assert_eq!(check_issue_type(Some("THREAT_DETECTION"), true), None);
    assert_eq!(check_issue_type(Some("TOXIC_COMBINATION"), false), None);
}

#[test]
fn batch_continues_after_a_failure_and_reports_it() {
    let mut batch = BatchResults::new();
    batch.record("a", "updateIssue", Ok(s("done")));
    batch.record("b", "updateIssue", Err("boom".to_string()));
    batch.record("c", "updateIssue", Ok(s("done")));
    let (results, outcome) = batch.finish("status");
    assert_eq!(outcome, Err("1 status operation(s) failed".to_string()));
    assert_eq!(
        results,
        arr(vec![
            obj(vec![
                ("id", s("a")),
                ("operation", s("updateIssue")),
                ("success", JsonValue::Bool(true)),
                ("response", s("done")),
            ]),
            obj(vec![
                ("id", s("b")),
                ("operation", s("updateIssue")),
                ("success", JsonValue::Bool(false)),
                ("error", s("boom")),
            ]),
            obj(vec![
                ("id", s("c")),
                ("operation", s("updateIssue")),
                ("success", JsonValue::Bool(true)),
                ("response", s("done")),
            ]),
        ])
    );
    let mut clean = BatchResults::new();
    clean.record("a", "createIssueNote", Ok(JsonValue::Null));
    assert_eq!(clean.finish("note").1, Ok(()));
}

#[test]
fn close_step_records_refusals_and_passes_the_rest() {
    let nodes = vec![
        obj(vec![("id", s("t1")), ("type", s("THREAT_DETECTION"))]),
        obj(vec![("id", s("c1")), ("type", s("CLOUD_CONFIGURATION"))]),
    ];
    let mut batch = BatchResults::new();
    assert!(check_close(&mut batch, &nodes, "t1", true));
    assert!(!check_close(&mut batch, &nodes, "c1", true));
    assert!(!check_close(&mut batch, &nodes, "gone", true));
    assert!(check_close(&mut batch, &nodes, "c1", false));
    let (results, outcome) = batch.finish("close");
    assert_eq!(outcome, Err("2 close operation(s) failed".to_string()));
    assert_eq!(
        results,
        arr(vec![
            obj(vec![
                ("id", s("c1")),
                ("operation", s("validateIssueType")),
                ("success", JsonValue::Bool(false)),
                ("error", s("threat-only resolution reasons require a THREAT_DETECTION issue")),
            ]),
            obj(vec![
                ("id", s("gone")),
                ("operation", s("validateIssueType")),
                ("success", JsonValue::Bool(false)),
                ("error", s("issue was not found")),
            ]),
        ])
    );
}
