use wiz_cli::commands::issue_engine::{
    build_filters, build_variables, first_issue, issue_nodes, pin_threat_filter, relative_timestamp,
    IssueFilterArgs, IssuePager, PageStep, fetch_one_variables, fetch_types_variables,
};
use wiz_cli::json::JsonValue;

fn s(text: &str) -> JsonValue {
    JsonValue::Str(text.to_string())
}

fn n(text: &str) -> JsonValue {
    JsonValue::Number(text.to_string())
}

fn arr(items: Vec<JsonValue>) -> JsonValue {
    JsonValue::Array(items, None)
}

fn obj(entries: Vec<(&str, JsonValue)>) -> JsonValue {
    JsonValue::Object(
        entries.into_iter().map(|(k, v)| (k.to_string(), v)).collect(),
        None,
    )
}

fn lookup<'a>(entries: &'a [(String, JsonValue)], key: &str) -> Option<&'a JsonValue> {
    entries.iter().find(|(k, _)| k == key).map(|(_, v)| v)
}

fn strings(items: &[&str]) -> Option<Vec<String>> {
    Some(items.iter().map(|x| x.to_string()).collect())
}

#[test]
fn builds_uppercase_severity_filter() {
    let args = IssueFilterArgs {
        severity: strings(&["critical"]),
        ..Default::default()
    };
    let filters = build_filters(&args, 1_700_000_000).expect("valid filters");
    assert_eq!(lookup(&filters, "severity"), Some(&arr(vec![s("CRITICAL")])));
}

#[test]
fn builds_multi_element_repeated_and_comma_filter() {
    let args = IssueFilterArgs {
        status: strings(&["open", "IN_PROGRESS"]),
        ..Default::default()
    };
    let filters = build_filters(&args, 1_700_000_000).expect("valid filters");
    assert_eq!(
        lookup(&filters, "status"),
        Some(&arr(vec![s("OPEN"), s("IN_PROGRESS")]))
    );
}

#[test]
fn omits_unsupplied_filters() {
    let filters = build_filters(&IssueFilterArgs::default(), 1_700_000_000).expect("valid filters");
    assert!(lookup(&filters, "severity").is_none());
    assert!(lookup(&filters, "createdAt").is_none());
    assert!(lookup(&filters, "hasNote").is_none());
}

#[test]
fn invalid_enum_names_valid_values() {
    let args = IssueFilterArgs {
        severity: strings(&["urgent"]),
        ..Default::default()
    };
    let error = build_filters(&args, 1_700_000_000).expect_err("invalid severity");
    assert!(error.contains("valid values: INFORMATIONAL, LOW, MEDIUM, HIGH, CRITICAL"));
    assert_eq!(
        error,
        "invalid severity 'urgent'; valid values: INFORMATIONAL, LOW, MEDIUM, HIGH, CRITICAL"
    );
}

#[test]
fn threat_and_issue_variables_use_the_same_builder() {
    let args = IssueFilterArgs::default();
    let issue_filters = build_filters(&args, 1_700_000_000).expect("valid filters");
    let issue_variables = build_variables(issue_filters, 20, None, false).expect("variables");
    assert_eq!(
        issue_variables.get("fetchThreatDetectionDetails"),
        Some(&JsonValue::Bool(false))
    );
    assert!(issue_variables.get("filterBy").is_none());

    let threat_filters = pin_threat_filter(&args, 1_700_000_000).expect("threat filters");
    let threat_variables = build_variables(threat_filters, 20, None, true).expect("variables");
    assert_eq!(
        threat_variables.get("fetchThreatDetectionDetails"),
        Some(&JsonValue::Bool(true))
    );
    assert_eq!(
        threat_variables.get("filterBy").and_then(|f| f.get("type")),
        Some(&arr(vec![s("THREAT_DETECTION")]))
    );
}

#[test]
fn builds_every_kind_of_filter_in_order() {
    let args = IssueFilterArgs {
        id: strings(&["i1", "i2"]),
        search: Some("bucket".to_string()),
        project: strings(&[]),
        has_note: true,
        validated_as_exploitable: true,
        since: Some("1d".to_string()),
        created_before: Some("1h".to_string()),
        status_changed_since: Some("30m".to_string()),
        ..Default::default()
    };
    let filters = build_filters(&args, 1_700_000_000).expect("valid filters");
    let keys: Vec<&str> = filters.iter().map(|(k, _)| k.as_str()).collect();
    assert_eq!(
        keys,
        vec!["id", "search", "hasNote", "validatedAsExploitable", "createdAt", "statusChangedAt"]
    );
    assert_eq!(
        lookup(&filters, "createdAt"),
        Some(&obj(vec![
            ("after", s("2023-11-13T22:13:20Z")),
            ("before", s("2023-11-14T21:13:20Z")),
        ]))
    );
    assert_eq!(
        lookup(&filters, "statusChangedAt"),
        Some(&obj(vec![("after", s("2023-11-14T21:43:20Z"))]))
    );
    assert_eq!(lookup(&filters, "hasNote"), Some(&JsonValue::Bool(true)));
}

#[test]
fn reports_the_first_bad_duration() {
    let args = IssueFilterArgs {
        resolved_since: Some("soon".to_string()),
        ..Default::default()
    };
    assert_eq!(
        build_filters(&args, 1_700_000_000),
        Err("invalid duration 'soon'; use a positive value such as 30m, 12h, 7d, or 2w".to_string())
    );
    assert_eq!(
        relative_timestamp(-9_223_372_036_854_775_000, "2w"),
        Err("duration '2w' is too large".to_string())
    );
}

#[test]
fn threat_listing_refuses_a_type() {
    let args = IssueFilterArgs {
        issue_type: strings(&["cloud_configuration"]),
        ..Default::default()
    };
    assert_eq!(
        pin_threat_filter(&args, 0),
        Err("--type cannot be used with threats; type is fixed to THREAT_DETECTION".to_string())
    );
}

#[test]
fn variables_carry_order_cursor_and_count() {
    let filters = vec![("id".to_string(), arr(vec![s("a")]))];
    let variables = build_variables(filters, 7, Some("cursor-1"), false).expect("variables");
    assert_eq!(
        variables,
        obj(vec![
            ("first", n("7")),
            ("orderBy", obj(vec![("field", s("SEVERITY")), ("direction", s("DESC"))])),
            ("fetchThreatDetectionDetails", JsonValue::Bool(false)),
            ("filterBy", obj(vec![("id", arr(vec![s("a")]))])),
            ("after", s("cursor-1")),
        ])
    );
}

fn page(nodes: Vec<JsonValue>, has_next: bool, cursor: Option<&str>, total: i64) -> JsonValue {
    obj(vec![(
        "data",
        obj(vec![(
            "issues",
            obj(vec![
                ("nodes", arr(nodes)),
                (
                    "pageInfo",
                    obj(vec![
                        ("hasNextPage", JsonValue::Bool(has_next)),
                        ("endCursor", cursor.map(s).unwrap_or(JsonValue::Null)),
                    ]),
                ),
                ("totalCount", n(&total.to_string())),
            ]),
        )]),
    )])
}

fn requested_first(step: &PageStep) -> Option<String> {
    match step {
        PageStep::Request(v) => match v.get("first") {
            Some(JsonValue::Number(t)) => Some(t.clone()),
            _ => None,
        },
        PageStep::Done(_) => None,
    }
}

#[test]
fn pages_until_the_requested_number() {
    let mut pager = IssuePager::new(Vec::new(), 3, false, false);
    let step = pager.step().unwrap();
    assert_eq!(requested_first(&step), Some("3".to_string()));
    pager
        .record_page(&page(vec![s("n1"), s("n2")], true, Some("c1"), 10))
        .unwrap();
    let step = pager.step().unwrap();
    assert_eq!(requested_first(&step), Some("1".to_string()));
    match &step {
        PageStep::Request(v) => assert_eq!(v.get("after"), Some(&s("c1"))),
        PageStep::Done(_) => panic!("expected a request"),
    }
    pager.record_page(&page(vec![s("n3")], true, Some("c2"), 10)).unwrap();
    match pager.step().unwrap() {
        PageStep::Done(out) => {
            assert_eq!(out.get("nodes"), Some(&arr(vec![s("n1"), s("n2"), s("n3")])));
            assert_eq!(out.get("totalCount"), Some(&n("10")));
        }
        PageStep::Request(_) => panic!("expected the listing"),
    }
}

#[test]
fn pages_of_all_ask_for_five_hundred_and_stop_without_next_page() {
    let mut pager = IssuePager::new(Vec::new(), 20, true, true);
    let step = pager.step().unwrap();
    assert_eq!(requested_first(&step), Some("500".to_string()));
    pager.record_page(&page(vec![s("n1")], false, None, 1)).unwrap();
    assert!(matches!(pager.step().unwrap(), PageStep::Done(_)));
}

#[test]
fn zero_results_need_no_request() {
    let pager = IssuePager::new(Vec::new(), 0, false, false);
    match pager.step().unwrap() {
        PageStep::Done(out) => {
            assert_eq!(out.get("nodes"), Some(&arr(vec![])));
            assert_eq!(out.get("totalCount"), Some(&n("0")));
            assert_eq!(
                out.get("pageInfo"),
                Some(&obj(vec![
                    ("hasNextPage", JsonValue::Bool(false)),
                    ("endCursor", JsonValue::Null),
                ]))
            );
        }
        PageStep::Request(_) => panic!("expected the empty listing"),
    }
}

#[test]
fn malformed_pages_are_refused() {
    let mut pager = IssuePager::new(Vec::new(), 5, false, false);
    assert_eq!(
        pager.record_page(&obj(vec![("data", obj(vec![]))])),
        Err("Wiz response is missing data.issues".to_string())
    );
    assert_eq!(
        pager.record_page(&page(vec![s("n1")], true, None, 9)),
        Err("Wiz response has no endCursor for the next page".to_string())
    );
}

#[test]
fn fetches_one_issue_and_issue_types() {
    let vars = fetch_one_variables("issue-9", true).unwrap();
    assert_eq!(vars.get("first"), Some(&n("1")));
    assert_eq!(
        vars.get("filterBy"),
        Some(&obj(vec![("id", arr(vec![s("issue-9")]))]))
    );
    let response = page(vec![s("first"), s("second")], false, None, 2);
    assert_eq!(first_issue(&response, "issue-9"), Ok(s("first")));
    let empty = page(vec![], false, None, 0);
    assert_eq!(
        first_issue(&empty, "issue-9"),
        Err("issue 'issue-9' was not found".to_string())
    );
    let ids = vec!["a".to_string(), "b".to_string()];
    let vars = fetch_types_variables(&ids).unwrap();
    assert_eq!(vars.get("first"), Some(&n("2")));
    assert_eq!(issue_nodes(&response), Ok(vec![s("first"), s("second")]));
    assert_eq!(
        issue_nodes(&obj(vec![])),
        Err("Wiz response is missing data.issues.nodes".to_string())
    );
}

#[test]
fn all_ignores_the_requested_number() {
    let mut with_zero = IssuePager::new(Vec::new(), 0, true, false);
    let mut with_seven = IssuePager::new(Vec::new(), 7, true, false);
    let first_zero = with_zero.step().unwrap();
    let first_seven = with_seven.step().unwrap();
    assert_eq!(requested_first(&first_zero), Some("500".to_string()));
    assert_eq!(requested_first(&first_seven), Some("500".to_string()));
    let nodes: Vec<JsonValue> = (0..9).map(|i| s(&format!("n{i}"))).collect();
    let again: Vec<JsonValue> = (0..9).map(|i| s(&format!("n{i}"))).collect();
    with_zero.record_page(&page(nodes, true, Some("c1"), 20)).unwrap();
    with_seven.record_page(&page(again, true, Some("c1"), 20)).unwrap();
    match (with_zero.step().unwrap(), with_seven.step().unwrap()) {
        (PageStep::Request(a), PageStep::Request(b)) => assert_eq!(a, b),
        _ => panic!("both listings go on to the next page"),
    }
}

#[test]
fn every_filter_key_is_set_once() {
    let args = IssueFilterArgs {
        id: strings(&["i"]),
        search: Some("s".to_string()),
        severity: strings(&["low"]),
        status: strings(&["open"]),
        project: strings(&["p"]),
        resolution_reason: strings(&["wont_fix"]),
        assignee: strings(&["a"]),
        environment: strings(&["e"]),
        project_business_impact: strings(&["hbi"]),
        stack_layer: strings(&["code"]),
        cloud_account: strings(&["c"]),
        has_note: true,
        has_service_ticket: true,
        note_contains: Some("n".to_string()),
        validated_as_exploitable: true,
        threat_file_hash: Some("h".to_string()),
        threat_runtime_program_name: Some("r".to_string()),
        since: Some("1d".to_string()),
        created_before: Some("1h".to_string()),
        resolved_since: Some("2d".to_string()),
        resolved_before: Some("1d".to_string()),
        status_changed_since: Some("3d".to_string()),
        due_before: Some("1w".to_string()),
        due_since: Some("2w".to_string()),
        threat_last_grouped_since: Some("30m".to_string()),
        ..Default::default()
    };
    let filters = pin_threat_filter(&args, 1_700_000_000).expect("valid filters");
    let keys: Vec<&str> = filters.iter().map(|(k, _)| k.as_str()).collect();
    assert_eq!(keys.len(), 23);
    for (i, k) in keys.iter().enumerate() {
        assert!(!keys[i + 1..].contains(k), "key {k} repeats");
    }
    assert_eq!(lookup(&filters, "type"), Some(&arr(vec![s("THREAT_DETECTION")])));
}

#[test]
fn a_wide_duration_is_an_invalid_duration() {
    let args = IssueFilterArgs {
        since: Some("7é".to_string()),
        ..Default::default()
    };
    assert_eq!(
        build_filters(&args, 1_700_000_000),
        Err("invalid duration '7é'; use a positive value such as 30m, 12h, 7d, or 2w".to_string())
    );
    assert_eq!(
        pin_threat_filter(&args, 1_700_000_000),
        Err("invalid duration '7é'; use a positive value such as 30m, 12h, 7d, or 2w".to_string())
    );
}

#[test]
fn date_filters_hold_their_own_bounds() {
    let args = IssueFilterArgs {
        since: Some("1d".to_string()),
        due_before: Some("1h".to_string()),
        status_changed_since: Some("30m".to_string()),
        ..Default::default()
    };
    let filters = build_filters(&args, 1_700_000_000).expect("valid filters");
    assert_eq!(
        lookup(&filters, "createdAt"),
        Some(&obj(vec![("after", s("2023-11-13T22:13:20Z"))]))
    );
    assert_eq!(
        lookup(&filters, "dueAt"),
        Some(&obj(vec![("before", s("2023-11-14T21:13:20Z"))]))
    );
    assert_eq!(
        lookup(&filters, "statusChangedAt"),
        Some(&obj(vec![("after", s("2023-11-14T21:43:20Z"))]))
    );
    assert_eq!(lookup(&filters, "resolvedAt"), None);
    assert_eq!(lookup(&filters, "threatLastGroupedAt"), None);
}

#[test]
fn filters_fail_only_on_bad_input() {
    let late = IssueFilterArgs {
        since: Some("1m".to_string()),
        ..Default::default()
    };
    assert_eq!(
        build_filters(&late, i64::MIN + 30),
        Err("duration '1m' is too large".to_string())
    );
    assert!(build_filters(&late, i64::MIN + 60).is_ok());
    let bad_layer = IssueFilterArgs {
        stack_layer: strings(&["code", "nope"]),
        ..Default::default()
    };
    assert!(build_filters(&bad_layer, 0).is_err());
    let good = IssueFilterArgs {
        severity: strings(&["Low", "cRiTiCaL"]),
        due_before: Some("2w".to_string()),
        ..Default::default()
    };
    assert!(build_filters(&good, 0).is_ok());
}
