use wiz_cli::commands::evidence::{EvidencePager, EvidenceStep};
use wiz_cli::commands::whoami::{
    build_identity, display_claim, extract_scopes, identity_text, jwt_payload, split_words,
};
use wiz_cli::json::JsonValue;

fn s(text: &str) -> JsonValue {
    JsonValue::Str(text.to_string())
}

fn n(text: &str) -> JsonValue {
    JsonValue::Number(text.to_string())
}

fn arr(items: Vec<JsonValue>) -> JsonValue {
    JsonValue::Array(items, None)
}

fn obj(entries: Vec<(&str, JsonValue)>) -> JsonValue {
    JsonValue::Object(
        entries.into_iter().map(|(k, v)| (k.to_string(), v)).collect(),
        None,
    )
}

#[test]
fn decodes_the_payload_segment() {
    assert_eq!(
        jwt_payload("header.eyJzdWIiOiJ4In0.signature"),
        Ok(b"{\"sub\":\"x\"}".to_vec())
    );
    assert_eq!(jwt_payload("header..signature"), Ok(Vec::new()));
    assert_eq!(
        jwt_payload("not-a-jwt"),
        Err("OAuth access token is not a JWT".to_string())
    );
    let error = jwt_payload("header.!!!.signature").expect_err("invalid base64");
    assert!(error.starts_with("failed to decode JWT payload: "));
    let padded = jwt_payload("header.eyJzdWIiOiJ4In0=.signature").expect_err("padding");
    assert!(padded.starts_with("failed to decode JWT payload: "));
}

#[test]
fn splits_scopes_on_white_space() {
    assert_eq!(
        split_words("  read:issues\twrite:x \n"),
        vec!["read:issues".to_string(), "write:x".to_string()]
    );
    assert_eq!(split_words("   "), Vec::<String>::new());
}

#[test]
fn extracts_scopes_from_either_claim() {
    let spaced = obj(vec![("scope", s("read:issues  write:x"))]);
    assert_eq!(
        extract_scopes(&spaced),
        vec!["read:issues".to_string(), "write:x".to_string()]
    );
    let listed = obj(vec![("scopes", arr(vec![s("a"), n("1"), s("b")]))]);
    assert_eq!(extract_scopes(&listed), vec!["a".to_string(), "b".to_string()]);
    let null_first = obj(vec![("scope", JsonValue::Null), ("scopes", arr(vec![s("a")]))]);
    assert_eq!(extract_scopes(&null_first), Vec::<String>::new());
    assert_eq!(extract_scopes(&obj(vec![])), Vec::<String>::new());
}

#[test]
fn identity_reports_expiry_and_time_left() {
    let claims = obj(vec![
        ("sub", s("svc-1")),
        ("exp", n("1700000000")),
        ("scope", s("read:issues")),
        ("isServiceAccount", JsonValue::Bool(true)),
    ]);
    let identity = build_identity(&claims, 1_699_999_000);
    assert_eq!(identity.get("subject"), Some(&s("svc-1")));
    assert_eq!(identity.get("email"), Some(&JsonValue::Null));
    assert_eq!(identity.get("expiresAt"), Some(&s("2023-11-14T22:13:20Z")));
    assert_eq!(identity.get("timeRemainingSeconds"), Some(&n("1000")));
    assert_eq!(identity.get("scopes"), Some(&arr(vec![s("read:issues")])));

    let text = identity_text(&identity);
    assert_eq!(
        text,
        "Subject: svc-1\nEmail: -\nService account: true\nTenant: -\nData center: -\nAudience: -\nIssuer: -\nExpires: 2023-11-14T22:13:20Z\nTime remaining: 1000 seconds\nScopes:\n  read:issues\n"
    );

    let bare = build_identity(&obj(vec![]), 0);
    assert_eq!(bare.get("expiresAt"), Some(&JsonValue::Null));
    assert_eq!(bare.get("timeRemainingSeconds"), Some(&JsonValue::Null));
    let text = identity_text(&bare);
    assert!(text.contains("Time remaining: -\n"));
    assert!(text.ends_with("Scopes:\n  (not listed in the token)\n  Wiz packs permissions into an opaque `encodedScopes` bitmask, so the granted\n  scopes cannot be decoded locally. Check them in the Wiz UI under the service\n  account, or probe a command and read the error.\n"));
}

#[test]
fn time_left_saturates() {
    let claims = obj(vec![("exp", n("-9223372036854775808"))]);
    let identity = build_identity(&claims, i64::MAX);
    assert_eq!(
        identity.get("timeRemainingSeconds"),
        Some(&n("-9223372036854775808"))
    );
}

#[test]
fn claims_display_as_text() {
    assert_eq!(display_claim(&JsonValue::Null), "-");
    assert_eq!(display_claim(&s("x")), "x");
    assert_eq!(display_claim(&JsonValue::Bool(false)), "false");
    assert_eq!(display_claim(&n("3")), "3");
}

fn evidence_page(nodes: Vec<JsonValue>, has_next: bool, cursor: Option<&str>, total: &str) -> JsonValue {
    let cursor = match cursor {
        Some(c) => s(c),
        None => JsonValue::Null,
    };
    obj(vec![(
        "data",
        obj(vec![(
            "issueEvidenceRecords",
            obj(vec![
                ("nodes", arr(nodes)),
                (
                    "pageInfo",
                    obj(vec![("hasNextPage", JsonValue::Bool(has_next)), ("endCursor", cursor)]),
                ),
                ("totalCount", n(total)),
            ]),
        )]),
    )])
}

#[test]
fn evidence_pages_follow_the_cursor() {
    let mut pager = EvidencePager::new("issue-1");
    match pager.step() {
        EvidenceStep::Request(v) => assert_eq!(
            v,
            obj(vec![
                ("filterBy", obj(vec![("issueId", s("issue-1"))])),
                ("first", n("500")),
            ])
        ),
        EvidenceStep::Done(_) => panic!("expected a request"),
    }
    pager
        .record_page(&evidence_page(vec![obj(vec![("id", s("e1"))])], true, Some("c1"), "2"))
        .expect("first page");
    match pager.step() {
        EvidenceStep::Request(v) => assert_eq!(v.get("after"), Some(&s("c1"))),
        EvidenceStep::Done(_) => panic!("expected a request"),
    }
    pager
        .record_page(&evidence_page(vec![obj(vec![("id", s("e2"))])], false, None, "9"))
        .expect("last page");
    match pager.step() {
        EvidenceStep::Done(v) => assert_eq!(
            v,
            obj(vec![
                (
                    "nodes",
                    arr(vec![obj(vec![("id", s("e1"))]), obj(vec![("id", s("e2"))])])
                ),
                (
                    "pageInfo",
                    obj(vec![("hasNextPage", JsonValue::Bool(false)), ("endCursor", JsonValue::Null)])
                ),
                ("totalCount", n("2")),
            ])
        ),
        EvidenceStep::Request(_) => panic!("expected the listing"),
    }
}

#[test]
fn evidence_refuses_malformed_pages() {
    let mut pager = EvidencePager::new("issue-1");
    assert_eq!(
        pager.record_page(&obj(vec![("data", obj(vec![]))])),
        Err("Wiz response is missing data.issueEvidenceRecords".to_string())
    );
    assert_eq!(
        pager.record_page(&evidence_page(vec![], true, None, "0")),
        Err("Wiz response has no endCursor for the next evidence page".to_string())
    );
}
