use wiz_cli::client::{
    form_encode, fresh_cached_token, graphql_result, http_outcome, token_expiry,
    token_request_body,
};
use wiz_cli::json::JsonValue;

fn s(text: &str) -> JsonValue {
    JsonValue::Str(text.to_string())
}

fn obj(entries: Vec<(&str, JsonValue)>) -> JsonValue {
    JsonValue::Object(
        entries.into_iter().map(|(k, v)| (k.to_string(), v)).collect(),
        None,
    )
}

#[test]
fn form_encodes_reserved_bytes() {
    assert_eq!(form_encode("a b&c"), "a+b%26c");
    assert_eq!(form_encode("AZaz09-_.~"), "AZaz09-_.~");
    assert_eq!(form_encode("é"), "%C3%A9");
    assert_eq!(form_encode("a/b=c+d"), "a%2Fb%3Dc%2Bd");
    assert_eq!(form_encode(""), "");
}

#[test]
fn token_request_names_the_audience() {
    assert_eq!(
        token_request_body("id-1", "s e&cret"),
        "grant_type=client_credentials&client_id=id-1&client_secret=s+e%26cret&audience=wiz-api"
    );
}

#[test]
fn cached_token_needs_a_minute_left() {
    assert_eq!(
        fresh_cached_token(1_000, 1_061, "tok".to_string()),
        Some("tok".to_string())
    );
    assert_eq!(fresh_cached_token(1_000, 1_060, "tok".to_string()), None);
    assert_eq!(fresh_cached_token(1_000, 900, "tok".to_string()), None);
    assert_eq!(fresh_cached_token(i64::MAX - 10, i64::MAX, "tok".to_string()), None);
}

#[test]
fn token_expiry_refuses_overflow() {
    assert_eq!(token_expiry(1_700_000_000, 3_600), Ok(1_700_003_600));
    assert_eq!(token_expiry(10, -20), Ok(-10));
    assert_eq!(
        token_expiry(i64::MAX, 1),
        Err("token expiry is too large".to_string())
    );
    assert_eq!(
        token_expiry(i64::MIN, -1),
        Err("token expiry is too large".to_string())
    );
}

#[test]
fn graphql_errors_are_joined() {
    let ok = || obj(vec![("data", obj(vec![("x", s("y"))]))]);
    assert_eq!(graphql_result(ok()), Ok(ok()));

    let empty = || obj(vec![("errors", JsonValue::Array(vec![], None)), ("data", JsonValue::Null)]);
    assert_eq!(graphql_result(empty()), Ok(empty()));

    let coded = JsonValue::Object(
        vec![("code".to_string(), JsonValue::Number("1".to_string()))],
        Some("{\"code\":1}".to_string()),
    );
    let failed = obj(vec![(
        "errors",
        JsonValue::Array(vec![obj(vec![("message", s("denied"))]), coded], None),
    )]);
    assert_eq!(
        graphql_result(failed),
        Err("GraphQL errors: denied; {\"code\":1}".to_string())
    );
}

#[test]
fn http_failures_name_the_status() {
    assert_eq!(http_outcome(200, "200 OK", "{}".to_string()), Ok("{}".to_string()));
    assert_eq!(http_outcome(299, "299 <unknown status code>", "b".to_string()), Ok("b".to_string()));
    assert_eq!(
        http_outcome(404, "404 Not Found", "missing".to_string()),
        Err("HTTP 404 Not Found: missing".to_string())
    );
    assert_eq!(
        http_outcome(199, "199 <unknown status code>", "".to_string()),
        Err("HTTP 199 <unknown status code>: ".to_string())
    );
}
