use vstd::prelude::*;
use vstd::string::*;

use crate::json::{json_as_array, json_as_str, json_get, json_text, lemma_values_view, values_view, compact_text, JsonValue, JsonView};
use crate::text::{append_str, join, push_char};

verus! {

/// Whether byte `b` stands for itself in a form-encoded value.
pub open spec fn is_unreserved(b: u8) -> bool {
    (65 <= b <= 90) || (97 <= b <= 122) || (48 <= b <= 57) || b == 45 || b == 95 || b == 46 || b == 126
}

/// An upper-case hex digit.
pub open spec fn hex_upper(d: int) -> char {
    if d < 10 {
        (48 + d) as char
    } else {
        (55 + d) as char
    }
}

/// One byte in `application/x-www-form-urlencoded` form: unreserved bytes as
/// they are, a space as `+`, any other byte as `%XX`.
pub open spec fn form_byte(b: u8) -> Seq<char> {
    if is_unreserved(b) {
        seq![b as char]
    } else if b == 32 {
        seq!['+']
    } else {
        seq!['%', hex_upper((b / 16) as int), hex_upper((b % 16) as int)]
    }
}

pub open spec fn form_encoded(bytes: Seq<u8>) -> Seq<char>
    decreases bytes.len(),
{
    if bytes.len() == 0 {
        Seq::empty()
    } else {
        form_encoded(bytes.drop_last()) + form_byte(bytes.last())
    }
}

fn hex_upper_char(d: u8) -> (c: char)
    requires
        d < 16,
    ensures
        c == hex_upper(d as int),
{
    if d < 10 {
        (48 + d) as char
    } else {
        (55 + d) as char
    }
}

/// The UTF-8 bytes of `input`, form-encoded.
pub fn form_encode(input: &str) -> (r: String)
    ensures
        r@ == form_encoded(input.spec_bytes()),
{
    let bytes = input.as_bytes();
    let mut out = String::new();
    let mut i: usize = 0;
    while i < bytes.len()
        invariant
            i <= bytes.len(),
            bytes@ == input.spec_bytes(),
            out@ == form_encoded(bytes@.take(i as int)),
        decreases bytes.len() - i,
    {
        let b = bytes[i];
        if (65 <= b && b <= 90) || (97 <= b && b <= 122) || (48 <= b && b <= 57) || b == 45 || b == 95
            || b == 46 || b == 126 {
            push_char(&mut out, b as char);
        } else if b == 32 {
            push_char(&mut out, '+');
        } else {
            push_char(&mut out, '%');
            push_char(&mut out, hex_upper_char(b / 16));
            push_char(&mut out, hex_upper_char(b % 16));
        }
        assert(bytes@.take(i + 1).drop_last() =~= bytes@.take(i as int));
        i = i + 1;
        assert(out@ =~= form_encoded(bytes@.take(i as int)));
    }
    assert(bytes@.take(bytes.len() as int) =~= bytes@);
    out
}

/// The body of the OAuth client-credentials request for the `wiz-api` audience.
pub open spec fn token_request_body_spec(client_id: Seq<char>, client_secret: Seq<char>) -> Seq<char> {
    "grant_type=client_credentials&client_id="@ + form_encoded(vstd::utf8::encode_utf8(client_id))
        + "&client_secret="@ + form_encoded(vstd::utf8::encode_utf8(client_secret))
        + "&audience=wiz-api"@
}

pub fn token_request_body(client_id: &str, client_secret: &str) -> (r: String)
    ensures
        r@ == token_request_body_spec(client_id@, client_secret@),
{
    let mut body = String::from_str("grant_type=client_credentials&client_id=");
    let id = form_encode(client_id);
    append_str(&mut body, id.as_str());
    append_str(&mut body, "&client_secret=");
    let secret = form_encode(client_secret);
    append_str(&mut body, secret.as_str());
    append_str(&mut body, "&audience=wiz-api");
    body
}

/// A cached token is reused only while more than 60 seconds of it are left.
pub open spec fn token_is_fresh(now: int, expires_at: int) -> bool {
    now + 60 <= i64::MAX && now + 60 < expires_at
}

/// The cached token when it is still fresh at `now`.
pub fn fresh_cached_token(now: i64, expires_at: i64, token: String) -> (r: Option<String>)
    ensures
        token_is_fresh(now as int, expires_at as int) ==> r == Some(token),
        !token_is_fresh(now as int, expires_at as int) ==> r is None,
{
    if now <= 9223372036854775807i64 - 60 && now + 60 < expires_at {
        Some(token)
    } else {
        None
    }
}

/// When a token issued at `now` and valid for `expires_in` seconds expires.
pub fn token_expiry(now: i64, expires_in: i64) -> (r: Result<i64, String>)
    ensures
        i64::MIN <= now + expires_in <= i64::MAX ==> r == Ok::<i64, String>((now + expires_in) as i64),
        !(i64::MIN <= now + expires_in <= i64::MAX) ==> (r matches Err(msg) && msg@
            == "token expiry is too large"@),
{
    if (expires_in > 0 && now > 9223372036854775807i64 - expires_in) || (expires_in < 0 && now < -9223372036854775808i64 - expires_in) {
        Err(String::from_str("token expiry is too large"))
    } else {
        Ok(now + expires_in)
    }
}

/// The message of one GraphQL error: its `message` when that is a string,
/// else its JSON text.
pub open spec fn error_message(e: JsonView) -> Seq<char> {
    match json_as_str(json_get(e, "message"@)) {
        Some(m) => m,
        None => json_text(e),
    }
}

pub open spec fn error_messages(es: Seq<JsonView>) -> Seq<Seq<char>> {
    es.map_values(|e: JsonView| error_message(e))
}

/// A GraphQL response: refused with every error message when it reports a
/// non-empty `errors` array, else the response itself.
pub open spec fn graphql_result_spec(response: JsonView) -> Result<JsonView, Seq<char>> {
    match json_as_array(json_get(response, "errors"@)) {
        Some(es) => if es.len() > 0 {
            Err("GraphQL errors: "@ + join(error_messages(es), "; "@))
        } else {
            Ok(response)
        },
        None => Ok(response),
    }
}

pub fn graphql_result(response: JsonValue) -> (r: Result<JsonValue, String>)
    ensures
        match graphql_result_spec(response@) {
            Ok(v) => (r matches Ok(x) && x@ == v),
            Err(m) => (r matches Err(msg) && msg@ == m),
        },
{
    let mut msg = String::from_str("GraphQL errors: ");
    let mut failed = false;
    if let Some(errors) = response.get("errors") {
        if let Some(es) = errors.as_array() {
            if es.len() > 0 {
                proof {
                    lemma_values_view(es@);
                }
                let ghost ev = values_view(es@);
                let ghost start = msg@;
                let mut i: usize = 0;
                while i < es.len()
                    invariant
                        i <= es.len(),
                        ev == values_view(es@),
                        ev.len() == es.len(),
                        forall|j: int| 0 <= j < es.len() ==> ev[j] == #[trigger] es@[j]@,
                        msg@ == start + join(error_messages(ev).take(i as int), "; "@),
                    decreases es.len() - i,
                {
                    let e = &es[i];
                    let text = match e.get("message") {
                        Some(m) => match m.as_str() {
                            Some(s) => String::from_str(s),
                            None => compact_text(e),
                        },
                        None => compact_text(e),
                    };
                    let ghost t = error_messages(ev).take(i + 1);
                    assert(t.drop_last() =~= error_messages(ev).take(i as int));
                    assert(t.last() == text@);
                    if i > 0 {
                        append_str(&mut msg, "; ");
                    } else {
                        assert(t =~= seq![text@]);
                    }
                    append_str(&mut msg, text.as_str());
                    i = i + 1;
                    assert(msg@ =~= start + join(error_messages(ev).take(i as int), "; "@));
                }
                assert(error_messages(ev).take(es.len() as int) =~= error_messages(ev));
                failed = true;
            }
        }
    }
    if failed {
        Err(msg)
    } else {
        Ok(response)
    }
}

} // verus!

verus! {

/// The value of a hex digit (either case), if it is one.
pub open spec fn hex_value(c: char) -> Option<int> {
    if '0' <= c <= '9' {
        Some(c as int - 48)
    } else if 'A' <= c <= 'F' {
        Some(c as int - 55)
    } else if 'a' <= c <= 'f' {
        Some(c as int - 87)
    } else {
        None
    }
}

/// Form decoding: `+` is a space, `%XX` a byte, an unreserved character
/// itself; anything else is refused.
pub open spec fn form_decoded(cs: Seq<char>) -> Option<Seq<u8>>
    decreases cs.len(),
{
    if cs.len() == 0 {
        Some(Seq::empty())
    } else {
        let c = cs[0];
        if c == '+' {
            match form_decoded(cs.drop_first()) {
                Some(rest) => Some(seq![32u8] + rest),
                None => None,
            }
        } else if c == '%' && cs.len() >= 3 && hex_value(cs[1]) is Some && hex_value(cs[2]) is Some {
            match form_decoded(cs.skip(3)) {
                Some(rest) => Some(
                    seq![(hex_value(cs[1]).unwrap() * 16 + hex_value(cs[2]).unwrap()) as u8] + rest,
                ),
                None => None,
            }
        } else if (c as u32) < 128 && is_unreserved(c as u8) {
            match form_decoded(cs.drop_first()) {
                Some(rest) => Some(seq![c as u8] + rest),
                None => None,
            }
        } else {
            None
        }
    }
}

proof fn lemma_form_encoded_append(a: Seq<u8>, b: Seq<u8>)
    ensures
        form_encoded(a + b) == form_encoded(a) + form_encoded(b),
    decreases b.len(),
{
    if b.len() == 0 {
        assert(a + b =~= a);
        assert(form_encoded(a) + form_encoded(b) =~= form_encoded(a));
    } else {
        lemma_form_encoded_append(a, b.drop_last());
        assert((a + b).drop_last() =~= a + b.drop_last());
        assert((a + b).last() == b.last());
        assert(form_encoded(a + b) =~= form_encoded(a) + form_encoded(b));
    }
}

/// Form encoding loses nothing: decoding what `form_encode` writes gives
/// back every byte of the input, so a client secret reaches the token
/// endpoint exactly as given.
pub proof fn lemma_form_round_trip(bytes: Seq<u8>)
    ensures
        form_decoded(form_encoded(bytes)) == Some(bytes),
    decreases bytes.len(),
{
    if bytes.len() > 0 {
        let x = bytes[0];
        let rest = bytes.drop_first();
        lemma_form_round_trip(rest);
        assert(bytes =~= seq![x] + rest);
        lemma_form_encoded_append(seq![x], rest);
        assert(form_encoded(seq![x]) =~= form_byte(x)) by {
            assert(seq![x].drop_last() =~= Seq::<u8>::empty());
            assert(form_encoded(seq![x].drop_last()) =~= Seq::<char>::empty());
            assert(seq![x].last() == x);
        }
        let enc = form_byte(x) + form_encoded(rest);
        if is_unreserved(x) {
            assert(enc[0] == x as char);
            assert(enc.drop_first() =~= form_encoded(rest));
            assert((x as char) as u8 == x);
        } else if x == 32 {
            assert(enc.drop_first() =~= form_encoded(rest));
        } else {
            let hi = (x / 16) as int;
            let lo = (x % 16) as int;
            assert(hex_value(hex_upper(hi)) == Some(hi));
            assert(hex_value(hex_upper(lo)) == Some(lo));
            assert(enc.skip(3) =~= form_encoded(rest));
            assert((hi * 16 + lo) as u8 == x);
        }
        assert(seq![x] + rest =~= bytes);
    } else {
        assert(form_encoded(bytes) =~= Seq::<char>::empty());
    }
}

} // verus!

verus! {

/// Whether an HTTP status code reports success (`2xx`).
pub open spec fn is_success_code(code: u16) -> bool {
    200 <= code <= 299
}

/// What an HTTP exchange gives: the body of a successful response, or the
/// error that names the status (`status_text`, as "404 Not Found") and
/// carries the body.
pub fn http_outcome(code: u16, status_text: &str, body: String) -> (r: Result<String, String>)
    ensures
        is_success_code(code) ==> r == Ok::<String, String>(body),
        !is_success_code(code) ==> (r matches Err(msg) && msg@ == "HTTP "@ + status_text@ + ": "@
            + body@),
{
    if 200 <= code && code <= 299 {
        Ok(body)
    } else {
        let mut msg = String::from_str("HTTP ");
        append_str(&mut msg, status_text);
        append_str(&mut msg, ": ");
        append_str(&mut msg, body.as_str());
        Err(msg)
    }
}

} // verus!
