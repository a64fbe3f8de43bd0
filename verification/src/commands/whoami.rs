use base64::engine::general_purpose::URL_SAFE_NO_PAD;
use base64::{DecodeError, Engine};
use vstd::prelude::*;
use vstd::string::*;

use crate::commands::issue_engine::{keys_distinct, lemma_get_at, push_entry};
use crate::ids::{keep_nonempty, nonempty, split_on, strings_view};
use crate::json::{
    clone_json, compact_text, entries_view, json_as_array, json_as_i64, json_as_str, json_get,
    json_text, lemma_values_view, values_view, JsonValue, JsonView,
};
use crate::text::{
    append_str, chars_of, char_is_space, int_text, int_to_string, is_space, string_from_range,
};
use crate::time::{format_timestamp, timestamp_text};

verus! {

#[verifier::external_type_specification]
#[verifier::external_body]
pub struct ExDecodeError(DecodeError);

/// What `URL_SAFE_NO_PAD.decode` gives for the text `input`: the bytes it
/// encodes, or `None` where it refuses the input.
pub uninterp spec fn url_safe_no_pad_decoded(input: Seq<char>) -> Option<Seq<u8>>;

/// base64's `URL_SAFE_NO_PAD.decode` (URL-safe alphabet, no padding). Its
/// result is a function of the input text alone; what it is, is left to the
/// name.
#[verifier::external_body]
fn decode_url_safe_no_pad(input: &str) -> (r: Result<Vec<u8>, DecodeError>)
    ensures
        match r {
            Ok(v) => url_safe_no_pad_decoded(input@) == Some(v@),
            Err(_) => url_safe_no_pad_decoded(input@) is None,
        },
{
    URL_SAFE_NO_PAD.decode(input)
}

/// The text of a decode error (its `Display`); not stated.
#[verifier::external_body]
fn decode_error_text(e: &DecodeError) -> String {
    e.to_string()
}

/// The index of the first `c` in `s`, or `s.len()`.
pub open spec fn index_of(s: Seq<char>, c: char) -> int
    decreases s.len(),
{
    if s.len() == 0 {
        0
    } else if s[0] == c {
        0
    } else {
        1 + index_of(s.drop_first(), c)
    }
}

/// The second `.`-separated segment of a token (`split('.').nth(1)`).
pub open spec fn second_segment(s: Seq<char>) -> Option<Seq<char>> {
    let i = index_of(s, '.');
    if i >= s.len() {
        None
    } else {
        let rest = s.skip(i + 1);
        Some(rest.take(index_of(rest, '.')))
    }
}

proof fn lemma_index_of(s: Seq<char>, c: char)
    ensures
        0 <= index_of(s, c) <= s.len(),
        forall|k: int| 0 <= k < index_of(s, c) ==> s[k] != c,
        index_of(s, c) < s.len() ==> s[index_of(s, c)] == c,
    decreases s.len(),
{
    if s.len() > 0 && s[0] != c {
        lemma_index_of(s.drop_first(), c);
        assert forall|k: int| 0 <= k < index_of(s, c) implies s[k] != c by {
            if k > 0 {
                assert(s[k] == s.drop_first()[k - 1]);
            }
        }
    }
}

proof fn lemma_index_of_unique(s: Seq<char>, c: char, i: int)
    requires
        0 <= i <= s.len(),
        forall|k: int| 0 <= k < i ==> s[k] != c,
        i < s.len() ==> s[i] == c,
    ensures
        index_of(s, c) == i,
    decreases s.len(),
{
    if s.len() > 0 && s[0] != c {
        assert forall|k: int| 0 <= k < i - 1 implies s.drop_first()[k] != c by {
            assert(s.drop_first()[k] == s[k + 1]);
        }
        if i - 1 < s.drop_first().len() {
            assert(s.drop_first()[i - 1] == s[i]);
        }
        lemma_index_of_unique(s.drop_first(), c, i - 1);
    }
}

/// The claims of a token before their JSON is read: the
/// decoded bytes of the token's payload segment, or why there are none.
pub open spec fn jwt_payload_spec(token: Seq<char>) -> Result<Seq<u8>, Option<Seq<char>>> {
    match second_segment(token) {
        None => Err(Some("OAuth access token is not a JWT"@)),
        Some(p) => match url_safe_no_pad_decoded(p) {
            Some(bytes) => Ok(bytes),
            None => Err(None),
        },
    }
}

/// The decoded payload segment of a JWT access token.
pub fn jwt_payload(token: &str) -> (r: Result<Vec<u8>, String>)
    ensures
        match jwt_payload_spec(token@) {
            Ok(b) => (r matches Ok(v) && v@ == b),
            Err(Some(m)) => (r matches Err(msg) && msg@ == m),
            Err(None) => (r matches Err(msg) && msg@.len() >= "failed to decode JWT payload: "@.len()
                && msg@.take("failed to decode JWT payload: "@.len() as int)
                == "failed to decode JWT payload: "@),
        },
{
    let chars = chars_of(token);
    let n = chars.len();
    let mut i: usize = 0;
    while i < n && chars[i] != '.'
        invariant
            i <= n,
            n == chars.len(),
            chars@ == token@,
            forall|k: int| 0 <= k < i ==> chars@[k] != '.',
        decreases n - i,
    {
        i = i + 1;
    }
    proof {
        lemma_index_of_unique(token@, '.', i as int);
    }
    if i >= n {
        return Err(String::from_str("OAuth access token is not a JWT"));
    }
    let start = i + 1;
    let mut j: usize = start;
    while j < n && chars[j] != '.'
        invariant
            start <= j <= n,
            n == chars.len(),
            chars@ == token@,
            forall|k: int| start <= k < j ==> chars@[k] != '.',
        decreases n - j,
    {
        j = j + 1;
    }
    proof {
        let rest = token@.skip(start as int);
        assert forall|k: int| 0 <= k < j - start implies rest[k] != '.' by {
            assert(rest[k] == chars@[start + k]);
        }
        if j < n {
            assert(rest[j - start] == chars@[j as int]);
        }
        lemma_index_of_unique(rest, '.', j - start);
        assert(rest.take(j - start) =~= chars@.subrange(start as int, j as int));
    }
    let payload = string_from_range(&chars, start, j);
    match decode_url_safe_no_pad(payload.as_str()) {
        Ok(bytes) => Ok(bytes),
        Err(e) => {
            let mut msg = String::from_str("failed to decode JWT payload: ");
            let text = decode_error_text(&e);
            let ghost prefix = msg@;
            append_str(&mut msg, text.as_str());
            assert(msg@.take(prefix.len() as int) =~= prefix);
            Err(msg)
        },
    }
}

} // verus!

verus! {

/// The words of `s` (`str::split_whitespace`).
pub open spec fn words(s: Seq<char>) -> Seq<Seq<char>> {
    keep_nonempty(split_on(s, |c: char| is_space(c)))
}

proof fn lemma_keep_push(done: Seq<Seq<char>>, p: Seq<char>)
    ensures
        keep_nonempty(done.push(p)) == (if nonempty(p) {
            keep_nonempty(done).push(p)
        } else {
            keep_nonempty(done)
        }),
{
    reveal(Seq::filter);
    assert(done.push(p).drop_last() =~= done);
}

/// The words of `s`.
pub fn split_words(s: &str) -> (r: Vec<String>)
    ensures
        strings_view(r@) == words(s@),
{
    let chars = chars_of(s);
    let n = chars.len();
    let mut out: Vec<String> = Vec::new();
    let mut start: usize = 0;
    let mut k: usize = 0;
    let ghost mut done: Seq<Seq<char>> = Seq::empty();
    proof {
        assert(s@.take(0) =~= Seq::<char>::empty());
        assert(chars@.subrange(0, 0) =~= Seq::<char>::empty());
        assert(done.push(Seq::<char>::empty()) =~= seq![Seq::<char>::empty()]);
        assert(strings_view(out@) =~= Seq::<Seq<char>>::empty());
        assert(keep_nonempty(done) =~= Seq::<Seq<char>>::empty()) by {
            reveal(Seq::filter);
        }
    }
    while k < n
        invariant
            chars@ == s@,
            n == chars.len(),
            start <= k <= n,
            split_on(s@.take(k as int), |c: char| is_space(c)) == done.push(
                chars@.subrange(start as int, k as int),
            ),
            strings_view(out@) == keep_nonempty(done),
        decreases n - k,
    {
        let c = chars[k];
        proof {
            assert(s@.take(k + 1).drop_last() =~= s@.take(k as int));
            assert(s@.take(k + 1).last() == c);
        }
        if char_is_space(c) {
            let ghost piece = chars@.subrange(start as int, k as int);
            proof {
                lemma_keep_push(done, piece);
            }
            if start < k {
                let w = string_from_range(&chars, start, k);
                let ghost before = out@;
                out.push(w);
                proof {
                    assert(out@.drop_last() =~= before);
                    assert(strings_view(out@) =~= strings_view(before).push(w@));
                }
            }
            proof {
                done = done.push(piece);
                assert(chars@.subrange((k + 1) as int, (k + 1) as int) =~= Seq::<char>::empty());
            }
            start = k + 1;
        } else {
            proof {
                assert(chars@.subrange(start as int, (k + 1) as int) =~= chars@.subrange(
                    start as int,
                    k as int,
                ).push(c));
                assert(done.push(chars@.subrange(start as int, k as int)).update(
                    done.len() as int,
                    chars@.subrange(start as int, (k + 1) as int),
                ) =~= done.push(chars@.subrange(start as int, (k + 1) as int)));
            }
        }
        k = k + 1;
    }
    let ghost piece = chars@.subrange(start as int, n as int);
    proof {
        lemma_keep_push(done, piece);
        assert(s@.take(n as int) =~= s@);
    }
    if start < n {
        let w = string_from_range(&chars, start, n);
        let ghost before = out@;
        out.push(w);
        proof {
            assert(out@.drop_last() =~= before);
            assert(strings_view(out@) =~= strings_view(before).push(w@));
        }
    }
    out
}

/// The strings of an array, in order, other items left out.
pub open spec fn array_strings(items: Seq<JsonView>) -> Seq<Seq<char>>
    decreases items.len(),
{
    if items.len() == 0 {
        Seq::empty()
    } else {
        let prev = array_strings(items.drop_last());
        match items.last() {
            JsonView::Str(s) => prev.push(s),
            _ => prev,
        }
    }
}

/// The scopes a token lists: its `scope` claim (else `scopes`) split into
/// words when a string, its strings when an array, none otherwise.
pub open spec fn scopes_spec(claims: JsonView) -> Seq<Seq<char>> {
    let v = match json_get(claims, "scope"@) {
        Some(x) => Some(x),
        None => json_get(claims, "scopes"@),
    };
    match v {
        Some(JsonView::Str(s)) => words(s),
        Some(JsonView::Array(items, _)) => array_strings(items),
        _ => Seq::empty(),
    }
}

pub fn extract_scopes(claims: &JsonValue) -> (r: Vec<String>)
    ensures
        strings_view(r@) == scopes_spec(claims@),
{
    let v = match claims.get("scope") {
        Some(x) => Some(x),
        None => claims.get("scopes"),
    };
    match v {
        Some(JsonValue::Str(s)) => split_words(s.as_str()),
        Some(JsonValue::Array(items, t)) => {
            proof {
                lemma_values_view(items@);
            }
            let ghost iv = values_view(items@);
            let mut out: Vec<String> = Vec::new();
            assert(strings_view(out@) =~= Seq::<Seq<char>>::empty());
            let mut i: usize = 0;
            while i < items.len()
                invariant
                    i <= items.len(),
                    iv == values_view(items@),
                    iv.len() == items.len(),
                    forall|j: int| 0 <= j < items.len() ==> iv[j] == #[trigger] items@[j]@,
                    strings_view(out@) == array_strings(iv.take(i as int)),
                decreases items.len() - i,
            {
                assert(iv.take(i + 1).drop_last() =~= iv.take(i as int));
                assert(iv.take(i + 1).last() == items@[i as int]@);
                if let JsonValue::Str(s) = &items[i] {
                    let ghost before = out@;
                    out.push(s.clone());
                    assert(out@.drop_last() =~= before);
                    assert(strings_view(out@) =~= strings_view(before).push(s@));
                }
                i = i + 1;
            }
            assert(iv.take(items.len() as int) =~= iv);
            out
        },
        _ => {
            let out: Vec<String> = Vec::new();
            assert(strings_view(out@) =~= Seq::<Seq<char>>::empty());
            out
        },
    }
}

} // verus!

verus! {

/// `v[key]`: the member, or null.
pub open spec fn member_or_null(v: JsonView, key: Seq<char>) -> JsonView {
    match json_get(v, key) {
        Some(x) => x,
        None => JsonView::Null,
    }
}

pub open spec fn saturating_sub_i64(a: int, b: int) -> int {
    if a - b > i64::MAX {
        i64::MAX as int
    } else if a - b < i64::MIN {
        i64::MIN as int
    } else {
        a - b
    }
}

pub open spec fn str_values(items: Seq<Seq<char>>) -> JsonView {
    JsonView::Array(items.map_values(|s: Seq<char>| JsonView::Str(s)), None)
}

/// The identity that `whoami` reports from a token's claims at time `now`.
pub open spec fn identity_spec(claims: JsonView, now: int) -> JsonView {
    let exp = json_as_i64(json_get(claims, "exp"@));
    JsonView::Object(
        seq![
            ("subject"@, member_or_null(claims, "sub"@)),
            ("email"@, member_or_null(claims, "email"@)),
            ("isServiceAccount"@, member_or_null(claims, "isServiceAccount"@)),
            ("tenant"@, member_or_null(claims, "tsn"@)),
            ("tenantId"@, member_or_null(claims, "tid"@)),
            ("dataCenter"@, member_or_null(claims, "dc"@)),
            ("scopes"@, str_values(scopes_spec(claims))),
            ("encodedScopes"@, member_or_null(claims, "encodedScopes"@)),
            ("audience"@, member_or_null(claims, "aud"@)),
            ("issuer"@, member_or_null(claims, "iss"@)),
            (
                "expiresAt"@,
                match exp {
                    Some(e) => JsonView::Str(timestamp_text(e)),
                    None => JsonView::Null,
                },
            ),
            (
                "timeRemainingSeconds"@,
                match exp {
                    Some(e) => JsonView::Number(int_text(saturating_sub_i64(e, now))),
                    None => JsonView::Null,
                },
            ),
        ],
        None,
    )
}

fn member_or_null_value(v: &JsonValue, key: &str) -> (r: JsonValue)
    ensures
        r@ == member_or_null(v@, key@),
{
    match v.get(key) {
        Some(x) => clone_json(x),
        None => JsonValue::Null,
    }
}

fn saturating_sub(a: i64, b: i64) -> (r: i64)
    ensures
        r == saturating_sub_i64(a as int, b as int),
{
    let d: i128 = (a as i128) - (b as i128);
    if d > 9223372036854775807i128 {
        9223372036854775807i64
    } else if d < -9223372036854775808i128 {
        -9223372036854775808i64
    } else {
        d as i64
    }
}

/// The identity that `whoami` reports.
#[verifier::rlimit(60)]
pub fn build_identity(claims: &JsonValue, now: i64) -> (r: JsonValue)
    ensures
        r@ == identity_spec(claims@, now as int),
{
    let expiry: Option<i64> = match claims.get("exp") {
        Some(e) => e.as_i64(),
        None => None,
    };
    let scopes = extract_scopes(claims);
    let mut e: Vec<(String, JsonValue)> = Vec::new();
    assert(entries_view(e@) =~= Seq::<(Seq<char>, JsonView)>::empty());
    push_entry(&mut e, "subject", member_or_null_value(claims, "sub"));
    push_entry(&mut e, "email", member_or_null_value(claims, "email"));
    push_entry(&mut e, "isServiceAccount", member_or_null_value(claims, "isServiceAccount"));
    push_entry(&mut e, "tenant", member_or_null_value(claims, "tsn"));
    push_entry(&mut e, "tenantId", member_or_null_value(claims, "tid"));
    push_entry(&mut e, "dataCenter", member_or_null_value(claims, "dc"));
    let scope_values = crate::commands::issue_engine::string_array(&scopes);
    push_entry(&mut e, "scopes", scope_values);
    push_entry(&mut e, "encodedScopes", member_or_null_value(claims, "encodedScopes"));
    push_entry(&mut e, "audience", member_or_null_value(claims, "aud"));
    push_entry(&mut e, "issuer", member_or_null_value(claims, "iss"));
    let expires_at = match expiry {
        Some(x) => JsonValue::Str(format_timestamp(x)),
        None => JsonValue::Null,
    };
    push_entry(&mut e, "expiresAt", expires_at);
    let remaining = match expiry {
        Some(x) => JsonValue::Number(int_to_string(saturating_sub(x, now))),
        None => JsonValue::Null,
    };
    push_entry(&mut e, "timeRemainingSeconds", remaining);
    let ghost expected = identity_spec(claims@, now as int);
    assert(entries_view(e@) =~= expected->Object_0);
    JsonValue::object(e)
}

/// How a claim reads in the human report: `-` for null, a string as it
/// is, anything else as its JSON text.
pub open spec fn display_claim_spec(v: JsonView) -> Seq<char> {
    match v {
        JsonView::Null => "-"@,
        JsonView::Str(s) => s,
        _ => json_text(v),
    }
}

pub fn display_claim(value: &JsonValue) -> (r: String)
    ensures
        r@ == display_claim_spec(value@),
{
    match value {
        JsonValue::Null => String::from_str("-"),
        JsonValue::Str(s) => s.clone(),
        _ => compact_text(value),
    }
}

pub open spec fn claim_line(label: Seq<char>, identity: JsonView, key: Seq<char>) -> Seq<char> {
    label + display_claim_spec(member_or_null(identity, key)) + "\n"@
}

pub open spec fn scope_lines(scopes: Seq<JsonView>) -> Seq<char>
    decreases scopes.len(),
{
    if scopes.len() == 0 {
        Seq::empty()
    } else {
        scope_lines(scopes.drop_last()) + "  "@ + display_claim_spec(scopes.last()) + "\n"@
    }
}

pub open spec fn no_scopes_note() -> Seq<char> {
    "  (not listed in the token)\n"@
        + "  Wiz packs permissions into an opaque `encodedScopes` bitmask, so the granted\n"@
        + "  scopes cannot be decoded locally. Check them in the Wiz UI under the service\n"@
        + "  account, or probe a command and read the error.\n"@
}

/// The human `whoami` report of an identity.
pub open spec fn identity_text_spec(identity: JsonView) -> Seq<char> {
    claim_line("Subject: "@, identity, "subject"@) + claim_line("Email: "@, identity, "email"@)
        + claim_line("Service account: "@, identity, "isServiceAccount"@) + claim_line(
        "Tenant: "@,
        identity,
        "tenant"@,
    ) + claim_line("Data center: "@, identity, "dataCenter"@) + claim_line(
        "Audience: "@,
        identity,
        "audience"@,
    ) + claim_line("Issuer: "@, identity, "issuer"@) + claim_line(
        "Expires: "@,
        identity,
        "expiresAt"@,
    ) + "Time remaining: "@ + (match json_as_i64(json_get(identity, "timeRemainingSeconds"@)) {
        Some(n) => int_text(n) + " seconds"@,
        None => "-"@,
    }) + "\n"@ + "Scopes:\n"@ + (match json_as_array(json_get(identity, "scopes"@)) {
        Some(scopes) => if scopes.len() > 0 {
            scope_lines(scopes)
        } else {
            no_scopes_note()
        },
        None => no_scopes_note(),
    })
}

fn push_claim_line(out: &mut String, label: &str, identity: &JsonValue, key: &str)
    ensures
        final(out)@ == old(out)@ + claim_line(label@, identity@, key@),
{
    append_str(out, label);
    let v = member_or_null_value(identity, key);
    let d = display_claim(&v);
    append_str(out, d.as_str());
    append_str(out, "\n");
    assert(final(out)@ =~= old(out)@ + claim_line(label@, identity@, key@));
}

fn push_no_scopes_note(out: &mut String)
    ensures
        final(out)@ == old(out)@ + no_scopes_note(),
{
    append_str(out, "  (not listed in the token)\n");
    append_str(out, "  Wiz packs permissions into an opaque `encodedScopes` bitmask, so the granted\n");
    append_str(out, "  scopes cannot be decoded locally. Check them in the Wiz UI under the service\n");
    append_str(out, "  account, or probe a command and read the error.\n");
    assert(final(out)@ =~= old(out)@ + no_scopes_note());
}

/// The human `whoami` report: one labelled line per claim, then the scopes.
#[verifier::rlimit(60)]
pub fn identity_text(identity: &JsonValue) -> (r: String)
    ensures
        r@ == identity_text_spec(identity@),
{
    let mut out = String::new();
    push_claim_line(&mut out, "Subject: ", identity, "subject");
    push_claim_line(&mut out, "Email: ", identity, "email");
    push_claim_line(&mut out, "Service account: ", identity, "isServiceAccount");
    push_claim_line(&mut out, "Tenant: ", identity, "tenant");
    push_claim_line(&mut out, "Data center: ", identity, "dataCenter");
    push_claim_line(&mut out, "Audience: ", identity, "audience");
    push_claim_line(&mut out, "Issuer: ", identity, "issuer");
    push_claim_line(&mut out, "Expires: ", identity, "expiresAt");
    let ghost claims_part = out@;
    append_str(&mut out, "Time remaining: ");
    let remaining: Option<i64> = match identity.get("timeRemainingSeconds") {
        Some(v) => v.as_i64(),
        None => None,
    };
    match remaining {
        Some(n) => {
            let t = int_to_string(n);
            append_str(&mut out, t.as_str());
            append_str(&mut out, " seconds");
        },
        None => {
            append_str(&mut out, "-");
        },
    }
    append_str(&mut out, "\n");
    append_str(&mut out, "Scopes:\n");
    let ghost before_scopes = out@;
    let scopes: Option<&Vec<JsonValue>> = match identity.get("scopes") {
        Some(v) => v.as_array(),
        None => None,
    };
    match scopes {
        Some(list) => {
            if list.len() > 0 {
                proof {
                    lemma_values_view(list@);
                }
                let ghost lv = values_view(list@);
                let mut i: usize = 0;
                assert(lv.take(0) =~= Seq::<JsonView>::empty());
                while i < list.len()
                    invariant
                        i <= list.len(),
                        lv == values_view(list@),
                        lv.len() == list.len(),
                        forall|j: int| 0 <= j < list.len() ==> lv[j] == #[trigger] list@[j]@,
                        out@ == before_scopes + scope_lines(lv.take(i as int)),
                    decreases list.len() - i,
                {
                    append_str(&mut out, "  ");
                    let d = display_claim(&list[i]);
                    append_str(&mut out, d.as_str());
                    append_str(&mut out, "\n");
                    assert(lv.take(i + 1).drop_last() =~= lv.take(i as int));
                    i = i + 1;
                    assert(out@ =~= before_scopes + scope_lines(lv.take(i as int)));
                }
                assert(lv.take(list.len() as int) =~= lv);
            } else {
                push_no_scopes_note(&mut out);
            }
        },
        None => {
            push_no_scopes_note(&mut out);
        },
    }
    assert(out@ =~= identity_text_spec(identity@));
    out
}

/// Each field of the identity reports the claim it is named for: `subject`
/// the `sub` claim, `email` the `email` claim, `isServiceAccount` the
/// `isServiceAccount` claim, `tenant` the `tsn` claim, `tenantId` the `tid`
/// claim, `dataCenter` the `dc` claim, `encodedScopes` the `encodedScopes`
/// claim, `audience` the `aud` claim and `issuer` the `iss` claim (null when
/// the claim is absent); `expiresAt` is the time of the `exp` claim, and
/// `timeRemainingSeconds` the seconds from `now` to it.
pub proof fn lemma_identity_fields(claims: JsonView, now: int)
    ensures
        json_get(identity_spec(claims, now), "subject"@) == Some(
            match json_get(claims, "sub"@) {
                Some(v) => v,
                None => JsonView::Null,
            },
        ),
        json_get(identity_spec(claims, now), "email"@) == Some(
            match json_get(claims, "email"@) {
                Some(v) => v,
                None => JsonView::Null,
            },
        ),
        json_get(identity_spec(claims, now), "isServiceAccount"@) == Some(
            match json_get(claims, "isServiceAccount"@) {
                Some(v) => v,
                None => JsonView::Null,
            },
        ),
        json_get(identity_spec(claims, now), "tenant"@) == Some(
            match json_get(claims, "tsn"@) {
                Some(v) => v,
                None => JsonView::Null,
            },
        ),
        json_get(identity_spec(claims, now), "tenantId"@) == Some(
            match json_get(claims, "tid"@) {
                Some(v) => v,
                None => JsonView::Null,
            },
        ),
        json_get(identity_spec(claims, now), "dataCenter"@) == Some(
            match json_get(claims, "dc"@) {
                Some(v) => v,
                None => JsonView::Null,
            },
        ),
        json_get(identity_spec(claims, now), "encodedScopes"@) == Some(
            match json_get(claims, "encodedScopes"@) {
                Some(v) => v,
                None => JsonView::Null,
            },
        ),
        json_get(identity_spec(claims, now), "audience"@) == Some(
            match json_get(claims, "aud"@) {
                Some(v) => v,
                None => JsonView::Null,
            },
        ),
        json_get(identity_spec(claims, now), "issuer"@) == Some(
            match json_get(claims, "iss"@) {
                Some(v) => v,
                None => JsonView::Null,
            },
        ),
        json_get(identity_spec(claims, now), "expiresAt"@) == Some(
            match json_as_i64(json_get(claims, "exp"@)) {
                Some(e) => JsonView::Str(timestamp_text(e)),
                None => JsonView::Null,
            },
        ),
        json_as_i64(json_get(claims, "exp"@)) is Some && i64::MIN <= json_as_i64(
            json_get(claims, "exp"@),
        )->0 - now <= i64::MAX ==> json_get(identity_spec(claims, now), "timeRemainingSeconds"@)
            == Some(JsonView::Number(int_text(json_as_i64(json_get(claims, "exp"@))->0 - now))),
{
    reveal_strlit("subject");
    reveal_strlit("email");
    reveal_strlit("isServiceAccount");
    reveal_strlit("tenant");
    reveal_strlit("tenantId");
    reveal_strlit("dataCenter");
    reveal_strlit("scopes");
    reveal_strlit("encodedScopes");
    reveal_strlit("audience");
    reveal_strlit("issuer");
    reveal_strlit("expiresAt");
    reveal_strlit("timeRemainingSeconds");
    assert("subject"@.len() == 7 && "email"@.len() == 5 && "isServiceAccount"@.len() == 16 && "tenant"@.len() == 6 && "tenantId"@.len() == 8 && "dataCenter"@.len() == 10 && "scopes"@.len() == 6 && "encodedScopes"@.len() == 13 && "audience"@.len() == 8 && "issuer"@.len() == 6 && "expiresAt"@.len() == 9 && "timeRemainingSeconds"@.len() == 20);
    assert("subject"@[0] == 's' && "email"@[0] == 'e' && "isServiceAccount"@[0] == 'i' && "tenant"@[0] == 't' && "tenantId"@[0] == 't' && "dataCenter"@[0] == 'd' && "scopes"@[0] == 's' && "encodedScopes"@[0] == 'e' && "audience"@[0] == 'a' && "issuer"@[0] == 'i' && "expiresAt"@[0] == 'e' && "timeRemainingSeconds"@[0] == 't');
    let es = identity_spec(claims, now)->Object_0;
    assert(keys_distinct(es));
    lemma_get_at(es, 0);
    lemma_get_at(es, 1);
    lemma_get_at(es, 2);
    lemma_get_at(es, 3);
    lemma_get_at(es, 4);
    lemma_get_at(es, 5);
    lemma_get_at(es, 7);
    lemma_get_at(es, 8);
    lemma_get_at(es, 9);
    lemma_get_at(es, 10);
    lemma_get_at(es, 11);
}

} // verus!
