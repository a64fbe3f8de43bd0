use vstd::prelude::*;
use vstd::string::*;

use crate::commands::issue_engine::{
    contains_str, push_entry, resolution_reason_values, resolution_reasons, validate_enum,
    validate_enum_spec, EntriesView,
};
use crate::commands::status::{update_operation, update_variables, MUTATION};
use crate::commands::{record_view, BatchResults, Operation};
use crate::json::{
    entries_get, entries_view, json_as_str, json_get, lemma_values_view, values_view, JsonValue, JsonView,
};
use crate::text::{str_equal, strs_view, upper};
use crate::time::{format_timestamp, timestamp_text};

verus! {

pub open spec fn rejected_reasons() -> Seq<Seq<char>> {
    seq!["FALSE_POSITIVE"@, "EXCEPTION"@, "WONT_FIX"@]
}

pub open spec fn threat_reasons() -> Seq<Seq<char>> {
    seq![
        "MALICIOUS_THREAT"@,
        "NOT_MALICIOUS_THREAT"@,
        "SECURITY_TEST_THREAT"@,
        "PLANNED_ACTION_THREAT"@,
        "INCONCLUSIVE_THREAT"@,
    ]
}

/// A resolution reason, case-insensitive: its upper case when it is one of
/// the fifteen reasons, else the message that lists them.
pub open spec fn normalize_reason_spec(reason: Seq<char>) -> Result<Seq<char>, Seq<char>> {
    validate_enum_spec("resolution reason"@, reason, resolution_reasons())
}

pub fn normalize_reason(reason: &str) -> (res: Result<String, String>)
    ensures
        match normalize_reason_spec(reason@) {
            Ok(n) => (res matches Ok(s) && s@ == n),
            Err(m) => (res matches Err(s) && s@ == m),
        },
{
    validate_enum("resolution reason", reason, &resolution_reason_values())
}

/// The status that a close with `reason` sets: `REJECTED` for
/// `FALSE_POSITIVE`, `EXCEPTION` and `WONT_FIX`, `RESOLVED` for every other
/// reason, threat reasons included.
pub open spec fn close_status(reason: Seq<char>) -> Seq<char> {
    if rejected_reasons().contains(reason) {
        "REJECTED"@
    } else {
        "RESOLVED"@
    }
}

/// The `patch` of a close, or the error that refuses it.
pub open spec fn close_patch_spec(
    reason: Seq<char>,
    note: Option<Seq<char>>,
    days: Option<u64>,
    now: int,
) -> Result<EntriesView, Seq<char>> {
    match normalize_reason_spec(reason) {
        Err(e) => Err(e),
        Ok(r) => {
            let status = close_status(r);
            if days is Some && !rejected_reasons().contains(r) {
                Err("--rejection-expires-days can only be used with a reason that maps to REJECTED"@)
            } else {
                let p = seq![("status"@, JsonView::Str(status)), ("resolutionReason"@, JsonView::Str(r))];
                let p = match note {
                    Some(t) => p.push(("note"@, JsonView::Str(t))),
                    None => p,
                };
                match days {
                    None => Ok(p),
                    Some(d) => if d * 86400 > i64::MAX || now + d * 86400 > i64::MAX {
                        Err("rejection expiry is too large"@)
                    } else {
                        Ok(p.push(("rejectionExpiredAt"@, JsonView::Str(timestamp_text(now + d * 86400)))))
                    },
                }
            }
        },
    }
}

pub open spec fn opt_chars(v: Option<&str>) -> Option<Seq<char>> {
    match v {
        Some(s) => Some(s@),
        None => None,
    }
}

/// The `updateIssue` operation that closes issue `id` with `reason`.
pub fn build_operation(
    id: &str,
    reason: &str,
    note: Option<&str>,
    rejection_expires_days: Option<u64>,
    now: i64,
) -> (res: Result<Operation, String>)
    ensures
        match close_patch_spec(reason@, opt_chars(note), rejection_expires_days, now as int) {
            Ok(p) => (res matches Ok(op) && op.query@ == MUTATION@ && op.variables@
                == update_variables(id@, p)),
            Err(m) => (res matches Err(msg) && msg@ == m),
        },
{
    let reason = match normalize_reason(reason) {
        Ok(r) => r,
        Err(e) => {
            return Err(e);
        },
    };
    let rejected = vec!["FALSE_POSITIVE", "EXCEPTION", "WONT_FIX"];
    assert(strs_view(rejected@) =~= rejected_reasons());
    let is_rejected = contains_str(&rejected, reason.as_str());
    let status = if is_rejected {
        "REJECTED"
    } else {
        "RESOLVED"
    };
    if rejection_expires_days.is_some() && !is_rejected {
        return Err(
            String::from_str(
                "--rejection-expires-days can only be used with a reason that maps to REJECTED",
            ),
        );
    }
    let mut patch: Vec<(String, JsonValue)> = Vec::new();
    assert(entries_view(patch@) =~= Seq::<(Seq<char>, JsonView)>::empty());
    push_entry(&mut patch, "status", JsonValue::string(status));
    let ghost rv = reason@;
    push_entry(&mut patch, "resolutionReason", JsonValue::Str(reason));
    let ghost p0 = seq![
        ("status"@, JsonView::Str(close_status(rv))),
        ("resolutionReason"@, JsonView::Str(rv)),
    ];
    assert(entries_view(patch@) =~= p0);
    if let Some(text) = note {
        push_entry(&mut patch, "note", JsonValue::string(text));
    }
    let ghost p1 = match note {
        Some(t) => p0.push(("note"@, JsonView::Str(t@))),
        None => p0,
    };
    assert(entries_view(patch@) =~= p1);
    if let Some(days) = rejection_expires_days {
        if days > 106751991167300u64 {
            assert(days * 86400 > i64::MAX) by (nonlinear_arith)
                requires
                    days > 106751991167300u64,
            ;
            return Err(String::from_str("rejection expiry is too large"));
        }
        assert(days * 86400 <= i64::MAX) by (nonlinear_arith)
            requires
                days <= 106751991167300u64,
        ;
        let seconds: i64 = (days * 86400) as i64;
        if now > 9223372036854775807i64 - seconds {
            return Err(String::from_str("rejection expiry is too large"));
        }
        push_entry(&mut patch, "rejectionExpiredAt", JsonValue::Str(format_timestamp(now + seconds)));
    }
    Ok(update_operation(id, patch))
}

} // verus!

verus! {

pub open spec fn is_threat_reason(reason: Seq<char>) -> bool {
    threat_reasons().contains(reason)
}

pub fn threat_reason(reason: &str) -> (r: bool)
    ensures
        r == is_threat_reason(reason@),
{
    let reasons = vec![
        "MALICIOUS_THREAT",
        "NOT_MALICIOUS_THREAT",
        "SECURITY_TEST_THREAT",
        "PLANNED_ACTION_THREAT",
        "INCONCLUSIVE_THREAT",
    ];
    assert(strs_view(reasons@) =~= threat_reasons());
    contains_str(&reasons, reason)
}

/// The type of issue `id` among the fetched issues: that of the last node
/// with this `id` and a string `type`, as a map built from them in order keeps.
pub open spec fn issue_type_lookup(nodes: Seq<JsonView>, id: Seq<char>) -> Option<Seq<char>>
    decreases nodes.len(),
{
    if nodes.len() == 0 {
        None
    } else {
        let last = nodes.last();
        if json_as_str(json_get(last, "id"@)) == Some(id) && json_as_str(json_get(last, "type"@)) is Some {
            json_as_str(json_get(last, "type"@))
        } else {
            issue_type_lookup(nodes.drop_last(), id)
        }
    }
}

pub fn issue_type_of(nodes: &Vec<JsonValue>, id: &str) -> (r: Option<String>)
    ensures
        match r {
            Some(t) => issue_type_lookup(values_view(nodes@), id@) == Some(t@),
            None => issue_type_lookup(values_view(nodes@), id@) is None,
        },
{
    proof {
        lemma_values_view(nodes@);
    }
    let mut k: usize = nodes.len();
    assert(values_view(nodes@).take(k as int) =~= values_view(nodes@));
    while k > 0
        invariant
            k <= nodes.len(),
            values_view(nodes@).len() == nodes.len(),
            forall|i: int| 0 <= i < nodes.len() ==> values_view(nodes@)[i] == #[trigger] nodes@[i]@,
            issue_type_lookup(values_view(nodes@), id@) == issue_type_lookup(
                values_view(nodes@).take(k as int),
                id@,
            ),
        decreases k,
    {
        let node = &nodes[k - 1];
        let ghost t = values_view(nodes@).take(k as int);
        assert(t.last() == node@);
        assert(t.drop_last() =~= values_view(nodes@).take(k - 1));
        let nid = node.get("id");
        let ntype = node.get("type");
        if let (Some(i), Some(ty)) = (nid, ntype) {
            if let (Some(i), Some(ty)) = (i.as_str(), ty.as_str()) {
                if str_equal(i, id) {
                    return Some(String::from_str(ty));
                }
            }
        }
        k = k - 1;
    }
    assert(values_view(nodes@).take(0) =~= Seq::<JsonView>::empty());
    None
}

/// Why issue `id` cannot be closed with a reason of this kind, if it cannot:
/// a threat-only reason needs a `THREAT_DETECTION` issue, any other reason
/// needs any other issue, and an issue that was not fetched cannot be closed.
pub open spec fn close_type_error(issue_type: Option<Seq<char>>, threat_reason: bool) -> Option<Seq<char>> {
    match issue_type {
        None => Some("issue was not found"@),
        Some(t) => {
            let is_threat = t == "THREAT_DETECTION"@;
            if threat_reason && !is_threat {
                Some("threat-only resolution reasons require a THREAT_DETECTION issue"@)
            } else if !threat_reason && is_threat {
                Some("THREAT_DETECTION issues require a threat-only resolution reason"@)
            } else {
                None
            }
        },
    }
}

pub fn check_issue_type(issue_type: Option<&str>, threat_reason: bool) -> (r: Option<&'static str>)
    ensures
        match close_type_error(opt_chars(issue_type), threat_reason) {
            Some(m) => (r matches Some(s) && s@ == m),
            None => r is None,
        },
{
    match issue_type {
        None => Some("issue was not found"),
        Some(t) => {
            let is_threat = str_equal(t, "THREAT_DETECTION");
            if threat_reason && !is_threat {
                Some("threat-only resolution reasons require a THREAT_DETECTION issue")
            } else if !threat_reason && is_threat {
                Some("THREAT_DETECTION issues require a threat-only resolution reason")
            } else {
                None
            }
        },
    }
}

} // verus!

verus! {

/// The close-reason table: a close sets `REJECTED` exactly for
/// `FALSE_POSITIVE`, `EXCEPTION` and `WONT_FIX` (in any case), and
/// `RESOLVED` for every other reason, each threat-only reason included;
/// the reason is recorded upper-cased.
pub proof fn lemma_close_status_mapping(reason: Seq<char>, note: Option<Seq<char>>, days: Option<u64>, now: int)
    ensures
        close_patch_spec(reason, note, days, now) matches Ok(p) ==> {
            &&& p.len() >= 2
            &&& p[0] == ("status"@, JsonView::Str(
                if rejected_reasons().contains(upper(reason)) {
                    "REJECTED"@
                } else {
                    "RESOLVED"@
                },
            ))
            &&& p[1] == ("resolutionReason"@, JsonView::Str(upper(reason)))
            &&& is_threat_reason(upper(reason)) ==> p[0] == ("status"@, JsonView::Str("RESOLVED"@))
        },
{
    if let Ok(p) = close_patch_spec(reason, note, days, now) {
        if is_threat_reason(upper(reason)) {
            reveal_strlit("FALSE_POSITIVE");
            reveal_strlit("EXCEPTION");
            reveal_strlit("WONT_FIX");
            reveal_strlit("MALICIOUS_THREAT");
            reveal_strlit("NOT_MALICIOUS_THREAT");
            reveal_strlit("SECURITY_TEST_THREAT");
            reveal_strlit("PLANNED_ACTION_THREAT");
            reveal_strlit("INCONCLUSIVE_THREAT");
            assert(!rejected_reasons().contains(upper(reason))) by {
                if rejected_reasons().contains(upper(reason)) {
                    let i = choose|i: int| 0 <= i < 3 && rejected_reasons()[i] == upper(reason);
                    let j = choose|j: int| 0 <= j < 5 && threat_reasons()[j] == upper(reason);
                    assert(rejected_reasons()[i].len() != threat_reasons()[j].len()
                        || rejected_reasons()[i][0] != threat_reasons()[j][0]);
                }
            }
        }
    }
}

/// A rejection expiry is only ever set on a close that maps to `REJECTED`,
/// and lies the given number of days after `now`.
pub proof fn lemma_expiry_only_when_rejected(reason: Seq<char>, note: Option<Seq<char>>, d: u64, now: int)
    ensures
        close_patch_spec(reason, note, Some(d), now) matches Ok(p) ==> (rejected_reasons().contains(
            upper(reason),
        ) && p.last() == ("rejectionExpiredAt"@, JsonView::Str(timestamp_text(now + d * 86400)))),
{
}

/// A threat-only reason is applied only to a `THREAT_DETECTION` issue and
/// any other reason only to an issue of another type.
pub proof fn lemma_close_type_rule(issue_type: Option<Seq<char>>, threat: bool)
    ensures
        close_type_error(issue_type, threat) is None <==> (issue_type matches Some(t) && (threat <==> t
            == "THREAT_DETECTION"@)),
{
}

} // verus!

verus! {

/// The step of a close for issue `id`, before its update: whether the
/// issue, as found among the fetched `nodes`, may be closed with a reason
/// of this kind (`threat`). When it may not, the refusal is recorded in
/// `batch` as a failed `validateIssueType`; when it may, `batch` is left as
/// it was and the update is to be sent.
pub fn check_close(batch: &mut BatchResults, nodes: &Vec<JsonValue>, id: &str, threat: bool) -> (send: bool)
    requires
        old(batch).wf(),
    ensures
        final(batch).wf(),
        match close_type_error(issue_type_lookup(values_view(nodes@), id@), threat) {
            None => send && final(batch)@ == old(batch)@,
            Some(m) => !send && final(batch)@ == record_view(
                old(batch)@,
                id@,
                "validateIssueType"@,
                Err(m),
            ),
        },
{
    let issue_type = issue_type_of(nodes, id);
    let error = match &issue_type {
        Some(t) => check_issue_type(Some(t.as_str()), threat),
        None => check_issue_type(None, threat),
    };
    match error {
        Some(m) => {
            batch.record(id, "validateIssueType", Err(String::from_str(m)));
            false
        },
        None => true,
    }
}

/// A note given with a close is sent with it, whatever the reason maps
/// to: the patch's `note` member is exactly the note, and without a note the
/// patch has none.
pub proof fn lemma_close_note(reason: Seq<char>, note: Option<Seq<char>>, days: Option<u64>, now: int)
    ensures
        close_patch_spec(reason, note, days, now) matches Ok(p) ==> entries_get(p, "note"@) == (
        match note {
            Some(t) => Some(JsonView::Str(t)),
            None => None,
        }),
{
    reveal_strlit("status");
    reveal_strlit("resolutionReason");
    reveal_strlit("note");
    reveal_strlit("rejectionExpiredAt");
    assert("status"@.len() == 6 && "resolutionReason"@.len() == 16 && "note"@.len() == 4
        && "rejectionExpiredAt"@.len() == 18);
    reveal_with_fuel(entries_get, 5);
    if let Ok(p) = close_patch_spec(reason, note, days, now) {
        assert(p[0].0 == "status"@ && p[1].0 == "resolutionReason"@);
        assert(p.drop_first()[0] == p[1]);
        if p.len() > 2 {
            assert(p.drop_first().drop_first()[0] == p[2]);
        }
        if p.len() > 3 {
            assert(p.drop_first().drop_first().drop_first()[0] == p[3]);
        }
        if p.len() == 2 {
            assert(p.drop_first().drop_first() =~= Seq::<(Seq<char>, JsonView)>::empty());
        } else if p.len() == 3 {
            assert(p.drop_first().drop_first().drop_first() =~= Seq::<(Seq<char>, JsonView)>::empty());
        } else {
            assert(p.drop_first().drop_first().drop_first().drop_first() =~= Seq::<(Seq<char>, JsonView)>::empty());
        }
    }
}

} // verus!
