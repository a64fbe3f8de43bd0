use vstd::prelude::*;
use vstd::string::*;

use crate::commands::issue_engine::{push_entry, EntriesView};
use crate::commands::Operation;
use crate::json::{entries_view, JsonValue, JsonView};
use crate::text::{append_str, to_upper, upper, str_equal};

verus! {

/// The mutation that changes an issue's status.
pub const MUTATION: &'static str = "mutation UpdateIssue($issueId: ID!, $patch: UpdateIssuePatch) {\n  updateIssue(input: {id: $issueId, patch: $patch}) {\n    issue { id status resolutionReason dueAt rejectionExpiredAt }\n  }\n}";

/// The variables of an issue update: `{issueId, patch}`.
pub open spec fn update_variables(id: Seq<char>, patch: EntriesView) -> JsonView {
    JsonView::Object(
        seq![("issueId"@, JsonView::Str(id)), ("patch"@, JsonView::Object(patch, None))],
        None,
    )
}

/// The `updateIssue` operation that applies `patch` to issue `id`.
pub fn update_operation(id: &str, patch: Vec<(String, JsonValue)>) -> (op: Operation)
    ensures
        op.query@ == MUTATION@,
        op.variables@ == update_variables(id@, entries_view(patch@)),
{
    let ghost pv = entries_view(patch@);
    let mut vars: Vec<(String, JsonValue)> = Vec::new();
    assert(entries_view(vars@) =~= Seq::<(Seq<char>, JsonView)>::empty());
    push_entry(&mut vars, "issueId", JsonValue::string(id));
    push_entry(&mut vars, "patch", JsonValue::object(patch));
    assert(entries_view(vars@) =~= seq![
        ("issueId"@, JsonView::Str(id@)),
        ("patch"@, JsonView::Object(pv, None)),
    ]);
    Operation { query: MUTATION, variables: JsonValue::object(vars) }
}

} // verus!

verus! {

/// The status that a `status` command may set: `OPEN` or `IN_PROGRESS`,
/// case-insensitive; the message names the upper-cased value.
pub open spec fn status_spec(status: Seq<char>) -> Result<Seq<char>, Seq<char>> {
    let u = upper(status);
    if u == "OPEN"@ || u == "IN_PROGRESS"@ {
        Ok(u)
    } else {
        Err("invalid status '"@ + u + "'; valid values: OPEN, IN_PROGRESS"@)
    }
}

/// The `updateIssue` operation that sets issue `id` to `status`.
pub fn build_operation(id: &str, status: &str) -> (res: Result<Operation, String>)
    ensures
        match status_spec(status@) {
            Ok(s) => (res matches Ok(op) && op.query@ == MUTATION@ && op.variables@
                == update_variables(id@, seq![("status"@, JsonView::Str(s))])),
            Err(m) => (res matches Err(msg) && msg@ == m),
        },
{
    let status = to_upper(status);
    if !(str_equal(status.as_str(), "OPEN") || str_equal(status.as_str(), "IN_PROGRESS")) {
        let mut msg = String::from_str("invalid status '");
        append_str(&mut msg, status.as_str());
        append_str(&mut msg, "'; valid values: OPEN, IN_PROGRESS");
        return Err(msg);
    }
    let ghost sv = status@;
    let mut patch: Vec<(String, JsonValue)> = Vec::new();
    assert(entries_view(patch@) =~= Seq::<(Seq<char>, JsonView)>::empty());
    push_entry(&mut patch, "status", JsonValue::Str(status));
    assert(entries_view(patch@) =~= seq![("status"@, JsonView::Str(sv))]);
    Ok(update_operation(id, patch))
}

/// The status is read in any case: two spellings with the same upper case
/// get the same answer, and a status is accepted, as its upper case,
/// exactly when that is `OPEN` or `IN_PROGRESS`.
pub proof fn lemma_status_case_insensitive(a: Seq<char>, b: Seq<char>)
    ensures
        upper(a) == upper(b) ==> status_spec(a) == status_spec(b),
        status_spec(a) is Ok <==> (upper(a) == "OPEN"@ || upper(a) == "IN_PROGRESS"@),
        status_spec(a) is Ok ==> status_spec(a) == Ok::<Seq<char>, Seq<char>>(upper(a)),
{
}

} // verus!
