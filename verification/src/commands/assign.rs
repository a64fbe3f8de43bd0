use vstd::prelude::*;

use crate::commands::issue_engine::{push_entry, str_array_view, string_array};
use crate::commands::Operation;
use crate::ids::strings_view;
use crate::json::{entries_view, JsonValue, JsonView};

verus! {

/// The mutation that assigns issues.
pub const MUTATION: &'static str = "mutation UpdateIssuesAssignee($input: UpdateIssuesAssigneeInput!) {\n  updateIssuesAssignee(input: $input) { issues { id } }\n}";

/// The variables of an assignment: `{input: {issueIds, assignee}}`.
pub open spec fn assign_variables(ids: Seq<Seq<char>>, assignee: Seq<char>) -> JsonView {
    JsonView::Object(
        seq![
            (
                "input"@,
                JsonView::Object(
                    seq![("issueIds"@, str_array_view(ids)), ("assignee"@, JsonView::Str(assignee))],
                    None,
                ),
            ),
        ],
        None,
    )
}

/// The one `updateIssuesAssignee` operation that assigns every issue in `ids`.
pub fn build_operation(ids: &Vec<String>, assignee: &str) -> (op: Operation)
    ensures
        op.query@ == MUTATION@,
        op.variables@ == assign_variables(strings_view(ids@), assignee@),
{
    let ghost idv = strings_view(ids@);
    let mut input: Vec<(String, JsonValue)> = Vec::new();
    assert(entries_view(input@) =~= Seq::<(Seq<char>, JsonView)>::empty());
    push_entry(&mut input, "issueIds", string_array(ids));
    push_entry(&mut input, "assignee", JsonValue::string(assignee));
    assert(entries_view(input@) =~= seq![("issueIds"@, str_array_view(idv)), ("assignee"@, JsonView::Str(assignee@))]);
    let mut vars: Vec<(String, JsonValue)> = Vec::new();
    assert(entries_view(vars@) =~= Seq::<(Seq<char>, JsonView)>::empty());
    push_entry(&mut vars, "input", JsonValue::object(input));
    assert(entries_view(vars@) =~= seq![
        (
            "input"@,
            JsonView::Object(
                seq![("issueIds"@, str_array_view(idv)), ("assignee"@, JsonView::Str(assignee@))],
                None,
            ),
        ),
    ]);
    Operation { query: MUTATION, variables: JsonValue::object(vars) }
}

} // verus!
