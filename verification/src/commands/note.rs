use vstd::prelude::*;

use crate::commands::issue_engine::push_entry;
use crate::commands::Operation;
use crate::json::{entries_view, JsonValue, JsonView};

verus! {

/// The mutation that adds a note to an issue.
pub const MUTATION: &'static str = "mutation CreateIssueNote($input: CreateIssueNoteInput!) {\n  createIssueNote(input: $input) {\n    issueNote { id text createdAt user { id email } }\n  }\n}";

/// The variables of a note: `{input: {issueId, text}}`.
pub open spec fn note_variables(id: Seq<char>, text: Seq<char>) -> JsonView {
    JsonView::Object(
        seq![
            (
                "input"@,
                JsonView::Object(
                    seq![("issueId"@, JsonView::Str(id)), ("text"@, JsonView::Str(text))],
                    None,
                ),
            ),
        ],
        None,
    )
}

/// The `createIssueNote` operation that adds `text` to issue `id`.
pub fn build_operation(id: &str, text: &str) -> (op: Operation)
    ensures
        op.query@ == MUTATION@,
        op.variables@ == note_variables(id@, text@),
{
    let mut input: Vec<(String, JsonValue)> = Vec::new();
    assert(entries_view(input@) =~= Seq::<(Seq<char>, JsonView)>::empty());
    push_entry(&mut input, "issueId", JsonValue::string(id));
    push_entry(&mut input, "text", JsonValue::string(text));
    assert(entries_view(input@) =~= seq![("issueId"@, JsonView::Str(id@)), ("text"@, JsonView::Str(text@))]);
    let mut vars: Vec<(String, JsonValue)> = Vec::new();
    assert(entries_view(vars@) =~= Seq::<(Seq<char>, JsonView)>::empty());
    push_entry(&mut vars, "input", JsonValue::object(input));
    assert(entries_view(vars@) =~= seq![
        (
            "input"@,
            JsonView::Object(
                seq![("issueId"@, JsonView::Str(id@)), ("text"@, JsonView::Str(text@))],
                None,
            ),
        ),
    ]);
    Operation { query: MUTATION, variables: JsonValue::object(vars) }
}

} // verus!
