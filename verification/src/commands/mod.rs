use vstd::prelude::*;

use vstd::string::*;

use crate::commands::issue_engine::push_entry;
use crate::json::{entries_view, values_view, JsonValue, JsonView};
use crate::text::{append_str, decimal, push_decimal};

pub mod assign;
pub mod close;
pub mod evidence;
pub mod issue_engine;
pub mod note;
pub mod status;
pub mod whoami;

verus! {

/// One GraphQL operation: its query text and its variables.
#[derive(Debug)]
pub struct Operation {
    pub query: &'static str,
    pub variables: JsonValue,
}

} // verus!

verus! {

/// The result entry of an operation that succeeded.
pub open spec fn success_view(id: Seq<char>, operation: Seq<char>, response: JsonView) -> JsonView {
    JsonView::Object(
        seq![
            ("id"@, JsonView::Str(id)),
            ("operation"@, JsonView::Str(operation)),
            ("success"@, JsonView::Bool(true)),
            ("response"@, response),
        ],
        None,
    )
}

/// The result entry of an operation that failed.
pub open spec fn failure_view(id: Seq<char>, operation: Seq<char>, error: Seq<char>) -> JsonView {
    JsonView::Object(
        seq![
            ("id"@, JsonView::Str(id)),
            ("operation"@, JsonView::Str(operation)),
            ("success"@, JsonView::Bool(false)),
            ("error"@, JsonView::Str(error)),
        ],
        None,
    )
}

pub fn success_result(id: &str, operation: &str, response: JsonValue) -> (r: JsonValue)
    ensures
        r@ == success_view(id@, operation@, response@),
{
    let ghost rv = response@;
    let mut e: Vec<(String, JsonValue)> = Vec::new();
    assert(entries_view(e@) =~= Seq::<(Seq<char>, JsonView)>::empty());
    push_entry(&mut e, "id", JsonValue::string(id));
    push_entry(&mut e, "operation", JsonValue::string(operation));
    push_entry(&mut e, "success", JsonValue::Bool(true));
    push_entry(&mut e, "response", response);
    assert(entries_view(e@) =~= seq![
        ("id"@, JsonView::Str(id@)),
        ("operation"@, JsonView::Str(operation@)),
        ("success"@, JsonView::Bool(true)),
        ("response"@, rv),
    ]);
    JsonValue::object(e)
}

pub fn failure_result(id: &str, operation: &str, error: &str) -> (r: JsonValue)
    ensures
        r@ == failure_view(id@, operation@, error@),
{
    let mut e: Vec<(String, JsonValue)> = Vec::new();
    assert(entries_view(e@) =~= Seq::<(Seq<char>, JsonView)>::empty());
    push_entry(&mut e, "id", JsonValue::string(id));
    push_entry(&mut e, "operation", JsonValue::string(operation));
    push_entry(&mut e, "success", JsonValue::Bool(false));
    push_entry(&mut e, "error", JsonValue::string(error));
    assert(entries_view(e@) =~= seq![
        ("id"@, JsonView::Str(id@)),
        ("operation"@, JsonView::Str(operation@)),
        ("success"@, JsonView::Bool(false)),
        ("error"@, JsonView::Str(error@)),
    ]);
    JsonValue::object(e)
}

/// The per-ID results of a multi-ID command and how many of them failed.
pub struct BatchResults {
    results: Vec<JsonValue>,
    failures: usize,
}

pub struct BatchView {
    pub results: Seq<JsonView>,
    pub failures: nat,
}

impl View for BatchResults {
    type V = BatchView;

    closed spec fn view(&self) -> BatchView {
        BatchView { results: values_view(self.results@), failures: self.failures as nat }
    }
}

/// The message of a batch with failures.
pub open spec fn batch_failure_message(failures: nat, kind: Seq<char>) -> Seq<char> {
    decimal(failures) + " "@ + kind + " operation(s) failed"@
}

/// An operation's outcome: the response, or the error message.
pub open spec fn outcome_view(outcome: Result<JsonValue, String>) -> Result<JsonView, Seq<char>> {
    match outcome {
        Ok(r) => Ok(r@),
        Err(e) => Err(e@),
    }
}

/// The result entry of an outcome.
pub open spec fn result_entry(id: Seq<char>, operation: Seq<char>, outcome: Result<JsonView, Seq<char>>) -> JsonView {
    match outcome {
        Ok(r) => success_view(id, operation, r),
        Err(e) => failure_view(id, operation, e),
    }
}

/// The batch after one more outcome: its entry is appended, and an error
/// counts as a failure.
pub open spec fn record_view(b: BatchView, id: Seq<char>, operation: Seq<char>, outcome: Result<JsonView, Seq<char>>) -> BatchView {
    BatchView {
        results: b.results.push(result_entry(id, operation, outcome)),
        failures: if outcome is Err {
            b.failures + 1
        } else {
            b.failures
        },
    }
}

/// One recorded outcome: issue ID, operation name, and outcome.
pub type Outcome = (Seq<char>, Seq<char>, Result<JsonView, Seq<char>>);

/// A new batch after recording `outcomes` in order.
pub open spec fn batch_after(outcomes: Seq<Outcome>) -> BatchView
    decreases outcomes.len(),
{
    if outcomes.len() == 0 {
        BatchView { results: Seq::empty(), failures: 0 }
    } else {
        let o = outcomes.last();
        record_view(batch_after(outcomes.drop_last()), o.0, o.1, o.2)
    }
}

impl BatchResults {
    pub closed spec fn wf(&self) -> bool {
        self.failures <= self.results.len()
    }

    pub fn new() -> (r: BatchResults)
        ensures
            r.wf(),
            r@.results == Seq::<JsonView>::empty(),
            r@.failures == 0,
    {
        let r = BatchResults { results: Vec::new(), failures: 0 };
        assert(values_view(r.results@) =~= Seq::<JsonView>::empty());
        r
    }

    /// Records the outcome of `operation` on issue `id`.
    pub fn record(&mut self, id: &str, operation: &str, outcome: Result<JsonValue, String>)
        requires
            old(self).wf(),
        ensures
            final(self).wf(),
            final(self)@ == record_view(old(self)@, id@, operation@, outcome_view(outcome)),
    {
        match outcome {
            Ok(response) => {
                let x = success_result(id, operation, response);
                let ghost before = self.results@;
                self.results.push(x);
                assert(self.results@.drop_last() =~= before);
            },
            Err(error) => {
                let x = failure_result(id, operation, error.as_str());
                let ghost before = self.results@;
                self.results.push(x);
                assert(self.results@.drop_last() =~= before);
                assert(self.results.len() == before.len() + 1);
                self.failures = self.failures + 1;
            },
        }
    }

    /// The results as a JSON array, and the error that ends the command when
    /// any operation failed (`kind` names the operations, as in "close").
    pub fn finish(self, kind: &str) -> (r: (JsonValue, Result<(), String>))
        requires
            self.wf(),
        ensures
            r.0@ == JsonView::Array(self@.results, None),
            self@.failures == 0 ==> r.1 is Ok,
            self@.failures > 0 ==> (r.1 matches Err(msg) && msg@ == batch_failure_message(self@.failures, kind@)),
    {
        let failures = self.failures;
        let ghost rv = values_view(self.results@);
        let out = JsonValue::array(self.results);
        if failures == 0 {
            (out, Ok(()))
        } else {
            let mut msg = String::new();
            push_decimal(&mut msg, failures as u64);
            append_str(&mut msg, " ");
            append_str(&mut msg, kind);
            append_str(&mut msg, " operation(s) failed");
            (out, Err(msg))
        }
    }
}

} // verus!

verus! {

/// A batch reports every outcome: one entry per recorded outcome, in the
/// order recorded, a success or a failure entry as the outcome was; and it
/// counts failures, having some exactly when some outcome was an error.
pub proof fn lemma_batch_reports_every_outcome(outcomes: Seq<Outcome>)
    ensures
        batch_after(outcomes).results.len() == outcomes.len(),
        forall|i: int|
            0 <= i < outcomes.len() ==> #[trigger] batch_after(outcomes).results[i] == result_entry(
                outcomes[i].0,
                outcomes[i].1,
                outcomes[i].2,
            ),
        batch_after(outcomes).failures <= outcomes.len(),
        batch_after(outcomes).failures > 0 <==> exists|i: int|
            0 <= i < outcomes.len() && (#[trigger] outcomes[i]).2 is Err,
    decreases outcomes.len(),
{
    if outcomes.len() > 0 {
        let prev = outcomes.drop_last();
        lemma_batch_reports_every_outcome(prev);
        let last = outcomes.len() - 1;
        assert forall|i: int| 0 <= i < last implies #[trigger] outcomes[i] == prev[i] by {}
        if batch_after(prev).failures > 0 {
            let i = choose|i: int| 0 <= i < prev.len() && (#[trigger] prev[i]).2 is Err;
            assert(outcomes[i] == prev[i]);
        }
        if exists|i: int| 0 <= i < outcomes.len() && (#[trigger] outcomes[i]).2 is Err {
            let i = choose|i: int| 0 <= i < outcomes.len() && (#[trigger] outcomes[i]).2 is Err;
            if i < last {
                assert(prev[i] == outcomes[i]);
            }
        }
    }
}

} // verus!
