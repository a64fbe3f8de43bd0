use vstd::prelude::*;
use vstd::string::*;

use crate::json::{
    json_as_array, json_as_str, json_get, json_text, lemma_entries_view, lemma_values_view,
    values_view, entries_view, JsonValue, JsonView,
};
use crate::text::{append_str, chars_of, push_char, string_from_range};

verus! {

/// `k` copies of `c` (none for `k <= 0`).
pub open spec fn repeated(c: char, k: int) -> Seq<char> {
    Seq::new(if k > 0 { k as nat } else { 0 }, |i: int| c)
}

/// `s` left-aligned in a field of `w` characters (`format!("{s:<w$}")`).
pub open spec fn pad(s: Seq<char>, w: int) -> Seq<char> {
    if s.len() < w {
        s + repeated(' ', w - s.len())
    } else {
        s
    }
}

/// `s` cut to at most `max` characters, the cut marked with `...`.
pub open spec fn truncated(s: Seq<char>, max: int) -> Seq<char> {
    if s.len() <= max {
        s
    } else {
        s.take(if max >= 3 { max - 3 } else { 0 }) + "..."@
    }
}

/// A table cell: `s` cut and padded to `w` characters.
pub open spec fn column(s: Seq<char>, w: int) -> Seq<char> {
    pad(truncated(s, w), w)
}

pub open spec fn or_dash(v: Option<Seq<char>>) -> Seq<char> {
    match v {
        Some(s) => s,
        None => "-"@,
    }
}

/// Appends `k` copies of `c`.
pub fn push_repeated(out: &mut String, c: char, k: usize)
    ensures
        final(out)@ == old(out)@ + repeated(c, k as int),
{
    let mut i: usize = 0;
    while i < k
        invariant
            i <= k,
            out@ == old(out)@ + repeated(c, i as int),
        decreases k - i,
    {
        push_char(out, c);
        i = i + 1;
        assert(out@ =~= old(out)@ + repeated(c, i as int));
    }
}

/// Appends `s` left-aligned in a field of `w` characters.
pub fn push_padded_str(out: &mut String, s: &str, w: usize)
    ensures
        final(out)@ == old(out)@ + pad(s@, w as int),
{
    let n = chars_of(s).len();
    append_str(out, s);
    if n < w {
        push_repeated(out, ' ', w - n);
    }
    assert(final(out)@ =~= old(out)@ + pad(s@, w as int));
}

/// Cuts `value` to at most `max` characters, ending a cut value with `...`.
pub fn truncate(value: &str, max: usize) -> (r: String)
    ensures
        r@ == truncated(value@, max as int),
{
    let chars = chars_of(value);
    if chars.len() <= max {
        String::from_str(value)
    } else {
        let keep: usize = if max >= 3 {
            max - 3
        } else {
            0
        };
        let mut r = string_from_range(&chars, 0, keep);
        append_str(&mut r, "...");
        assert(chars@.subrange(0, keep as int) =~= value@.take(keep as int));
        r
    }
}

/// Appends a table cell of width `w` holding `s`.
pub fn push_column(out: &mut String, s: &str, w: usize)
    ensures
        final(out)@ == old(out)@ + column(s@, w as int),
{
    let t = truncate(s, w);
    push_padded_str(out, t.as_str(), w);
}

} // verus!

verus! {

/// How a value reads in a table cell: `-` for null, a string as it is,
/// an array as its cells joined with `, `, an object as its JSON text.
pub open spec fn cell(v: JsonView) -> Seq<char>
    decreases v,
{
    match v {
        JsonView::Null => "-"@,
        JsonView::Bool(b) => if b {
            "true"@
        } else {
            "false"@
        },
        JsonView::Number(t) => t,
        JsonView::Str(s) => s,
        JsonView::Array(items, _) => cells_joined(items),
        JsonView::Object(_, _) => json_text(v),
    }
}

pub open spec fn cells_joined(items: Seq<JsonView>) -> Seq<char>
    decreases items,
{
    if items.len() == 0 {
        Seq::empty()
    } else if items.len() == 1 {
        cell(items[0])
    } else {
        cells_joined(items.drop_last()) + ", "@ + cell(items.last())
    }
}

/// The cell text of `value` (`value_to_cell`).
pub fn value_to_cell(value: &JsonValue) -> (r: String)
    ensures
        r@ == cell(value@),
    decreases value,
{
    match value {
        JsonValue::Null => String::from_str("-"),
        JsonValue::Bool(b) => if *b {
            String::from_str("true")
        } else {
            String::from_str("false")
        },
        JsonValue::Number(t) => t.clone(),
        JsonValue::Str(s) => s.clone(),
        JsonValue::Array(items, t) => {
            proof {
                lemma_values_view(items@);
            }
            let ghost iv = values_view(items@);
            let mut out = String::new();
            let mut i: usize = 0;
            while i < items.len()
                invariant
                    i <= items.len(),
                    iv == values_view(items@),
                    iv.len() == items.len(),
                    forall|j: int| 0 <= j < items.len() ==> iv[j] == #[trigger] items@[j]@,
                    *value == JsonValue::Array(*items, *t),
                    out@ == cells_joined(iv.take(i as int)),
                decreases items.len() - i,
            {
                assert(decreases_to!(*value => value->Array_0));
                assert(decreases_to!(*items => items@));
                assert(decreases_to!(items@ => items@[i as int]));
                let c = value_to_cell(&items[i]);
                let ghost tk = iv.take(i + 1);
                assert(tk.drop_last() =~= iv.take(i as int));
                assert(tk.last() == items@[i as int]@);
                if i > 0 {
                    append_str(&mut out, ", ");
                } else {
                    assert(tk =~= seq![items@[0]@]);
                }
                append_str(&mut out, c.as_str());
                i = i + 1;
            }
            assert(iv.take(items.len() as int) =~= iv);
            out
        },
        JsonValue::Object(_, _) => crate::json::compact_text(value),
    }
}

} // verus!

verus! {

pub open spec fn opt_get(v: Option<JsonView>, key: Seq<char>) -> Option<JsonView> {
    match v {
        Some(x) => json_get(x, key),
        None => None,
    }
}

/// The string member `key` of `v`, or `-` (`string_at`).
pub open spec fn string_at_spec(v: JsonView, key: Seq<char>) -> Seq<char> {
    or_dash(json_as_str(json_get(v, key)))
}

pub fn string_at<'a>(value: &'a JsonValue, key: &str) -> (r: &'a str)
    ensures
        r@ == string_at_spec(value@, key@),
{
    match value.get(key) {
        Some(v) => match v.as_str() {
            Some(s) => s,
            None => "-",
        },
        None => "-",
    }
}

pub open spec fn issues_header() -> Seq<char> {
    pad("ID"@, 38) + " "@ + pad("TYPE"@, 24) + " "@ + pad("STATUS"@, 12) + " "@ + pad("SEVERITY"@, 14)
        + " "@ + pad("ENTITY"@, 28) + " "@ + "UPDATED"@ + "\n"@
}

/// One row of the issue table.
pub open spec fn issue_row(node: JsonView) -> Seq<char> {
    column(string_at_spec(node, "id"@), 38) + " "@ + column(string_at_spec(node, "type"@), 24) + " "@
        + column(string_at_spec(node, "status"@), 12) + " "@ + column(
        string_at_spec(node, "severity"@),
        14,
    ) + " "@ + column(or_dash(json_as_str(opt_get(json_get(node, "entity"@), "name"@))), 28) + " "@
        + string_at_spec(node, "updatedAt"@) + "\n"@
}

pub open spec fn issue_rows(nodes: Seq<JsonView>) -> Seq<char>
    decreases nodes.len(),
{
    if nodes.len() == 0 {
        Seq::empty()
    } else {
        issue_rows(nodes.drop_last()) + issue_row(nodes.last())
    }
}

/// The issue table: a header, a rule of 135 dashes, one row per issue.
pub open spec fn issues_table(nodes: Seq<JsonView>) -> Seq<char> {
    issues_header() + repeated('-', 135) + "\n"@ + issue_rows(nodes)
}

#[verifier::rlimit(60)]
fn push_issue_row(out: &mut String, node: &JsonValue)
    ensures
        final(out)@ == old(out)@ + issue_row(node@),
{
    push_column(out, string_at(node, "id"), 38);
    append_str(out, " ");
    push_column(out, string_at(node, "type"), 24);
    append_str(out, " ");
    push_column(out, string_at(node, "status"), 12);
    append_str(out, " ");
    push_column(out, string_at(node, "severity"), 14);
    append_str(out, " ");
    let entity: &str = match node.get("entity") {
        Some(e) => match e.get("name") {
            Some(n) => match n.as_str() {
                Some(s) => s,
                None => "-",
            },
            None => "-",
        },
        None => "-",
    };
    push_column(out, entity, 28);
    append_str(out, " ");
    append_str(out, string_at(node, "updatedAt"));
    append_str(out, "\n");
    assert(final(out)@ =~= old(out)@ + issue_row(node@));
}

/// The issue table of `nodes`.
pub fn format_issues(nodes: &Vec<JsonValue>) -> (r: String)
    ensures
        r@ == issues_table(values_view(nodes@)),
{
    proof {
        lemma_values_view(nodes@);
    }
    let ghost nv = values_view(nodes@);
    let mut out = String::new();
    push_padded_str(&mut out, "ID", 38);
    append_str(&mut out, " ");
    push_padded_str(&mut out, "TYPE", 24);
    append_str(&mut out, " ");
    push_padded_str(&mut out, "STATUS", 12);
    append_str(&mut out, " ");
    push_padded_str(&mut out, "SEVERITY", 14);
    append_str(&mut out, " ");
    push_padded_str(&mut out, "ENTITY", 28);
    append_str(&mut out, " ");
    append_str(&mut out, "UPDATED");
    append_str(&mut out, "\n");
    push_repeated(&mut out, '-', 135);
    append_str(&mut out, "\n");
    let ghost head = out@;
    assert(head =~= issues_header() + repeated('-', 135) + "\n"@);
    let mut i: usize = 0;
    while i < nodes.len()
        invariant
            i <= nodes.len(),
            nv == values_view(nodes@),
            nv.len() == nodes.len(),
            forall|j: int| 0 <= j < nodes.len() ==> nv[j] == #[trigger] nodes@[j]@,
            head == issues_header() + repeated('-', 135) + "\n"@,
            out@ == head + issue_rows(nv.take(i as int)),
        decreases nodes.len() - i,
    {
        push_issue_row(&mut out, &nodes[i]);
        assert(nv.take(i + 1).drop_last() =~= nv.take(i as int));
        i = i + 1;
        assert(out@ =~= head + issue_rows(nv.take(i as int)));
    }
    assert(nv.take(nodes.len() as int) =~= nv);
    out
}

} // verus!

verus! {

pub open spec fn nodes_header() -> Seq<char> {
    pad("ID"@, 38) + " "@ + pad("OPERATION"@, 24) + " "@ + "RESULT"@ + "\n"@
}

/// The operation column of a result row: its `operation`, else its
/// `timestamp`, else `-`.
pub open spec fn node_operation(node: JsonView) -> Seq<char> {
    match json_as_str(json_get(node, "operation"@)) {
        Some(s) => s,
        None => or_dash(json_as_str(json_get(node, "timestamp"@))),
    }
}

/// The result column of a result row: its `error`, else its `success`,
/// else the whole node.
pub open spec fn node_result(node: JsonView) -> Seq<char> {
    match json_get(node, "error"@) {
        Some(e) => cell(e),
        None => match json_get(node, "success"@) {
            Some(s) => cell(s),
            None => cell(node),
        },
    }
}

pub open spec fn node_row(node: JsonView) -> Seq<char> {
    column(string_at_spec(node, "id"@), 38) + " "@ + column(node_operation(node), 24) + " "@
        + node_result(node) + "\n"@
}

pub open spec fn node_rows(nodes: Seq<JsonView>) -> Seq<char>
    decreases nodes.len(),
{
    if nodes.len() == 0 {
        Seq::empty()
    } else {
        node_rows(nodes.drop_last()) + node_row(nodes.last())
    }
}

/// The result table: `No results` when empty, else a header, a rule of 100
/// dashes and one row per node.
pub open spec fn nodes_table(nodes: Seq<JsonView>) -> Seq<char> {
    if nodes.len() == 0 {
        "No results"@
    } else {
        nodes_header() + repeated('-', 100) + "\n"@ + node_rows(nodes)
    }
}

#[verifier::rlimit(60)]
fn push_node_row(out: &mut String, node: &JsonValue)
    ensures
        final(out)@ == old(out)@ + node_row(node@),
{
    push_column(out, string_at(node, "id"), 38);
    append_str(out, " ");
    let operation: &str = match node.get("operation") {
        Some(o) => match o.as_str() {
            Some(s) => s,
            None => string_at(node, "timestamp"),
        },
        None => string_at(node, "timestamp"),
    };
    push_column(out, operation, 24);
    append_str(out, " ");
    let result = match node.get("error") {
        Some(e) => value_to_cell(e),
        None => match node.get("success") {
            Some(s) => value_to_cell(s),
            None => value_to_cell(node),
        },
    };
    append_str(out, result.as_str());
    append_str(out, "\n");
    assert(final(out)@ =~= old(out)@ + node_row(node@));
}

/// The result table of `nodes`.
pub fn format_nodes(nodes: &Vec<JsonValue>) -> (r: String)
    ensures
        r@ == nodes_table(values_view(nodes@)),
{
    proof {
        lemma_values_view(nodes@);
    }
    let ghost nv = values_view(nodes@);
    if nodes.len() == 0 {
        return String::from_str("No results");
    }
    let mut out = String::new();
    push_padded_str(&mut out, "ID", 38);
    append_str(&mut out, " ");
    push_padded_str(&mut out, "OPERATION", 24);
    append_str(&mut out, " ");
    append_str(&mut out, "RESULT");
    append_str(&mut out, "\n");
    push_repeated(&mut out, '-', 100);
    append_str(&mut out, "\n");
    let ghost head = out@;
    assert(head =~= nodes_header() + repeated('-', 100) + "\n"@);
    let mut i: usize = 0;
    while i < nodes.len()
        invariant
            i <= nodes.len(),
            nv == values_view(nodes@),
            nv.len() == nodes.len(),
            forall|j: int| 0 <= j < nodes.len() ==> nv[j] == #[trigger] nodes@[j]@,
            head == nodes_header() + repeated('-', 100) + "\n"@,
            out@ == head + node_rows(nv.take(i as int)),
        decreases nodes.len() - i,
    {
        push_node_row(&mut out, &nodes[i]);
        assert(nv.take(i + 1).drop_last() =~= nv.take(i as int));
        i = i + 1;
        assert(out@ =~= head + node_rows(nv.take(i as int)));
    }
    assert(nv.take(nodes.len() as int) =~= nv);
    out
}

/// The number of UTF-8 bytes of `s` (`str::len`, a `usize`).
pub open spec fn byte_len(s: Seq<char>) -> int {
    (vstd::utf8::encode_utf8(s).len() as usize) as int
}

/// The width of the field column: the longest key in bytes, at least 5.
pub open spec fn key_width(es: Seq<(Seq<char>, JsonView)>) -> int
    decreases es.len(),
{
    if es.len() == 0 {
        5
    } else {
        let w = key_width(es.drop_last());
        let k = byte_len(es.last().0);
        if k > w {
            k
        } else {
            w
        }
    }
}

/// `s` with each line break replaced by a space.
pub open spec fn one_line(s: Seq<char>) -> Seq<char> {
    s.map_values(|c: char| if c == '\n' { ' ' } else { c })
}

pub open spec fn object_row(key: Seq<char>, value: JsonView, w: int) -> Seq<char> {
    pad(key, w) + " "@ + one_line(cell(value)) + "\n"@
}

pub open spec fn object_rows(es: Seq<(Seq<char>, JsonView)>, w: int) -> Seq<char>
    decreases es.len(),
{
    if es.len() == 0 {
        Seq::empty()
    } else {
        object_rows(es.drop_last(), w) + object_row(es.last().0, es.last().1, w)
    }
}

/// The field table of an object: a `FIELD VALUE` header, a rule, and one
/// row per member, its value on one line.
pub open spec fn object_table(es: Seq<(Seq<char>, JsonView)>) -> Seq<char> {
    let w = key_width(es);
    pad("FIELD"@, w) + " VALUE\n"@ + repeated('-', w + 65) + "\n"@ + object_rows(es, w)
}

fn one_line_string(s: &str) -> (r: String)
    ensures
        r@ == one_line(s@),
{
    let chars = chars_of(s);
    let mut r = String::new();
    let mut i: usize = 0;
    while i < chars.len()
        invariant
            i <= chars.len(),
            chars@ == s@,
            r@ == one_line(s@.take(i as int)),
        decreases chars.len() - i,
    {
        let c = chars[i];
        push_char(&mut r, if c == '\n' { ' ' } else { c });
        i = i + 1;
        assert(r@ =~= one_line(s@.take(i as int)));
    }
    assert(s@.take(chars.len() as int) =~= s@);
    r
}

fn object_key_width(entries: &Vec<(String, JsonValue)>) -> (w: usize)
    ensures
        w == key_width(entries_view(entries@)),
{
    proof {
        lemma_entries_view(entries@);
    }
    let ghost ev = entries_view(entries@);
    let mut w: usize = 5;
    let mut i: usize = 0;
    while i < entries.len()
        invariant
            i <= entries.len(),
            ev == entries_view(entries@),
            ev.len() == entries.len(),
            forall|j: int| 0 <= j < entries.len() ==> ev[j] == (#[trigger] entries@[j].0@, entries@[j].1@),
            w == key_width(ev.take(i as int)),
        decreases entries.len() - i,
    {
        let key: &str = entries[i].0.as_str();
        let k = key.len();
        assert(k as int == byte_len(entries@[i as int].0@));
        assert(ev.take(i + 1).drop_last() =~= ev.take(i as int));
        assert(ev.take(i + 1).last().0 == entries@[i as int].0@);
        if k > w {
            w = k;
        }
        i = i + 1;
    }
    assert(ev.take(entries.len() as int) =~= ev);
    w
}

/// The field table of an object with `entries`.
pub fn format_object(entries: &Vec<(String, JsonValue)>) -> (r: String)
    requires
        key_width(entries_view(entries@)) + 65 <= usize::MAX,
    ensures
        r@ == object_table(entries_view(entries@)),
{
    proof {
        lemma_entries_view(entries@);
    }
    let ghost ev = entries_view(entries@);
    let width = object_key_width(entries);
    let mut out = String::new();
    push_padded_str(&mut out, "FIELD", width);
    append_str(&mut out, " VALUE\n");
    push_repeated(&mut out, '-', width + 65);
    append_str(&mut out, "\n");
    let ghost head = out@;
    let mut i: usize = 0;
    while i < entries.len()
        invariant
            i <= entries.len(),
            ev == entries_view(entries@),
            ev.len() == entries.len(),
            forall|j: int| 0 <= j < entries.len() ==> ev[j] == (#[trigger] entries@[j].0@, entries@[j].1@),
            width == key_width(ev),
            out@ == head + object_rows(ev.take(i as int), width as int),
        decreases entries.len() - i,
    {
        push_padded_str(&mut out, entries[i].0.as_str(), width);
        append_str(&mut out, " ");
        let c = value_to_cell(&entries[i].1);
        let line = one_line_string(c.as_str());
        append_str(&mut out, line.as_str());
        append_str(&mut out, "\n");
        assert(ev.take(i + 1).drop_last() =~= ev.take(i as int));
        i = i + 1;
        assert(out@ =~= head + object_rows(ev.take(i as int), width as int));
    }
    assert(ev.take(entries.len() as int) =~= ev);
    assert(out@ =~= object_table(ev));
    out
}

} // verus!

verus! {

pub open spec fn has_severity(nodes: Seq<JsonView>) -> bool {
    exists|i: int| 0 <= i < nodes.len() && (#[trigger] json_get(nodes[i], "severity"@)) is Some
}

/// Whether the human form of `v` is a field table whose key column fits.
pub open spec fn human_fits(v: JsonView) -> bool {
    match json_as_array(json_get(v, "nodes"@)) {
        Some(_) => true,
        None => match v {
            JsonView::Object(es, _) => key_width(es) + 65 <= usize::MAX,
            _ => true,
        },
    }
}

/// The human-readable form of a command's output: a listing's `nodes` as
/// the issue table when any of them has a severity, else as the result
/// table; an array as the result table; an object as a field table; any
/// other value as its cell.
pub open spec fn human_text(v: JsonView) -> Seq<char> {
    match json_as_array(json_get(v, "nodes"@)) {
        Some(nodes) => if has_severity(nodes) {
            issues_table(nodes)
        } else {
            nodes_table(nodes)
        },
        None => match v {
            JsonView::Array(items, _) => nodes_table(items),
            JsonView::Object(es, _) => object_table(es),
            _ => cell(v),
        },
    }
}

fn any_has_severity(nodes: &Vec<JsonValue>) -> (r: bool)
    ensures
        r == has_severity(values_view(nodes@)),
{
    proof {
        lemma_values_view(nodes@);
    }
    let ghost nv = values_view(nodes@);
    let mut i: usize = 0;
    while i < nodes.len()
        invariant
            i <= nodes.len(),
            nv == values_view(nodes@),
            nv.len() == nodes.len(),
            forall|j: int| 0 <= j < nodes.len() ==> nv[j] == #[trigger] nodes@[j]@,
            forall|j: int| 0 <= j < i ==> (#[trigger] json_get(nv[j], "severity"@)) is None,
        decreases nodes.len() - i,
    {
        if nodes[i].get("severity").is_some() {
            assert(json_get(nv[i as int], "severity"@) is Some);
            return true;
        }
        i = i + 1;
    }
    false
}

/// The human-readable form of `value`.
pub fn format_human(value: &JsonValue) -> (r: String)
    requires
        human_fits(value@),
    ensures
        r@ == human_text(value@),
{
    if let Some(n) = value.get("nodes") {
        if let Some(nodes) = n.as_array() {
            if any_has_severity(nodes) {
                return format_issues(nodes);
            }
            return format_nodes(nodes);
        }
    }
    match value {
        JsonValue::Array(items, t) => {
            proof {
                crate::json::lemma_array_view_is(*items, *t);
            }
            format_nodes(items)
        },
        JsonValue::Object(entries, t) => {
            proof {
                crate::json::lemma_object_view_is(*entries, *t);
            }
            format_object(entries)
        },
        _ => value_to_cell(value),
    }
}

} // verus!

verus! {

/// One operation of a human dry run, given the pretty text of its variables.
pub open spec fn dry_run_block(index: int, query: Seq<char>, variables: Seq<char>) -> Seq<char> {
    (if index > 0 {
        "\n"@
    } else {
        Seq::empty()
    }) + "Operation "@ + crate::text::decimal((index + 1) as nat) + "\n"@ + "Query:\n"@ + query + "\n"@
        + "Variables:\n"@ + variables + "\n"@
}

pub open spec fn dry_run_blocks(ops: Seq<(Seq<char>, Seq<char>)>) -> Seq<char>
    decreases ops.len(),
{
    if ops.len() == 0 {
        Seq::empty()
    } else {
        dry_run_blocks(ops.drop_last()) + dry_run_block(
            ops.len() - 1,
            ops.last().0,
            ops.last().1,
        )
    }
}

pub open spec fn pairs_view(ops: Seq<(&str, String)>) -> Seq<(Seq<char>, Seq<char>)> {
    ops.map_values(|p: (&str, String)| (p.0@, p.1@))
}

/// The human form of a dry run: each operation numbered, with its query and
/// its variables (`ops` pairs each query with its pretty-printed variables).
pub fn dry_run_text(ops: &Vec<(&str, String)>) -> (r: String)
    requires
        ops.len() < u64::MAX,
    ensures
        r@ == dry_run_blocks(pairs_view(ops@)),
{
    let ghost pv = pairs_view(ops@);
    let mut out = String::new();
    let mut i: usize = 0;
    while i < ops.len()
        invariant
            i <= ops.len(),
            ops.len() < u64::MAX,
            pv == pairs_view(ops@),
            out@ == dry_run_blocks(pv.take(i as int)),
        decreases ops.len() - i,
    {
        let ghost before = out@;
        if i > 0 {
            append_str(&mut out, "\n");
        }
        append_str(&mut out, "Operation ");
        crate::text::push_decimal(&mut out, (i as u64) + 1);
        append_str(&mut out, "\n");
        append_str(&mut out, "Query:\n");
        append_str(&mut out, ops[i].0);
        append_str(&mut out, "\n");
        append_str(&mut out, "Variables:\n");
        append_str(&mut out, ops[i].1.as_str());
        append_str(&mut out, "\n");
        assert(pv.take(i + 1).drop_last() =~= pv.take(i as int));
        assert(pv.take(i + 1).last() == (ops@[i as int].0@, ops@[i as int].1@));
        assert(out@ =~= before + dry_run_block(i as int, ops@[i as int].0@, ops@[i as int].1@));
        i = i + 1;
    }
    assert(pv.take(ops.len() as int) =~= pv);
    out
}

} // verus!

verus! {

/// Table columns line up: a cell of width `w >= 3` is exactly `w`
/// characters, and a value that fits is shown whole.
pub proof fn lemma_column_width(s: Seq<char>, w: int)
    requires
        w >= 3,
    ensures
        column(s, w).len() == w,
        s.len() <= w ==> column(s, w).take(s.len() as int) == s,
        s.len() > w ==> column(s, w) == s.take(w - 3) + "..."@,
{
    reveal_strlit("...");
    if s.len() <= w {
        assert(column(s, w).take(s.len() as int) =~= s);
    }
}

/// A cut value is never longer than the limit, save the three dots when the
/// limit is below three.
pub proof fn lemma_truncated_len(s: Seq<char>, max: int)
    requires
        max >= 0,
    ensures
        truncated(s, max).len() <= (if max >= 3 { max } else { 3 }),
        s.len() <= max ==> truncated(s, max) == s,
{
    reveal_strlit("...");
}

/// The field column of an object table is as wide as the longest key, in
/// bytes, and never narrower than 5: the width is at least 5 and at least
/// every key's length, and it is 5 or some key's length.
pub proof fn lemma_key_width_is_longest(es: Seq<(Seq<char>, JsonView)>)
    ensures
        key_width(es) >= 5,
        forall|i: int| 0 <= i < es.len() ==> key_width(es) >= byte_len(#[trigger] es[i].0),
        key_width(es) == 5 || exists|i: int| 0 <= i < es.len() && key_width(es) == byte_len(
            #[trigger] es[i].0,
        ),
    decreases es.len(),
{
    if es.len() > 0 {
        let prev = es.drop_last();
        lemma_key_width_is_longest(prev);
        assert forall|i: int| 0 <= i < es.len() implies key_width(es) >= byte_len(#[trigger] es[i].0) by {
            if i < prev.len() {
                assert(prev[i] == es[i]);
            }
        }
        if key_width(es) != 5 {
            if key_width(es) == byte_len(es.last().0) {
                assert(es[es.len() - 1] == es.last());
            } else {
                let j = choose|j: int| 0 <= j < prev.len() && key_width(prev) == byte_len(#[trigger] prev[j].0);
                assert(prev[j] == es[j]);
            }
        }
    }
}

proof fn lemma_chars_within_bytes(s: Seq<char>)
    ensures
        s.len() <= vstd::utf8::encode_utf8(s).len(),
    decreases s.len(),
{
    if s.len() > 0 {
        lemma_chars_within_bytes(s.drop_first());
        assert(vstd::utf8::encode_scalar(s[0] as u32).len() >= 1);
    }
}

/// The field table lines up: every key, and the `FIELD` heading, fills the
/// field column exactly, so every value starts in the same column (keys
/// being real strings, whose UTF-8 length fits in a `usize`).
pub proof fn lemma_object_rows_aligned(es: Seq<(Seq<char>, JsonView)>)
    requires
        forall|i: int| 0 <= i < es.len() ==> vstd::utf8::encode_utf8(#[trigger] es[i].0).len() <= usize::MAX,
    ensures
        pad("FIELD"@, key_width(es)).len() == key_width(es),
        forall|i: int| 0 <= i < es.len() ==> pad(#[trigger] es[i].0, key_width(es)).len() == key_width(es),
{
    lemma_key_width_is_longest(es);
    reveal_strlit("FIELD");
    assert forall|i: int| 0 <= i < es.len() implies pad(#[trigger] es[i].0, key_width(es)).len() == key_width(es) by {
        lemma_chars_within_bytes(es[i].0);
        assert(byte_len(es[i].0) == vstd::utf8::encode_utf8(es[i].0).len());
    }
}

} // verus!
