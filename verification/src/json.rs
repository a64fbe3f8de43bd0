use vstd::prelude::*;
use vstd::string::*;

use crate::text::{chars_of, parse_i64, parse_i64_spec, push_char, append_str};

verus! {

/// A JSON value as the library builds and reads it.
///
/// A number is held as the text that JSON writes for it. An array or an
/// object that arrived from outside carries its compact JSON text as it was
/// written (`Some`); one that the library builds carries none.
#[derive(Debug, PartialEq)]
pub enum JsonValue {
    Null,
    Bool(bool),
    Number(String),
    Str(String),
    Array(Vec<JsonValue>, Option<String>),
    Object(Vec<(String, JsonValue)>, Option<String>),
}

/// The mathematical form of a [`JsonValue`].
pub enum JsonView {
    Null,
    Bool(bool),
    Number(Seq<char>),
    Str(Seq<char>),
    Array(Seq<JsonView>, Option<Seq<char>>),
    Object(Seq<(Seq<char>, JsonView)>, Option<Seq<char>>),
}

pub open spec fn opt_text(t: Option<String>) -> Option<Seq<char>> {
    match t {
        Some(s) => Some(s@),
        None => None,
    }
}

/// The views of `items`, in order.
pub open spec fn values_view(items: Seq<JsonValue>) -> Seq<JsonView>
    decreases items,
{
    if items.len() == 0 {
        Seq::empty()
    } else {
        values_view(items.drop_last()).push(json_view(items.last()))
    }
}

/// The views of object entries, in order.
pub open spec fn entries_view(entries: Seq<(String, JsonValue)>) -> Seq<(Seq<char>, JsonView)>
    decreases entries,
{
    if entries.len() == 0 {
        Seq::empty()
    } else {
        entries_view(entries.drop_last()).push((entries.last().0@, json_view(entries.last().1)))
    }
}

pub broadcast proof fn lemma_values_view(items: Seq<JsonValue>)
    ensures
        #[trigger] values_view(items).len() == items.len(),
        forall|i: int| 0 <= i < items.len() ==> values_view(items)[i] == #[trigger] items[i]@,
    decreases items.len(),
{
    if items.len() > 0 {
        lemma_values_view(items.drop_last());
        assert forall|i: int| 0 <= i < items.len() implies values_view(items)[i] == #[trigger] items[i]@ by {
            if i < items.len() - 1 {
                assert(items.drop_last()[i] == items[i]);
            }
        }
    }
}

pub broadcast proof fn lemma_entries_view(entries: Seq<(String, JsonValue)>)
    ensures
        #[trigger] entries_view(entries).len() == entries.len(),
        forall|i: int|
            0 <= i < entries.len() ==> entries_view(entries)[i] == (
                #[trigger] entries[i].0@,
                entries[i].1@,
            ),
    decreases entries.len(),
{
    if entries.len() > 0 {
        lemma_entries_view(entries.drop_last());
        assert forall|i: int| 0 <= i < entries.len() implies entries_view(entries)[i] == (
            #[trigger] entries[i].0@,
            entries[i].1@,
        ) by {
            if i < entries.len() - 1 {
                assert(entries.drop_last()[i] == entries[i]);
            }
        }
    }
}

/// The view of one value.
pub open spec fn json_view(v: JsonValue) -> JsonView
    decreases v,
{
    match v {
        JsonValue::Null => JsonView::Null,
        JsonValue::Bool(b) => JsonView::Bool(b),
        JsonValue::Number(t) => JsonView::Number(t@),
        JsonValue::Str(s) => JsonView::Str(s@),
        JsonValue::Array(items, t) => JsonView::Array(values_view(items@), opt_text(t)),
        JsonValue::Object(entries, t) => JsonView::Object(entries_view(entries@), opt_text(t)),
    }
}

impl View for JsonValue {
    type V = JsonView;

    open spec fn view(&self) -> JsonView {
        json_view(*self)
    }
}

/// The value of the first entry named `key` (`Map::get` on a map without
/// repeated keys).
pub open spec fn entries_get(es: Seq<(Seq<char>, JsonView)>, key: Seq<char>) -> Option<JsonView>
    decreases es.len(),
{
    if es.len() == 0 {
        None
    } else if es[0].0 == key {
        Some(es[0].1)
    } else {
        entries_get(es.drop_first(), key)
    }
}

/// `Value::get(key)`: the member `key` of an object; `None` for anything else.
pub open spec fn json_get(v: JsonView, key: Seq<char>) -> Option<JsonView> {
    match v {
        JsonView::Object(es, _) => entries_get(es, key),
        _ => None,
    }
}

/// `Value::as_str`.
pub open spec fn json_as_str(v: Option<JsonView>) -> Option<Seq<char>> {
    match v {
        Some(JsonView::Str(s)) => Some(s),
        _ => None,
    }
}

/// `Value::as_bool`.
pub open spec fn json_as_bool(v: Option<JsonView>) -> Option<bool> {
    match v {
        Some(JsonView::Bool(b)) => Some(b),
        _ => None,
    }
}

/// `Value::as_array`.
pub open spec fn json_as_array(v: Option<JsonView>) -> Option<Seq<JsonView>> {
    match v {
        Some(JsonView::Array(items, _)) => Some(items),
        _ => None,
    }
}

/// `Value::as_i64`: a number written as an integer that fits in an `i64`.
pub open spec fn json_as_i64(v: Option<JsonView>) -> Option<int> {
    match v {
        Some(JsonView::Number(t)) => parse_i64_spec(t),
        _ => None,
    }
}

/// The string `s` as a JSON string literal, escaped as `serde_json` writes it.
pub open spec fn escaped_char(c: char) -> Seq<char> {
    if c == '"' {
        seq!['\\', '"']
    } else if c == '\\' {
        seq!['\\', '\\']
    } else if c == '\u{8}' {
        seq!['\\', 'b']
    } else if c == '\u{9}' {
        seq!['\\', 't']
    } else if c == '\u{a}' {
        seq!['\\', 'n']
    } else if c == '\u{c}' {
        seq!['\\', 'f']
    } else if c == '\u{d}' {
        seq!['\\', 'r']
    } else if (c as u32) < 0x20 {
        seq!['\\', 'u', '0', '0', hex_digit((c as u32) / 16), hex_digit((c as u32) % 16)]
    } else {
        seq![c]
    }
}

pub open spec fn hex_digit(d: u32) -> char {
    if d < 10 {
        (48 + d) as char
    } else {
        (87 + d) as char
    }
}

pub open spec fn escaped(s: Seq<char>) -> Seq<char>
    decreases s.len(),
{
    if s.len() == 0 {
        Seq::empty()
    } else {
        escaped(s.drop_last()) + escaped_char(s.last())
    }
}

/// Rust's order of strings: lexicographic by character (the byte order of
/// their UTF-8, in which `serde_json` keeps an object's keys).
pub open spec fn key_less(a: Seq<char>, b: Seq<char>) -> bool
    decreases a.len(),
{
    if a.len() == 0 {
        b.len() > 0
    } else if b.len() == 0 {
        false
    } else if a[0] != b[0] {
        (a[0] as u32) < (b[0] as u32)
    } else {
        key_less(a.drop_first(), b.drop_first())
    }
}

/// The members of a key-ordered map after inserting `k` with `v`: a member
/// with key `k` takes the new value, else `k` goes in its place in order.
pub open spec fn map_insert<V>(m: Seq<(Seq<char>, V)>, k: Seq<char>, v: V) -> Seq<(Seq<char>, V)>
    decreases m.len(),
{
    if m.len() == 0 {
        seq![(k, v)]
    } else if m[0].0 == k {
        seq![(k, v)] + m.drop_first()
    } else if key_less(k, m[0].0) {
        seq![(k, v)] + m
    } else {
        seq![m[0]] + map_insert(m.drop_first(), k, v)
    }
}

/// The key-ordered map that inserting `entries` in turn builds.
pub open spec fn map_of<V>(entries: Seq<(Seq<char>, V)>) -> Seq<(Seq<char>, V)>
    decreases entries.len(),
{
    if entries.len() == 0 {
        Seq::empty()
    } else {
        map_insert(map_of(entries.drop_last()), entries.last().0, entries.last().1)
    }
}

/// The compact JSON text of a value (`Value::to_string`): an array or an
/// object that carries the text it arrived with is that text; one the
/// library built is written out, an object's members in key order.
pub open spec fn json_text(v: JsonView) -> Seq<char>
    decreases v,
{
    match v {
        JsonView::Null => "null"@,
        JsonView::Bool(b) => if b {
            "true"@
        } else {
            "false"@
        },
        JsonView::Number(t) => t,
        JsonView::Str(s) => seq!['"'] + escaped(s) + seq!['"'],
        JsonView::Array(items, t) => match t {
            Some(t) => t,
            None => seq!['['] + items_text(items) + seq![']'],
        },
        JsonView::Object(es, t) => match t {
            Some(t) => t,
            None => seq!['{'] + members_text(map_of(member_texts(es))) + seq!['}'],
        },
    }
}

/// The texts of `items`, separated by commas.
pub open spec fn items_text(items: Seq<JsonView>) -> Seq<char>
    decreases items,
{
    if items.len() == 0 {
        Seq::empty()
    } else if items.len() == 1 {
        json_text(items[0])
    } else {
        items_text(items.drop_last()) + seq![','] + json_text(items.last())
    }
}

/// Each entry's key with the text of its value, in order.
pub open spec fn member_texts(es: Seq<(Seq<char>, JsonView)>) -> Seq<(Seq<char>, Seq<char>)>
    decreases es,
{
    if es.len() == 0 {
        Seq::empty()
    } else {
        member_texts(es.drop_last()).push((es.last().0, json_text(es.last().1)))
    }
}

/// One member of an object's text: `"key":value`.
pub open spec fn member_text(m: (Seq<char>, Seq<char>)) -> Seq<char> {
    seq!['"'] + escaped(m.0) + seq!['"', ':'] + m.1
}

/// Members separated by commas.
pub open spec fn members_text(ms: Seq<(Seq<char>, Seq<char>)>) -> Seq<char>
    decreases ms.len(),
{
    if ms.len() == 0 {
        Seq::empty()
    } else if ms.len() == 1 {
        member_text(ms[0])
    } else {
        members_text(ms.drop_last()) + seq![','] + member_text(ms.last())
    }
}

impl JsonValue {
    /// A string value.
    pub fn string(s: &str) -> (r: JsonValue)
        ensures
            r@ == JsonView::Str(s@),
    {
        JsonValue::Str(String::from_str(s))
    }

    /// An object the library builds from `entries`.
    pub fn object(entries: Vec<(String, JsonValue)>) -> (r: JsonValue)
        ensures
            r@ == JsonView::Object(entries_view(entries@), None),
    {
        JsonValue::Object(entries, None)
    }

    /// An array the library builds from `items`.
    pub fn array(items: Vec<JsonValue>) -> (r: JsonValue)
        ensures
            r@ == JsonView::Array(values_view(items@), None),
    {
        JsonValue::Array(items, None)
    }

    /// The member `key` of an object (`Value::get`).
    pub fn get(&self, key: &str) -> (r: Option<&JsonValue>)
        ensures
            match r {
                Some(x) => json_get(self@, key@) == Some(x@),
                None => json_get(self@, key@) is None,
            },
    {
        match self {
            JsonValue::Object(entries, t) => {
                let ghost es = entries_view(entries@);
                proof {
                    lemma_entries_view(entries@);
                }
                let mut i: usize = 0;
                assert(es.skip(0) =~= es);
                while i < entries.len()
                    invariant
                        i <= entries.len(),
                        es == entries_view(entries@),
                        es.len() == entries.len(),
                        forall|j: int| 0 <= j < entries.len() ==> es[j] == (#[trigger] entries@[j].0@, entries@[j].1@),
                        json_get(self@, key@) == entries_get(es, key@),
                        entries_get(es, key@) == entries_get(es.skip(i as int), key@),
                    decreases entries.len() - i,
                {
                    assert(es.skip(i as int)[0] == (entries@[i as int].0@, entries@[i as int].1@));
                    if crate::text::str_equal(entries[i].0.as_str(), key) {
                        return Some(&entries[i].1);
                    }
                    assert(es.skip(i as int).drop_first() =~= es.skip(i + 1));
                    i = i + 1;
                }
                None
            },
            _ => None,
        }
    }

    /// `Value::as_str`.
    pub fn as_str(&self) -> (r: Option<&str>)
        ensures
            match r {
                Some(s) => json_as_str(Some(self@)) == Some(s@),
                None => json_as_str(Some(self@)) is None,
            },
    {
        match self {
            JsonValue::Str(s) => Some(s.as_str()),
            _ => None,
        }
    }

    /// `Value::as_bool`.
    pub fn as_bool(&self) -> (r: Option<bool>)
        ensures
            r == json_as_bool(Some(self@)),
    {
        match self {
            JsonValue::Bool(b) => Some(*b),
            _ => None,
        }
    }

    /// `Value::as_array`.
    pub fn as_array(&self) -> (r: Option<&Vec<JsonValue>>)
        ensures
            match r {
                Some(items) => json_as_array(Some(self@)) == Some(values_view(items@)),
                None => json_as_array(Some(self@)) is None,
            },
    {
        match self {
            JsonValue::Array(items, t) => {
                Some(items)
            },
            _ => None,
        }
    }

    /// `Value::as_i64`.
    pub fn as_i64(&self) -> (r: Option<i64>)
        ensures
            match r {
                Some(v) => json_as_i64(Some(self@)) == Some(v as int),
                None => json_as_i64(Some(self@)) is None,
            },
    {
        match self {
            JsonValue::Number(t) => {
                let chars = chars_of(t.as_str());
                assert(chars@.subrange(0, chars.len() as int) =~= t@);
                parse_i64(&chars, 0, chars.len())
            },
            _ => None,
        }
    }
}

} // verus!

verus! {

fn clone_text(t: &Option<String>) -> (r: Option<String>)
    ensures
        opt_text(r) == opt_text(*t),
{
    match t {
        Some(s) => Some(s.clone()),
        None => None,
    }
}

/// A copy of `v`.
pub fn clone_json(v: &JsonValue) -> (r: JsonValue)
    ensures
        r@ == v@,
    decreases v,
{
    match v {
        JsonValue::Null => JsonValue::Null,
        JsonValue::Bool(b) => JsonValue::Bool(*b),
        JsonValue::Number(t) => JsonValue::Number(t.clone()),
        JsonValue::Str(s) => JsonValue::Str(s.clone()),
        JsonValue::Array(items, t) => {
            let mut out: Vec<JsonValue> = Vec::new();
            let mut i: usize = 0;
            while i < items.len()
                invariant
                    i <= items.len(),
                    values_view(out@) == values_view(items@.take(i as int)),
                    *v == JsonValue::Array(*items, *t),
                decreases items.len() - i,
            {
                assert(decreases_to!(*v => v->Array_0));
                assert(decreases_to!(*items => items@));
                assert(decreases_to!(items@ => items@[i as int]));
                let x = clone_json(&items[i]);
                let ghost before = out@;
                out.push(x);
                assert(out@.drop_last() =~= before);
                assert(items@.take(i + 1).drop_last() =~= items@.take(i as int));
                i = i + 1;
            }
            assert(items@.take(items.len() as int) =~= items@);
            JsonValue::Array(out, clone_text(t))
        },
        JsonValue::Object(entries, t) => {
            let mut out: Vec<(String, JsonValue)> = Vec::new();
            let mut i: usize = 0;
            while i < entries.len()
                invariant
                    i <= entries.len(),
                    entries_view(out@) == entries_view(entries@.take(i as int)),
                    *v == JsonValue::Object(*entries, *t),
                decreases entries.len() - i,
            {
                assert(decreases_to!(*v => v->Object_0));
                assert(decreases_to!(*entries => entries@));
                assert(decreases_to!(entries@ => entries@[i as int]));
                assert(decreases_to!(entries@[i as int] => entries@[i as int].1));
                let x = clone_json(&entries[i].1);
                let k = entries[i].0.clone();
                let ghost before = out@;
                out.push((k, x));
                assert(out@.drop_last() =~= before);
                assert(entries@.take(i + 1).drop_last() =~= entries@.take(i as int));
                i = i + 1;
            }
            assert(entries@.take(entries.len() as int) =~= entries@);
            JsonValue::Object(out, clone_text(t))
        },
    }
}

} // verus!

verus! {

/// The value that `Value::pointer` reaches from `v` through the object keys
/// `keys`, in order.
pub open spec fn json_path(v: JsonView, keys: Seq<Seq<char>>) -> Option<JsonView>
    decreases keys.len(),
{
    if keys.len() == 0 {
        Some(v)
    } else {
        match json_path(v, keys.drop_last()) {
            None => None,
            Some(x) => json_get(x, keys.last()),
        }
    }
}

/// `data.issues` of a response.
pub open spec fn data_member(response: JsonView, key: Seq<char>) -> Option<JsonView> {
    json_path(response, seq!["data"@, key])
}

/// The member `key` of the member `data` (`pointer("/data/<key>")`).
pub fn get_data_member<'a>(response: &'a JsonValue, key: &str) -> (r: Option<&'a JsonValue>)
    ensures
        match r {
            Some(x) => data_member(response@, key@) == Some(x@),
            None => data_member(response@, key@) is None,
        },
{
    let ghost keys = seq!["data"@, key@];
    reveal_with_fuel(json_path, 3);
    assert(keys.drop_last().drop_last() =~= Seq::<Seq<char>>::empty());
    assert(keys.drop_last() =~= seq!["data"@]);
    match response.get("data") {
        Some(data) => data.get(key),
        None => None,
    }
}

/// The first element of an array, or the member `"0"` of an object, as
/// `pointer` reads the token `0`.
pub open spec fn json_first(v: JsonView) -> Option<JsonView> {
    match v {
        JsonView::Array(items, _) => if items.len() > 0 {
            Some(items[0])
        } else {
            None
        },
        JsonView::Object(es, _) => entries_get(es, "0"@),
        _ => None,
    }
}

pub fn get_first(v: &JsonValue) -> (r: Option<&JsonValue>)
    ensures
        match r {
            Some(x) => json_first(v@) == Some(x@),
            None => json_first(v@) is None,
        },
{
    match v {
        JsonValue::Array(items, _) => {
            proof {
                lemma_values_view(items@);
            }
            if items.len() > 0 {
                Some(&items[0])
            } else {
                None
            }
        },
        JsonValue::Object(_, _) => v.get("0"),
        _ => None,
    }
}

} // verus!

verus! {

fn push_escaped_char(out: &mut String, c: char)
    ensures
        final(out)@ == old(out)@ + escaped_char(c),
{
    if c == '"' {
        push_char(out, '\\');
        push_char(out, '"');
    } else if c == '\\' {
        push_char(out, '\\');
        push_char(out, '\\');
    } else if c == '\u{8}' {
        push_char(out, '\\');
        push_char(out, 'b');
    } else if c == '\u{9}' {
        push_char(out, '\\');
        push_char(out, 't');
    } else if c == '\u{a}' {
        push_char(out, '\\');
        push_char(out, 'n');
    } else if c == '\u{c}' {
        push_char(out, '\\');
        push_char(out, 'f');
    } else if c == '\u{d}' {
        push_char(out, '\\');
        push_char(out, 'r');
    } else if (c as u32) < 0x20 {
        let code: u8 = c as u8;
        let hi: u8 = code / 16;
        let lo: u8 = code % 16;
        let hc: char = if hi < 10 { (48 + hi) as char } else { (87 + hi) as char };
        let lc: char = if lo < 10 { (48 + lo) as char } else { (87 + lo) as char };
        push_char(out, '\\');
        push_char(out, 'u');
        push_char(out, '0');
        push_char(out, '0');
        push_char(out, hc);
        push_char(out, lc);
    } else {
        push_char(out, c);
    }
    assert(final(out)@ =~= old(out)@ + escaped_char(c));
}

/// Appends `s` escaped as in a JSON string.
fn push_escaped_str(out: &mut String, s: &str)
    ensures
        final(out)@ == old(out)@ + escaped(s@),
{
    let chars = chars_of(s);
    let mut i: usize = 0;
    while i < chars.len()
        invariant
            i <= chars.len(),
            chars@ == s@,
            out@ == old(out)@ + escaped(s@.take(i as int)),
        decreases chars.len() - i,
    {
        assert(s@.take(i + 1).drop_last() =~= s@.take(i as int));
        push_escaped_char(out, chars[i]);
        i = i + 1;
        assert(out@ =~= old(out)@ + escaped(s@.take(i as int)));
    }
    assert(s@.take(chars.len() as int) =~= s@);
}

/// Whether `a` comes before `b` in Rust's order of strings.
pub fn str_less(a: &str, b: &str) -> (r: bool)
    ensures
        r == key_less(a@, b@),
{
    let ca = chars_of(a);
    let cb = chars_of(b);
    let mut i: usize = 0;
    assert(a@.skip(0) =~= a@ && b@.skip(0) =~= b@);
    while i < ca.len() && i < cb.len()
        invariant
            ca@ == a@,
            cb@ == b@,
            i <= ca.len(),
            i <= cb.len(),
            key_less(a@, b@) == key_less(a@.skip(i as int), b@.skip(i as int)),
        decreases ca.len() - i,
    {
        if ca[i] != cb[i] {
            return (ca[i] as u32) < (cb[i] as u32);
        }
        assert(a@.skip(i as int).drop_first() =~= a@.skip(i + 1));
        assert(b@.skip(i as int).drop_first() =~= b@.skip(i + 1));
        i = i + 1;
    }
    i == ca.len() && i < cb.len()
}

/// The characters of each pair of strings.
pub open spec fn pairs_view(ps: Seq<(String, String)>) -> Seq<(Seq<char>, Seq<char>)> {
    ps.map_values(|p: (String, String)| (p.0@, p.1@))
}

/// Appends copies of `m[from..]` to `out`.
fn push_pairs_from(out: &mut Vec<(String, String)>, m: &Vec<(String, String)>, from: usize)
    requires
        from <= m.len(),
    ensures
        pairs_view(final(out)@) == pairs_view(old(out)@) + pairs_view(m@).skip(from as int),
{
    let mut i = from;
    while i < m.len()
        invariant
            from <= i <= m.len(),
            pairs_view(out@) == pairs_view(old(out)@) + pairs_view(m@).subrange(from as int, i as int),
        decreases m.len() - i,
    {
        let ghost before = out@;
        out.push((m[i].0.clone(), m[i].1.clone()));
        assert(pairs_view(out@) =~= pairs_view(before).push((m@[i as int].0@, m@[i as int].1@)));
        assert(pairs_view(m@).subrange(from as int, i + 1) =~= pairs_view(m@).subrange(
            from as int,
            i as int,
        ).push((m@[i as int].0@, m@[i as int].1@)));
        i = i + 1;
    }
    assert(pairs_view(m@).subrange(from as int, m.len() as int) =~= pairs_view(m@).skip(from as int));
}

/// `m` with `k` set to `v`, in key order.
fn map_insert_pairs(m: &Vec<(String, String)>, k: &str, v: &str) -> (r: Vec<(String, String)>)
    ensures
        pairs_view(r@) == map_insert(pairs_view(m@), k@, v@),
{
    let ghost mv = pairs_view(m@);
    let mut out: Vec<(String, String)> = Vec::new();
    let mut i: usize = 0;
    assert(mv.skip(0) =~= mv);
    assert(pairs_view(out@) =~= mv.take(0));
    while i < m.len()
        invariant
            i <= m.len(),
            mv == pairs_view(m@),
            mv.len() == m.len(),
            pairs_view(out@) == mv.take(i as int),
            map_insert(mv, k@, v@) == mv.take(i as int) + map_insert(mv.skip(i as int), k@, v@),
        decreases m.len() - i,
    {
        let ghost rest = mv.skip(i as int);
        assert(rest[0] == (m@[i as int].0@, m@[i as int].1@));
        if crate::text::str_equal(m[i].0.as_str(), k) {
            out.push((String::from_str(k), String::from_str(v)));
            push_pairs_from(&mut out, m, i + 1);
            assert(rest.drop_first() =~= mv.skip(i + 1));
            assert(pairs_view(out@) =~= map_insert(mv, k@, v@));
            return out;
        }
        if str_less(k, m[i].0.as_str()) {
            out.push((String::from_str(k), String::from_str(v)));
            push_pairs_from(&mut out, m, i);
            assert(pairs_view(out@) =~= map_insert(mv, k@, v@));
            return out;
        }
        let ghost before = out@;
        out.push((m[i].0.clone(), m[i].1.clone()));
        assert(pairs_view(out@) =~= pairs_view(before).push(rest[0]));
        assert(rest.drop_first() =~= mv.skip(i + 1));
        assert(mv.take(i + 1) =~= mv.take(i as int).push(rest[0]));
        assert(map_insert(mv, k@, v@) =~= mv.take(i + 1) + map_insert(mv.skip(i + 1), k@, v@));
        i = i + 1;
    }
    let ghost before = out@;
    out.push((String::from_str(k), String::from_str(v)));
    assert(mv.take(m.len() as int) =~= mv);
    assert(mv.skip(m.len() as int) =~= Seq::<(Seq<char>, Seq<char>)>::empty());
    assert(pairs_view(out@) =~= pairs_view(before).push((k@, v@)));
    assert(pairs_view(out@) =~= map_insert(mv, k@, v@));
    out
}

/// The compact JSON text of `v` (`Value::to_string`).
pub fn compact_text(v: &JsonValue) -> (r: String)
    ensures
        r@ == json_text(v@),
    decreases v,
{
    match v {
        JsonValue::Null => String::from_str("null"),
        JsonValue::Bool(b) => if *b {
            String::from_str("true")
        } else {
            String::from_str("false")
        },
        JsonValue::Number(t) => t.clone(),
        JsonValue::Str(s) => {
            let mut out = String::new();
            push_char(&mut out, '"');
            push_escaped_str(&mut out, s.as_str());
            push_char(&mut out, '"');
            out
        },
        JsonValue::Array(items, t) => match t {
            Some(text) => text.clone(),
            None => {
                proof {
                    lemma_values_view(items@);
                }
                let ghost iv = values_view(items@);
                let mut out = String::new();
                let mut i: usize = 0;
                while i < items.len()
                    invariant
                        i <= items.len(),
                        iv == values_view(items@),
                        iv.len() == items.len(),
                        forall|j: int| 0 <= j < items.len() ==> iv[j] == #[trigger] items@[j]@,
                        *v == JsonValue::Array(*items, *t),
                        out@ == items_text(iv.take(i as int)),
                    decreases items.len() - i,
                {
                    assert(decreases_to!(*v => v->Array_0));
                    assert(decreases_to!(*items => items@));
                    assert(decreases_to!(items@ => items@[i as int]));
                    let c = compact_text(&items[i]);
                    let ghost tk = iv.take(i + 1);
                    assert(tk.drop_last() =~= iv.take(i as int));
                    assert(tk.last() == items@[i as int]@);
                    if i > 0 {
                        push_char(&mut out, ',');
                    } else {
                        assert(tk =~= seq![items@[0]@]);
                    }
                    append_str(&mut out, c.as_str());
                    i = i + 1;
                }
                assert(iv.take(items.len() as int) =~= iv);
                let mut r = String::new();
                push_char(&mut r, '[');
                append_str(&mut r, out.as_str());
                push_char(&mut r, ']');
                r
            },
        },
        JsonValue::Object(entries, t) => match t {
            Some(text) => text.clone(),
            None => {
                proof {
                    lemma_entries_view(entries@);
                }
                let ghost ev = entries_view(entries@);
                let mut members: Vec<(String, String)> = Vec::new();
                let mut i: usize = 0;
                assert(pairs_view(members@) =~= map_of(member_texts(ev.take(0))));
                while i < entries.len()
                    invariant
                        i <= entries.len(),
                        ev == entries_view(entries@),
                        ev.len() == entries.len(),
                        forall|j: int|
                            0 <= j < entries.len() ==> ev[j] == (
                                #[trigger] entries@[j].0@,
                                entries@[j].1@,
                            ),
                        *v == JsonValue::Object(*entries, *t),
                        pairs_view(members@) == map_of(member_texts(ev.take(i as int))),
                    decreases entries.len() - i,
                {
                    assert(decreases_to!(*v => v->Object_0));
                    assert(decreases_to!(*entries => entries@));
                    assert(decreases_to!(entries@ => entries@[i as int]));
                    assert(decreases_to!(entries@[i as int] => entries@[i as int].1));
                    let text = compact_text(&entries[i].1);
                    let ghost tk = ev.take(i + 1);
                    assert(tk.drop_last() =~= ev.take(i as int));
                    assert(tk.last() == (entries@[i as int].0@, entries@[i as int].1@));
                    assert(member_texts(tk).drop_last() =~= member_texts(ev.take(i as int)));
                    members = map_insert_pairs(&members, entries[i].0.as_str(), text.as_str());
                    i = i + 1;
                }
                assert(ev.take(entries.len() as int) =~= ev);
                let ghost mv = pairs_view(members@);
                let mut out = String::new();
                push_char(&mut out, '{');
                let mut j: usize = 0;
                while j < members.len()
                    invariant
                        j <= members.len(),
                        mv == pairs_view(members@),
                        out@ == seq!['{'] + members_text(mv.take(j as int)),
                    decreases members.len() - j,
                {
                    let ghost tk = mv.take(j + 1);
                    assert(tk.drop_last() =~= mv.take(j as int));
                    assert(tk.last() == (members@[j as int].0@, members@[j as int].1@));
                    if j > 0 {
                        push_char(&mut out, ',');
                    } else {
                        assert(tk =~= seq![mv[0]]);
                    }
                    push_char(&mut out, '"');
                    push_escaped_str(&mut out, members[j].0.as_str());
                    push_char(&mut out, '"');
                    push_char(&mut out, ':');
                    append_str(&mut out, members[j].1.as_str());
                    j = j + 1;
                    assert(out@ =~= seq!['{'] + members_text(mv.take(j as int)));
                }
                assert(mv.take(members.len() as int) =~= mv);
                push_char(&mut out, '}');
                out
            },
        },
    }
}

} // verus!

verus! {

pub(crate) proof fn lemma_array_view_is(items: Vec<JsonValue>, t: Option<String>)
    ensures
        JsonValue::Array(items, t)@ == JsonView::Array(values_view(items@), opt_text(t)),
{
}

pub(crate) proof fn lemma_object_view_is(entries: Vec<(String, JsonValue)>, t: Option<String>)
    ensures
        JsonValue::Object(entries, t)@ == JsonView::Object(entries_view(entries@), opt_text(t)),
{
}

} // verus!
