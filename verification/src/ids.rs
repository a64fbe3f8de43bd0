use vstd::prelude::*;
use vstd::string::*;

use crate::text::{
    chars_of, is_space, join, string_from_range, trim, trim_bounds, trim_end, trim_start,
};

verus! {

/// Characters that separate issue IDs in an argument or on standard input.
pub open spec fn is_id_separator(c: char) -> bool {
    c == ',' || c == '\n' || c == '\r'
}

/// The pieces of `s` between characters that `sep` accepts, as
/// `str::split` yields them (the empty string gives one empty piece).
pub open spec fn split_on(s: Seq<char>, sep: spec_fn(char) -> bool) -> Seq<Seq<char>>
    decreases s.len(),
{
    if s.len() == 0 {
        seq![Seq::<char>::empty()]
    } else {
        let prev = split_on(s.drop_last(), sep);
        if sep(s.last()) {
            prev.push(Seq::<char>::empty())
        } else {
            prev.update(prev.len() - 1, prev.last().push(s.last()))
        }
    }
}

/// The pieces of `s` between commas and line breaks.
pub open spec fn split_pieces(s: Seq<char>) -> Seq<Seq<char>> {
    split_on(s, |c: char| is_id_separator(c))
}

pub open spec fn nonempty(p: Seq<char>) -> bool {
    p.len() > 0
}

/// Every piece trimmed.
pub open spec fn trim_all(pieces: Seq<Seq<char>>) -> Seq<Seq<char>> {
    pieces.map_values(|q: Seq<char>| trim(q))
}

/// The non-empty pieces, in order.
pub open spec fn keep_nonempty(pieces: Seq<Seq<char>>) -> Seq<Seq<char>> {
    pieces.filter(|q: Seq<char>| nonempty(q))
}

/// The IDs named by `s`: every piece trimmed, the blank ones left out.
pub open spec fn ids_of(s: Seq<char>) -> Seq<Seq<char>> {
    keep_nonempty(trim_all(split_pieces(s)))
}

pub open spec fn strings_view(v: Seq<String>) -> Seq<Seq<char>> {
    v.map_values(|x: String| x@)
}

proof fn lemma_trimmed_push(done: Seq<Seq<char>>, p: Seq<char>)
    ensures
        keep_nonempty(trim_all(done.push(p))) == (if nonempty(trim(p)) {
            keep_nonempty(trim_all(done)).push(trim(p))
        } else {
            keep_nonempty(trim_all(done))
        }),
{
    reveal(Seq::filter);
    let t = trim_all(done).push(trim(p));
    assert(trim_all(done.push(p)) =~= t);
    assert(t.drop_last() =~= trim_all(done));
}

/// Splits `input` at commas and line breaks, trims each piece and keeps the
/// non-blank ones; an input that names no ID is refused.
pub fn parse_ids_text(input: &str) -> (res: Result<Vec<String>, String>)
    ensures
        match res {
            Ok(ids) => strings_view(ids@) == ids_of(input@) && ids@.len() > 0,
            Err(msg) => ids_of(input@).len() == 0 && msg@ == "no issue IDs were provided"@,
        },
{
    let chars = chars_of(input);
    let n = chars.len();
    let mut out: Vec<String> = Vec::new();
    let mut start: usize = 0;
    let mut k: usize = 0;
    let ghost mut done: Seq<Seq<char>> = Seq::empty();
    proof {
        assert(input@.take(0) =~= Seq::<char>::empty());
        assert(chars@.subrange(0, 0) =~= Seq::<char>::empty());
        assert(done.push(Seq::<char>::empty()) =~= seq![Seq::<char>::empty()]);
        assert(trim_all(done) =~= Seq::<Seq<char>>::empty());
    }
    while k < n
        invariant
            chars@ == input@,
            n == chars.len(),
            start <= k <= n,
            split_pieces(input@.take(k as int)) == done.push(chars@.subrange(start as int, k as int)),
            strings_view(out@) == keep_nonempty(trim_all(done)),
        decreases n - k,
    {
        let c = chars[k];
        proof {
            assert(input@.take(k + 1).drop_last() =~= input@.take(k as int));
            assert(input@.take(k + 1).last() == c);
        }
        if c == ',' || c == '\n' || c == '\r' {
            let (i, j) = trim_bounds(&chars, start, k);
            let ghost piece = chars@.subrange(start as int, k as int);
            proof {
                lemma_trimmed_push(done, piece);
            }
            if i < j {
                let id = string_from_range(&chars, i, j);
                let ghost before = out@;
                out.push(id);
                proof {
                    assert(out@.drop_last() =~= before);
                    assert(strings_view(out@) =~= strings_view(before).push(id@));
                }
            }
            proof {
                done = done.push(piece);
                assert(chars@.subrange((k + 1) as int, (k + 1) as int) =~= Seq::<char>::empty());
            }
            start = k + 1;
        } else {
            proof {
                assert(chars@.subrange(start as int, (k + 1) as int) =~= chars@.subrange(
                    start as int,
                    k as int,
                ).push(c));
                assert(done.push(chars@.subrange(start as int, k as int)).update(
                    done.len() as int,
                    chars@.subrange(start as int, (k + 1) as int),
                ) =~= done.push(chars@.subrange(start as int, (k + 1) as int)));
            }
        }
        k = k + 1;
    }
    let (i, j) = trim_bounds(&chars, start, n);
    let ghost piece = chars@.subrange(start as int, n as int);
    proof {
        lemma_trimmed_push(done, piece);
        assert(input@.take(n as int) =~= input@);
    }
    if i < j {
        let id = string_from_range(&chars, i, j);
        let ghost before = out@;
        out.push(id);
        proof {
            assert(out@.drop_last() =~= before);
            assert(strings_view(out@) =~= strings_view(before).push(id@));
        }
    }
    if out.len() == 0 {
        return Err(String::from_str("no issue IDs were provided"));
    }
    Ok(out)
}

} // verus!

verus! {

/// The IDs read from standard input; an input that names none is refused
/// with a message about standard input.
pub fn ids_from_stdin(input: &str) -> (res: Result<Vec<String>, String>)
    ensures
        match res {
            Ok(ids) => strings_view(ids@) == ids_of(input@) && ids@.len() > 0,
            Err(msg) => ids_of(input@).len() == 0 && msg@ == "stdin did not contain any issue IDs"@,
        },
{
    match parse_ids_text(input) {
        Ok(ids) => Ok(ids),
        Err(_) => Err(String::from_str("stdin did not contain any issue IDs")),
    }
}

} // verus!

verus! {

proof fn lemma_trim_start_is_suffix(s: Seq<char>)
    ensures
        exists|i: int| 0 <= i <= s.len() && trim_start(s) == s.skip(i),
        trim_start(s).len() > 0 ==> !is_space(trim_start(s)[0]),
    decreases s.len(),
{
    if s.len() > 0 && is_space(s[0]) {
        lemma_trim_start_is_suffix(s.drop_first());
        let i = choose|i: int| 0 <= i <= s.drop_first().len() && trim_start(s.drop_first()) == s.drop_first().skip(i);
        assert(s.drop_first().skip(i) =~= s.skip(i + 1));
    } else {
        assert(s.skip(0) =~= s);
    }
}

proof fn lemma_trim_end_is_prefix(s: Seq<char>)
    ensures
        exists|j: int| 0 <= j <= s.len() && trim_end(s) == s.take(j),
        trim_end(s).len() > 0 ==> !is_space(trim_end(s).last()),
        s.len() > 0 && !is_space(s[0]) ==> trim_end(s).len() > 0 && !is_space(trim_end(s)[0]),
    decreases s.len(),
{
    if s.len() > 0 && is_space(s.last()) {
        lemma_trim_end_is_prefix(s.drop_last());
        let j = choose|j: int| 0 <= j <= s.drop_last().len() && trim_end(s.drop_last()) == s.drop_last().take(j);
        assert(s.drop_last().take(j) =~= s.take(j));
        if s.len() > 0 && !is_space(s[0]) {
            assert(s.drop_last().len() > 0);
            assert(s.drop_last()[0] == s[0]);
        }
    } else {
        assert(s.take(s.len() as int) =~= s);
    }
}

/// Every piece of a split holds no separator.
proof fn lemma_split_on_no_sep(s: Seq<char>, sep: spec_fn(char) -> bool)
    ensures
        split_on(s, sep).len() >= 1,
        forall|i: int, k: int|
            0 <= i < split_on(s, sep).len() && 0 <= k < split_on(s, sep)[i].len() ==> !sep(
                #[trigger] split_on(s, sep)[i][k],
            ),
    decreases s.len(),
{
    if s.len() > 0 {
        lemma_split_on_no_sep(s.drop_last(), sep);
        let prev = split_on(s.drop_last(), sep);
        if !sep(s.last()) {
            assert forall|i: int, k: int|
                0 <= i < split_on(s, sep).len() && 0 <= k < split_on(s, sep)[i].len() implies !sep(
                #[trigger] split_on(s, sep)[i][k],
            ) by {
                if i == prev.len() - 1 && k < prev.last().len() {
                    assert(split_on(s, sep)[i][k] == prev[i][k]);
                } else if i < prev.len() - 1 {
                    assert(split_on(s, sep)[i] == prev[i]);
                }
            }
        } else {
            assert forall|i: int, k: int|
                0 <= i < split_on(s, sep).len() && 0 <= k < split_on(s, sep)[i].len() implies !sep(
                #[trigger] split_on(s, sep)[i][k],
            ) by {
                assert(split_on(s, sep)[i] == prev[i]);
            }
        }
    }
}

/// Every ID that `parse_ids_text` gives is non-empty, carries no white space
/// at either end, and holds no comma or line break: the input is cut at
/// every separator and each piece trimmed.
pub proof fn lemma_ids_are_clean(s: Seq<char>)
    ensures
        forall|i: int|
            0 <= i < ids_of(s).len() ==> {
                let id = #[trigger] ids_of(s)[i];
                &&& id.len() > 0
                &&& !is_space(id[0])
                &&& !is_space(id.last())
                &&& forall|k: int| 0 <= k < id.len() ==> !is_id_separator(id[k])
            },
{
    let sep = |c: char| is_id_separator(c);
    let pieces = split_pieces(s);
    lemma_split_on_no_sep(s, sep);
    let trimmed = trim_all(pieces);
    assert forall|i: int| 0 <= i < trimmed.len() implies {
        let t = #[trigger] trimmed[i];
        &&& (t.len() > 0 ==> !is_space(t[0]) && !is_space(t.last()))
        &&& forall|k: int| 0 <= k < t.len() ==> !is_id_separator(t[k])
    } by {
        let p = pieces[i];
        lemma_trim_start_is_suffix(p);
        let a = choose|a: int| 0 <= a <= p.len() && trim_start(p) == p.skip(a);
        lemma_trim_end_is_prefix(trim_start(p));
        let b = choose|b: int| 0 <= b <= trim_start(p).len() && trim_end(trim_start(p)) == trim_start(p).take(b);
        assert forall|k: int| 0 <= k < trimmed[i].len() implies !is_id_separator(trimmed[i][k]) by {
            assert(trimmed[i][k] == p[a + k]);
            assert(!sep(split_on(s, sep)[i][a + k]));
        }
    }
    lemma_keep_nonempty_members(trimmed);
}

/// What `keep_nonempty` keeps is non-empty and comes from its input.
pub(crate) proof fn lemma_keep_nonempty_members(ps: Seq<Seq<char>>)
    ensures
        forall|i: int|
            0 <= i < keep_nonempty(ps).len() ==> nonempty(#[trigger] keep_nonempty(ps)[i])
                && exists|j: int| 0 <= j < ps.len() && ps[j] == keep_nonempty(ps)[i],
    decreases ps.len(),
{
    reveal(Seq::filter);
    if ps.len() > 0 {
        lemma_keep_nonempty_members(ps.drop_last());
        let prev = keep_nonempty(ps.drop_last());
        assert(ps.drop_last().filter(|q: Seq<char>| nonempty(q)) == prev);
        assert forall|i: int| 0 <= i < keep_nonempty(ps).len() implies nonempty(
            #[trigger] keep_nonempty(ps)[i],
        ) && exists|j: int| 0 <= j < ps.len() && ps[j] == keep_nonempty(ps)[i] by {
            if i < prev.len() {
                assert(keep_nonempty(ps)[i] == prev[i]);
                let j = choose|j: int| 0 <= j < ps.drop_last().len() && ps.drop_last()[j] == prev[i];
                assert(ps[j] == prev[i]);
            } else {
                assert(keep_nonempty(ps)[i] == ps.last());
                assert(ps[ps.len() - 1] == ps.last());
            }
        }
    }
}

/// Splitting `x` followed by separator-free `y` extends the last piece of `x` by `y`.
proof fn lemma_split_extend(x: Seq<char>, y: Seq<char>, sep: spec_fn(char) -> bool)
    requires
        forall|k: int| 0 <= k < y.len() ==> !sep(#[trigger] y[k]),
    ensures
        split_on(x + y, sep) == split_on(x, sep).update(
            split_on(x, sep).len() - 1,
            split_on(x, sep).last() + y,
        ),
        split_on(x, sep).len() >= 1,
    decreases y.len(),
{
    lemma_split_on_no_sep(x, sep);
    if y.len() == 0 {
        assert(x + y =~= x);
        assert(split_on(x, sep).last() + y =~= split_on(x, sep).last());
        assert(split_on(x, sep).update(split_on(x, sep).len() - 1, split_on(x, sep).last())
            =~= split_on(x, sep));
    } else {
        let y0 = y.drop_last();
        lemma_split_extend(x, y0, sep);
        assert((x + y).drop_last() =~= x + y0);
        assert((x + y).last() == y.last());
        assert(!sep(y[y.len() - 1]));
        let prev = split_on(x + y0, sep);
        assert(split_on(x + y, sep) =~= prev.update(prev.len() - 1, prev.last().push(y.last())));
        assert(split_on(x, sep).last() + y =~= (split_on(x, sep).last() + y0).push(y.last()));
        assert(split_on(x + y, sep) =~= split_on(x, sep).update(
            split_on(x, sep).len() - 1,
            split_on(x, sep).last() + y,
        ));
    }
}

/// Whether `id` is as `parse_ids_text` gives IDs: non-empty, no white space
/// at either end, no separator inside.
pub open spec fn is_clean_id(id: Seq<char>) -> bool {
    &&& id.len() > 0
    &&& !is_space(id[0])
    &&& !is_space(id.last())
    &&& forall|k: int| 0 <= k < id.len() ==> !is_id_separator(#[trigger] id[k])
}

/// Joining separator-free pieces with separator `c` and splitting again
/// gives the pieces back.
proof fn lemma_split_join(ps: Seq<Seq<char>>, c: char)
    requires
        ps.len() >= 1,
        is_id_separator(c),
        forall|i: int| 0 <= i < ps.len() ==> is_clean_id(#[trigger] ps[i]),
    ensures
        split_pieces(join(ps, seq![c])) == ps,
    decreases ps.len(),
{
    let sep = |x: char| is_id_separator(x);
    if ps.len() == 1 {
        lemma_split_extend(Seq::empty(), ps[0], sep);
        assert(Seq::<char>::empty() + ps[0] =~= ps[0]);
        assert(split_on(Seq::<char>::empty(), sep) =~= seq![Seq::<char>::empty()]);
        assert(Seq::<char>::empty() + ps[0] =~= ps[0]);
        assert(split_pieces(ps[0]) =~= ps);
    } else {
        let prev = ps.drop_last();
        assert forall|i: int| 0 <= i < prev.len() implies is_clean_id(#[trigger] prev[i]) by {
            assert(prev[i] == ps[i]);
        }
        lemma_split_join(prev, c);
        let x = join(prev, seq![c]) + seq![c];
        assert(x.drop_last() =~= join(prev, seq![c]));
        assert(x.last() == c);
        assert(split_on(x, sep) =~= ps.drop_last().push(Seq::<char>::empty()));
        assert(is_clean_id(ps[ps.len() - 1]));
        lemma_split_extend(x, ps.last(), sep);
        assert(join(ps, seq![c]) =~= x + ps.last());
        assert(Seq::<char>::empty() + ps.last() =~= ps.last());
        assert(split_pieces(join(ps, seq![c])) =~= ps);
    }
}

proof fn lemma_clean_ids_keep(ps: Seq<Seq<char>>)
    requires
        forall|i: int| 0 <= i < ps.len() ==> is_clean_id(#[trigger] ps[i]),
    ensures
        keep_nonempty(trim_all(ps)) == ps,
    decreases ps.len(),
{
    reveal(Seq::filter);
    if ps.len() > 0 {
        let prev = ps.drop_last();
        assert forall|i: int| 0 <= i < prev.len() implies is_clean_id(#[trigger] prev[i]) by {
            assert(prev[i] == ps[i]);
        }
        lemma_clean_ids_keep(prev);
        let p = ps.last();
        assert(is_clean_id(ps[ps.len() - 1]));
        assert(trim_start(p) == p);
        assert(trim_end(p) == p);
        lemma_trimmed_push(prev, p);
        assert(prev.push(p) =~= ps);
    } else {
        assert(trim_all(ps) =~= Seq::<Seq<char>>::empty());
    }
}

/// Reading the IDs of `s` joined with the separator `c` gives them back.
proof fn lemma_ids_reparse_with(s: Seq<char>, c: char)
    requires
        c == ',' || c == '\n',
        ids_of(s).len() > 0,
    ensures
        ids_of(join(ids_of(s), seq![c])) == ids_of(s),
{
    let ids = ids_of(s);
    lemma_ids_are_clean(s);
    assert forall|i: int| 0 <= i < ids.len() implies is_clean_id(#[trigger] ids[i]) by {
        let id = ids[i];
        assert(id.len() > 0 && !is_space(id[0]) && !is_space(id.last()));
    }
    lemma_split_join(ids, c);
    lemma_clean_ids_keep(ids);
}

/// IDs read back: when `parse_ids_text` reads the IDs `ids_of(s)` from `s`,
/// reading those IDs joined with a comma, or with a line break, gives the
/// same IDs again (and so `parse_ids_text` succeeds on them with the same
/// list).
pub proof fn lemma_ids_reparse(s: Seq<char>)
    requires
        ids_of(s).len() > 0,
    ensures
        ids_of(join(ids_of(s), ","@)) == ids_of(s),
        ids_of(join(ids_of(s), "\n"@)) == ids_of(s),
{
    reveal_strlit(",");
    reveal_strlit("\n");
    assert(","@ =~= seq![',']);
    assert("\n"@ =~= seq!['\n']);
    lemma_ids_reparse_with(s, ',');
    lemma_ids_reparse_with(s, '\n');
}

} // verus!
