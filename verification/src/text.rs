use vstd::prelude::*;
use vstd::string::*;

verus! {

/// Appends one character to `s` (std's `String::push`).
#[verifier::external_body]
pub(crate) fn push_char(s: &mut String, c: char)
    ensures
        final(s)@ == old(s)@.push(c),
{
    s.push(c);
}

/// The characters of `s`, in order.
pub fn chars_of(s: &str) -> (out: Vec<char>)
    ensures
        out@ == s@,
{
    let mut out: Vec<char> = Vec::new();
    for c in it: s.chars()
        invariant
            out@ == it.seq().take(it.index() as int),
    {
        out.push(c);
    }
    out
}

/// A `String` holding the characters `chars[from..to]`.
pub fn string_from_range(chars: &Vec<char>, from: usize, to: usize) -> (s: String)
    requires
        from <= to <= chars.len(),
    ensures
        s@ == chars@.subrange(from as int, to as int),
{
    let mut s = String::new();
    let mut i: usize = from;
    while i < to
        invariant
            from <= i <= to <= chars.len(),
            s@ == chars@.subrange(from as int, i as int),
        decreases to - i,
    {
        push_char(&mut s, chars[i]);
        i = i + 1;
        assert(s@ == chars@.subrange(from as int, i as int));
    }
    s
}

/// Appends the characters of `t` to `s`.
pub fn append_str(s: &mut String, t: &str)
    ensures
        final(s)@ == old(s)@ + t@,
{
    s.append(t);
}

/// Whether two strings hold the same characters.
pub fn str_equal(a: &str, b: &str) -> (r: bool)
    ensures
        r == (a@ == b@),
{
    let ca = chars_of(a);
    let cb = chars_of(b);
    if ca.len() != cb.len() {
        return false;
    }
    let mut i: usize = 0;
    while i < ca.len()
        invariant
            ca@ == a@,
            cb@ == b@,
            ca.len() == cb.len(),
            i <= ca.len(),
            forall|k: int| 0 <= k < i ==> ca@[k] == cb@[k],
        decreases ca.len() - i,
    {
        if ca[i] != cb[i] {
            return false;
        }
        i = i + 1;
    }
    assert(ca@ =~= cb@);
    true
}

/// Unicode `White_Space`, the property that `char::is_whitespace` tests.
pub open spec fn is_space(c: char) -> bool {
    ||| '\u{9}' <= c <= '\u{d}'
    ||| c == ' '
    ||| c == '\u{85}'
    ||| c == '\u{a0}'
    ||| c == '\u{1680}'
    ||| '\u{2000}' <= c <= '\u{200a}'
    ||| c == '\u{2028}'
    ||| c == '\u{2029}'
    ||| c == '\u{202f}'
    ||| c == '\u{205f}'
    ||| c == '\u{3000}'
}

pub fn char_is_space(c: char) -> (r: bool)
    ensures
        r == is_space(c),
{
    ('\u{9}' <= c && c <= '\u{d}') || c == ' ' || c == '\u{85}' || c == '\u{a0}' || c == '\u{1680}'
        || ('\u{2000}' <= c && c <= '\u{200a}') || c == '\u{2028}' || c == '\u{2029}' || c
        == '\u{202f}' || c == '\u{205f}' || c == '\u{3000}'
}

/// `s` without its leading white space.
pub open spec fn trim_start(s: Seq<char>) -> Seq<char>
    decreases s.len(),
{
    if s.len() > 0 && is_space(s[0]) {
        trim_start(s.drop_first())
    } else {
        s
    }
}

/// `s` without its trailing white space.
pub open spec fn trim_end(s: Seq<char>) -> Seq<char>
    decreases s.len(),
{
    if s.len() > 0 && is_space(s.last()) {
        trim_end(s.drop_last())
    } else {
        s
    }
}

/// `s` without leading and trailing white space (`str::trim`).
pub open spec fn trim(s: Seq<char>) -> Seq<char> {
    trim_end(trim_start(s))
}

/// The bounds `(i, j)` of the trimmed part of `chars[from..to]`.
pub fn trim_bounds(chars: &Vec<char>, from: usize, to: usize) -> (r: (usize, usize))
    requires
        from <= to <= chars.len(),
    ensures
        from <= r.0 <= r.1 <= to,
        chars@.subrange(r.0 as int, r.1 as int) == trim(chars@.subrange(from as int, to as int)),
{
    let ghost whole = chars@.subrange(from as int, to as int);
    let mut i: usize = from;
    while i < to && char_is_space(chars[i])
        invariant
            from <= i <= to <= chars.len(),
            whole == chars@.subrange(from as int, to as int),
            trim_start(whole) == trim_start(chars@.subrange(i as int, to as int)),
        decreases to - i,
    {
        assert(chars@.subrange(i as int, to as int).drop_first() =~= chars@.subrange(
            i + 1,
            to as int,
        ));
        i = i + 1;
    }
    assert(trim_start(chars@.subrange(i as int, to as int)) == chars@.subrange(i as int, to as int));
    let mut j: usize = to;
    while j > i && char_is_space(chars[j - 1])
        invariant
            from <= i <= j <= to <= chars.len(),
            trim_start(whole) == chars@.subrange(i as int, to as int),
            trim(whole) == trim_end(chars@.subrange(i as int, j as int)),
        decreases j - i,
    {
        assert(chars@.subrange(i as int, j as int).drop_last() =~= chars@.subrange(
            i as int,
            j - 1,
        ));
        j = j - 1;
    }
    assert(trim_end(chars@.subrange(i as int, j as int)) == chars@.subrange(i as int, j as int));
    (i, j)
}

/// ASCII upper case of one character (`char::to_ascii_uppercase`).
pub open spec fn upper_char(c: char) -> char {
    if 'a' <= c <= 'z' {
        ((c as u32) - 32) as char
    } else {
        c
    }
}

/// ASCII upper case of a string (`str::to_ascii_uppercase`).
pub open spec fn upper(s: Seq<char>) -> Seq<char> {
    s.map_values(|c: char| upper_char(c))
}

pub fn to_upper_char(c: char) -> (r: char)
    ensures
        r == upper_char(c),
{
    if 'a' <= c && c <= 'z' {
        let b: u8 = (c as u8) - 32;
        b as char
    } else {
        c
    }
}

pub fn to_upper(s: &str) -> (r: String)
    ensures
        r@ == upper(s@),
{
    let chars = chars_of(s);
    let mut r = String::new();
    let mut i: usize = 0;
    while i < chars.len()
        invariant
            chars@ == s@,
            i <= chars.len(),
            r@ == upper(s@.take(i as int)),
        decreases chars.len() - i,
    {
        let c = to_upper_char(chars[i]);
        push_char(&mut r, c);
        i = i + 1;
        assert(upper(s@.take(i as int)) =~= upper(s@.take(i - 1)).push(c));
    }
    assert(s@.take(chars.len() as int) =~= s@);
    r
}

} // verus!

verus! {

/// The ASCII digit for `d`.
pub open spec fn digit_char(d: int) -> char {
    (48 + d) as char
}

/// The decimal digits of `n`, without leading zeros (`"0"` for zero).
pub open spec fn decimal(n: nat) -> Seq<char>
    decreases n,
{
    if n < 10 {
        seq![digit_char(n as int)]
    } else {
        decimal(n / 10).push(digit_char((n % 10) as int))
    }
}

/// `k` zeros.
pub open spec fn zeros(k: int) -> Seq<char>
    decreases k,
{
    if k <= 0 {
        Seq::empty()
    } else {
        zeros(k - 1).push('0')
    }
}

/// `n` in decimal, zero-padded to at least `width` characters, the sign
/// counted in the width (what `format!("{n:0width$}")` writes).
pub open spec fn zero_padded(n: int, width: int) -> Seq<char> {
    if n < 0 {
        seq!['-'] + zeros(width - 1 - decimal((-n) as nat).len()) + decimal((-n) as nat)
    } else {
        zeros(width - decimal(n as nat).len()) + decimal(n as nat)
    }
}

/// `n` in decimal with a leading minus sign when negative (`n.to_string()`).
pub open spec fn int_text(n: int) -> Seq<char> {
    zero_padded(n, 0)
}

pub(crate) proof fn lemma_decimal_len(n: nat)
    ensures
        decimal(n).len() >= 1,
        n < 10 ==> decimal(n).len() == 1,
        n < 100 ==> decimal(n).len() <= 2,
    decreases n,
{
    if n >= 10 {
        lemma_decimal_len(n / 10);
    }
}

pub(crate) proof fn lemma_zeros_len(k: int)
    ensures
        zeros(k).len() == (if k <= 0 { 0 } else { k }),
        forall|i: int| 0 <= i < zeros(k).len() ==> zeros(k)[i] == '0',
    decreases k,
{
    if k > 0 {
        lemma_zeros_len(k - 1);
    }
}

pub open spec fn pow10(k: nat) -> nat
    decreases k,
{
    if k == 0 {
        1
    } else {
        10 * pow10((k - 1) as nat)
    }
}

pub(crate) proof fn lemma_decimal_len_bound(n: nat, k: nat)
    requires
        k >= 1,
        n < pow10(k),
    ensures
        decimal(n).len() <= k,
    decreases k,
{
    if n >= 10 {
        assert(k >= 2) by {
            if k == 1 {
                assert(pow10(1) == 10 * pow10(0));
            }
        }
        assert(pow10(k) == 10 * pow10((k - 1) as nat));
        assert(n / 10 < pow10((k - 1) as nat));
        lemma_decimal_len_bound(n / 10, (k - 1) as nat);
    } else {
        lemma_decimal_len(n);
    }
}

/// Appends the decimal digits of `n`.
pub fn push_decimal(s: &mut String, n: u64)
    ensures
        final(s)@ == old(s)@ + decimal(n as nat),
    decreases n,
{
    if n >= 10 {
        push_decimal(s, n / 10);
    }
    let d: u8 = (n % 10) as u8;
    let c = (48u8 + d) as char;
    push_char(s, c);
    proof {
        if n >= 10 {
            assert(decimal(n as nat) == decimal((n / 10) as nat).push(digit_char((n % 10) as int)));
        }
    }
    assert(final(s)@ =~= old(s)@ + decimal(n as nat)) by {
        if n < 10 {
            assert(decimal(n as nat) == seq![digit_char(n as int)]);
        }
    }
}

/// Appends `k` zeros.
pub fn push_zeros(s: &mut String, k: usize)
    ensures
        final(s)@ == old(s)@ + zeros(k as int),
{
    let mut i: usize = 0;
    while i < k
        invariant
            i <= k,
            s@ == old(s)@ + zeros(i as int),
        decreases k - i,
    {
        push_char(s, '0');
        i = i + 1;
        assert(zeros(i as int) == zeros(i - 1).push('0'));
        assert(s@ =~= old(s)@ + zeros(i as int));
    }
}

/// The number of decimal digits of `n`.
pub fn decimal_len(n: u64) -> (r: usize)
    ensures
        r == decimal(n as nat).len(),
        1 <= r <= 20,
    decreases n,
{
    proof {
        lemma_decimal_len(n as nat);
    }
    if n < 10 {
        1
    } else {
        let r = decimal_len(n / 10);
        proof {
            reveal_with_fuel(pow10, 20);
            assert(pow10(19) == 10000000000000000000nat);
            lemma_decimal_len_bound((n / 10) as nat, 19);
        }
        r + 1
    }
}

} // verus!

verus! {

/// Appends `n` in decimal, zero-padded to `width` characters.
pub fn push_padded(s: &mut String, n: i64, width: usize)
    ensures
        final(s)@ == old(s)@ + zero_padded(n as int, width as int),
{
    if n < 0 {
        let m: u64 = ((-(n + 1)) as u64) + 1;
        assert(m == -n);
        push_char(s, '-');
        let len = decimal_len(m);
        let pad: usize = if width >= len + 1 { width - 1 - len } else { 0 };
        push_zeros(s, pad);
        push_decimal(s, m);
        proof {
            assert(zeros(pad as int) == zeros(width - 1 - decimal(m as nat).len())) by {
                lemma_zeros_len(pad as int);
            }
        }
        assert(final(s)@ =~= old(s)@ + zero_padded(n as int, width as int));
    } else {
        let m: u64 = n as u64;
        let len = decimal_len(m);
        let pad: usize = if width >= len { width - len } else { 0 };
        push_zeros(s, pad);
        push_decimal(s, m);
        proof {
            assert(zeros(pad as int) == zeros(width - decimal(m as nat).len()));
        }
        assert(final(s)@ =~= old(s)@ + zero_padded(n as int, width as int));
    }
}

/// `n` in decimal (`n.to_string()`).
pub fn int_to_string(n: i64) -> (r: String)
    ensures
        r@ == int_text(n as int),
{
    let mut r = String::new();
    push_padded(&mut r, n, 0);
    assert(r@ =~= int_text(n as int));
    r
}

} // verus!

verus! {

pub open spec fn is_digit(c: char) -> bool {
    '0' <= c <= '9'
}

pub open spec fn all_digits(d: Seq<char>) -> bool {
    forall|i: int| 0 <= i < d.len() ==> is_digit(#[trigger] d[i])
}

/// The value of a string of decimal digits.
pub open spec fn digits_value(d: Seq<char>) -> int
    decreases d.len(),
{
    if d.len() == 0 {
        0
    } else {
        digits_value(d.drop_last()) * 10 + (d.last() as int - 48)
    }
}

/// What `str::parse::<i64>` accepts: an optional sign, then one or more
/// decimal digits, whose value fits in an `i64`.
pub open spec fn parse_i64_spec(s: Seq<char>) -> Option<int> {
    let neg = s.len() > 0 && s[0] == '-';
    let digits = if s.len() > 0 && (s[0] == '-' || s[0] == '+') {
        s.drop_first()
    } else {
        s
    };
    let value = if neg {
        -digits_value(digits)
    } else {
        digits_value(digits)
    };
    if digits.len() > 0 && all_digits(digits) && i64::MIN <= value <= i64::MAX {
        Some(value)
    } else {
        None
    }
}

proof fn lemma_digits_value_nonneg(d: Seq<char>)
    requires
        all_digits(d),
    ensures
        digits_value(d) >= 0,
    decreases d.len(),
{
    if d.len() > 0 {
        assert(all_digits(d.drop_last())) by {
            assert forall|i: int| 0 <= i < d.drop_last().len() implies is_digit(
                #[trigger] d.drop_last()[i],
            ) by {
                assert(is_digit(d[i]));
            }
        }
        lemma_digits_value_nonneg(d.drop_last());
        assert(is_digit(d[d.len() - 1]));
    }
}

proof fn lemma_digits_value_prefix(d: Seq<char>, k: int)
    requires
        all_digits(d),
        0 <= k <= d.len(),
    ensures
        digits_value(d.take(k)) <= digits_value(d),
    decreases d.len(),
{
    if k < d.len() {
        let p = d.drop_last();
        assert(all_digits(p)) by {
            assert forall|i: int| 0 <= i < p.len() implies is_digit(#[trigger] p[i]) by {
                assert(is_digit(d[i]));
            }
        }
        lemma_digits_value_prefix(p, k);
        assert(p.take(k) =~= d.take(k));
        lemma_digits_value_nonneg(p);
        assert(is_digit(d[d.len() - 1]));
    } else {
        assert(d.take(k) =~= d);
    }
}

/// Parses an `i64` in decimal (`str::parse::<i64>`).
pub fn parse_i64(chars: &Vec<char>, from: usize, to: usize) -> (r: Option<i64>)
    requires
        from <= to <= chars.len(),
    ensures
        match r {
            Some(v) => parse_i64_spec(chars@.subrange(from as int, to as int)) == Some(v as int),
            None => parse_i64_spec(chars@.subrange(from as int, to as int)) is None,
        },
{
    let ghost s = chars@.subrange(from as int, to as int);
    let mut start = from;
    let mut neg = false;
    if from < to && (chars[from] == '-' || chars[from] == '+') {
        neg = chars[from] == '-';
        start = from + 1;
    }
    let ghost digits = chars@.subrange(start as int, to as int);
    assert(digits == (if s.len() > 0 && (s[0] == '-' || s[0] == '+') {
        s.drop_first()
    } else {
        s
    }));
    assert(neg == (s.len() > 0 && s[0] == '-'));
    if start == to {
        return None;
    }
    let limit: i128 = 9223372036854775808;
    let mut acc: i128 = 0;
    let mut k = start;
    while k < to
        invariant
            from <= start <= k <= to <= chars.len(),
            digits == chars@.subrange(start as int, to as int),
            s == chars@.subrange(from as int, to as int),
            digits == (if s.len() > 0 && (s[0] == '-' || s[0] == '+') {
                s.drop_first()
            } else {
                s
            }),
            digits.len() > 0,
            all_digits(digits.take(k - start)),
            acc == digits_value(digits.take(k - start)),
            0 <= acc <= limit,
            limit == 9223372036854775808,
        decreases to - k,
    {
        let c = chars[k];
        if !('0' <= c && c <= '9') {
            assert(digits[k - start] == c);
            return None;
        }
        let d: i128 = (c as u32 - 48) as i128;
        proof {
            assert(digits.take(k - start + 1).drop_last() =~= digits.take(k - start));
            assert(digits.take(k - start + 1).last() == c);
        }
        acc = acc * 10 + d;
        k = k + 1;
        proof {
            assert(all_digits(digits.take(k - start))) by {
                assert forall|i: int| 0 <= i < k - start implies is_digit(
                    #[trigger] digits.take(k - start)[i],
                ) by {
                    if i < k - start - 1 {
                        assert(digits.take(k - start)[i] == digits.take(k - start - 1)[i]);
                    }
                }
            }
        }
        if acc > limit {
            proof {
                if all_digits(digits) {
                    lemma_digits_value_prefix(digits, k - start);
                }
            }
            return None;
        }
    }
    assert(digits.take(k - start) =~= digits);
    if neg {
        let v: i128 = -acc;
        assert(v == -digits_value(digits));
        Some(v as i64)
    } else {
        if acc == limit {
            return None;
        }
        Some(acc as i64)
    }
}

} // verus!

verus! {

/// `items` joined with `sep` between them (`[..].join(sep)`).
pub open spec fn join(items: Seq<Seq<char>>, sep: Seq<char>) -> Seq<char>
    decreases items.len(),
{
    if items.len() == 0 {
        Seq::empty()
    } else if items.len() == 1 {
        items[0]
    } else {
        join(items.drop_last(), sep) + sep + items.last()
    }
}

pub open spec fn strs_view(v: Seq<&str>) -> Seq<Seq<char>> {
    v.map_values(|s: &str| s@)
}

/// Appends the elements of `items`, separated by `sep`.
pub fn push_joined(out: &mut String, items: &Vec<&str>, sep: &str)
    ensures
        final(out)@ == old(out)@ + join(strs_view(items@), sep@),
{
    let ghost start = out@;
    let mut i: usize = 0;
    while i < items.len()
        invariant
            i <= items.len(),
            out@ == start + join(strs_view(items@).take(i as int), sep@),
        decreases items.len() - i,
    {
        let ghost t = strs_view(items@).take(i + 1);
        proof {
            assert(t.drop_last() =~= strs_view(items@).take(i as int));
            assert(t.last() == items@[i as int]@);
        }
        if i > 0 {
            append_str(out, sep);
        } else {
            assert(strs_view(items@).take(i as int) =~= Seq::<Seq<char>>::empty());
        }
        append_str(out, items[i]);
        i = i + 1;
        assert(out@ =~= start + join(strs_view(items@).take(i as int), sep@));
    }
    assert(strs_view(items@).take(items.len() as int) =~= strs_view(items@));
}

} // verus!
