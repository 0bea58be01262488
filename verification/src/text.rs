//! Character-level text operations, specified over `Seq<char>`.

use vstd::prelude::*;

verus! {

/// The separators by which a text is cut into fields.
#[derive(Clone, Copy, Debug, PartialEq, Eq)]
pub enum Separator {
    /// `:` or `-`, the delimiters of a MAC address.
    MacDelimiter,
    /// A character for which `char::is_whitespace` holds.
    Whitespace,
    /// The line feed `\n`.
    Newline,
}

/// `char::is_whitespace`: the Unicode `White_Space` property.
pub open spec fn is_space(c: char) -> bool {
    ||| ('\t' <= c && c <= '\r')
    ||| c == ' '
    ||| c == '\u{85}'
    ||| c == '\u{a0}'
    ||| c == '\u{1680}'
    ||| ('\u{2000}' <= c && c <= '\u{200a}')
    ||| c == '\u{2028}'
    ||| c == '\u{2029}'
    ||| c == '\u{202f}'
    ||| c == '\u{205f}'
    ||| c == '\u{3000}'
}

pub open spec fn separates(sep: Separator, c: char) -> bool {
    match sep {
        Separator::MacDelimiter => c == ':' || c == '-',
        Separator::Whitespace => is_space(c),
        Separator::Newline => c == '\n',
    }
}

/// The pieces of `s` between separators, empty pieces included
/// (what `str::split` yields): `k` separators give `k + 1` fields.
pub open spec fn fields(s: Seq<char>, sep: Separator) -> Seq<Seq<char>>
    decreases s.len(),
{
    if s.len() == 0 {
        seq![Seq::<char>::empty()]
    } else {
        let prev = fields(s.drop_last(), sep);
        if separates(sep, s.last()) {
            prev.push(Seq::<char>::empty())
        } else {
            prev.update(prev.len() - 1, prev.last().push(s.last()))
        }
    }
}

/// The non-empty pieces among `fs`, in order.
pub open spec fn keep_nonempty(fs: Seq<Seq<char>>) -> Seq<Seq<char>> {
    fs.filter(|f: Seq<char>| f.len() > 0)
}

/// The non-empty fields (what `str::split_whitespace` yields for whitespace).
pub open spec fn nonempty_fields(s: Seq<char>, sep: Separator) -> Seq<Seq<char>> {
    keep_nonempty(fields(s, sep))
}

pub proof fn lemma_keep_nonempty_step(fs: Seq<Seq<char>>)
    requires
        fs.len() > 0,
    ensures
        keep_nonempty(fs) == if fs.last().len() > 0 {
            keep_nonempty(fs.drop_last()).push(fs.last())
        } else {
            keep_nonempty(fs.drop_last())
        },
{
    reveal(Seq::filter);
}

/// The text that each span `(start, end)` marks in `s`.
pub open spec fn spans_text(s: Seq<char>, spans: Seq<(usize, usize)>) -> Seq<Seq<char>> {
    spans.map_values(|p: (usize, usize)| s.subrange(p.0 as int, p.1 as int))
}

pub open spec fn spans_within(spans: Seq<(usize, usize)>, len: nat) -> bool {
    forall|k: int| 0 <= k < spans.len() ==> #[trigger] spans[k].0 <= spans[k].1 && spans[k].1 <= len
}

pub proof fn lemma_fields_nonempty(s: Seq<char>, sep: Separator)
    ensures
        fields(s, sep).len() >= 1,
    decreases s.len(),
{
    if s.len() > 0 {
        lemma_fields_nonempty(s.drop_last(), sep);
    }
}

/// A separator joins the fields of the texts on its two sides.
pub proof fn lemma_fields_join(x: Seq<char>, c: char, y: Seq<char>, sep: Separator)
    requires
        separates(sep, c),
    ensures
        fields(x + seq![c] + y, sep) == fields(x, sep) + fields(y, sep),
    decreases y.len(),
{
    if y.len() == 0 {
        assert((x + seq![c] + y).drop_last() =~= x);
        assert(fields(x, sep).push(Seq::<char>::empty()) =~= fields(x, sep) + fields(y, sep));
    } else {
        let y0 = y.drop_last();
        lemma_fields_join(x, c, y0, sep);
        lemma_fields_nonempty(y0, sep);
        assert((x + seq![c] + y).drop_last() =~= x + seq![c] + y0);
        assert((x + seq![c] + y).last() == y.last());
        let a = fields(x, sep);
        let b = fields(y0, sep);
        if separates(sep, y.last()) {
            assert((a + b).push(Seq::<char>::empty()) =~= a + b.push(Seq::<char>::empty()));
        } else {
            assert((a + b).update((a + b).len() - 1, (a + b).last().push(y.last())) =~= a
                + b.update(b.len() - 1, b.last().push(y.last())));
        }
    }
}

/// A text without separators is a single field.
pub proof fn lemma_fields_single(x: Seq<char>, sep: Separator)
    requires
        forall|i: int| 0 <= i < x.len() ==> !separates(sep, #[trigger] x[i]),
    ensures
        fields(x, sep) == seq![x],
    decreases x.len(),
{
    if x.len() > 0 {
        let x0 = x.drop_last();
        assert forall|i: int| 0 <= i < x0.len() implies !separates(sep, #[trigger] x0[i]) by {
            assert(x0[i] == x[i]);
        }
        lemma_fields_single(x0, sep);
        assert(x0.push(x.last()) =~= x);
        assert(seq![x0].update(0, x0.push(x.last())) =~= seq![x]);
    } else {
        assert(x =~= Seq::<char>::empty());
    }
}

/// The characters of `s`, one by one.
pub fn chars_of(s: &str) -> (v: Vec<char>)
    ensures
        v@ == s@,
{
    let n = s.unicode_len();
    let mut v: Vec<char> = Vec::new();
    let mut i: usize = 0;
    while i < n
        invariant
            n == s@.len(),
            i <= n,
            v@ == s@.take(i as int),
        decreases n - i,
    {
        v.push(s.get_char(i));
        i += 1;
        assert(v@ =~= s@.take(i as int));
    }
    assert(v@ =~= s@);
    v
}

pub fn is_separator(sep: Separator, c: char) -> (b: bool)
    ensures
        b == separates(sep, c),
{
    match sep {
        Separator::MacDelimiter => c == ':' || c == '-',
        Separator::Whitespace => {
            ('\t' <= c && c <= '\r') || c == ' ' || c == '\u{85}' || c == '\u{a0}' || c
                == '\u{1680}' || ('\u{2000}' <= c && c <= '\u{200a}') || c == '\u{2028}' || c
                == '\u{2029}' || c == '\u{202f}' || c == '\u{205f}' || c == '\u{3000}'
        },
        Separator::Newline => c == '\n',
    }
}

/// The spans of all fields of `v`.
pub fn field_spans(v: &Vec<char>, sep: Separator) -> (spans: Vec<(usize, usize)>)
    ensures
        spans_within(spans@, v@.len()),
        spans_text(v@, spans@) == fields(v@, sep),
{
    let n = v.len();
    let mut spans: Vec<(usize, usize)> = Vec::new();
    let mut start: usize = 0;
    let mut i: usize = 0;
    assert(v@.take(0) =~= Seq::<char>::empty());
    assert(spans_text(v@, spans@).push(v@.subrange(0, 0)) =~= fields(v@.take(0), sep));
    while i < n
        invariant
            n == v@.len(),
            start <= i <= n,
            spans_within(spans@, v@.len()),
            spans_text(v@, spans@).push(v@.subrange(start as int, i as int)) == fields(
                v@.take(i as int),
                sep,
            ),
        decreases n - i,
    {
        let ghost prev = fields(v@.take(i as int), sep);
        assert(v@.take(i + 1).drop_last() =~= v@.take(i as int));
        assert(v@.take(i + 1).last() == v@[i as int]);
        if is_separator(sep, v[i]) {
            let ghost old_spans = spans@;
            spans.push((start, i));
            assert(spans_text(v@, spans@) =~= spans_text(v@, old_spans).push(
                v@.subrange(start as int, i as int),
            ));
            start = i + 1;
            assert(v@.subrange(start as int, (i + 1) as int) =~= Seq::<char>::empty());
            assert(spans_text(v@, spans@).push(v@.subrange(start as int, (i + 1) as int))
                =~= prev.push(Seq::<char>::empty()));
        } else {
            assert(v@.subrange(start as int, (i + 1) as int) =~= v@.subrange(
                start as int,
                i as int,
            ).push(v@[i as int]));
            assert(spans_text(v@, spans@).push(v@.subrange(start as int, (i + 1) as int))
                =~= prev.update(prev.len() - 1, prev.last().push(v@[i as int])));
        }
        i += 1;
    }
    let ghost old_spans = spans@;
    spans.push((start, n));
    assert(spans_text(v@, spans@) =~= spans_text(v@, old_spans).push(
        v@.subrange(start as int, n as int),
    ));
    assert(v@.take(n as int) =~= v@);
    assert(spans_text(v@, spans@) =~= fields(v@, sep));
    spans
}

/// The spans of the non-empty fields of `v`.
pub fn nonempty_field_spans(v: &Vec<char>, sep: Separator) -> (spans: Vec<(usize, usize)>)
    ensures
        spans_within(spans@, v@.len()),
        spans_text(v@, spans@) == nonempty_fields(v@, sep),
{
    let n = v.len();
    let mut spans: Vec<(usize, usize)> = Vec::new();
    let mut start: usize = 0;
    let mut i: usize = 0;
    proof {
        assert(v@.take(0) =~= Seq::<char>::empty());
        reveal(Seq::filter);
        assert(fields(v@.take(0), sep).drop_last() =~= Seq::<Seq<char>>::empty());
        assert(v@.subrange(0, 0) =~= Seq::<char>::empty());
    }
    while i < n
        invariant
            n == v@.len(),
            start <= i <= n,
            spans_within(spans@, v@.len()),
            fields(v@.take(i as int), sep).len() >= 1,
            fields(v@.take(i as int), sep).last() == v@.subrange(start as int, i as int),
            spans_text(v@, spans@) == keep_nonempty(fields(v@.take(i as int), sep).drop_last()),
        decreases n - i,
    {
        let ghost prev = fields(v@.take(i as int), sep);
        assert(v@.take(i + 1).drop_last() =~= v@.take(i as int));
        assert(v@.take(i + 1).last() == v@[i as int]);
        if is_separator(sep, v[i]) {
            let ghost next = prev.push(Seq::<char>::empty());
            assert(next.drop_last() =~= prev);
            proof {
                lemma_keep_nonempty_step(prev);
            }
            if start < i {
                let ghost old_spans = spans@;
                spans.push((start, i));
                assert(spans_text(v@, spans@) =~= spans_text(v@, old_spans).push(
                    v@.subrange(start as int, i as int),
                ));
            }
            start = i + 1;
            assert(v@.subrange(start as int, (i + 1) as int) =~= Seq::<char>::empty());
        } else {
            let ghost next = prev.update(prev.len() - 1, prev.last().push(v@[i as int]));
            assert(next.drop_last() =~= prev.drop_last());
            assert(v@.subrange(start as int, (i + 1) as int) =~= v@.subrange(
                start as int,
                i as int,
            ).push(v@[i as int]));
        }
        i += 1;
    }
    assert(v@.take(n as int) =~= v@);
    proof {
        lemma_keep_nonempty_step(fields(v@, sep));
    }
    if start < n {
        let ghost old_spans = spans@;
        spans.push((start, n));
        assert(spans_text(v@, spans@) =~= spans_text(v@, old_spans).push(
            v@.subrange(start as int, n as int),
        ));
    }
    spans
}

/// `s` without whitespace at its start (`str::trim_start`).
pub open spec fn trim_start(s: Seq<char>) -> Seq<char>
    decreases s.len(),
{
    if s.len() > 0 && is_space(s[0]) {
        trim_start(s.drop_first())
    } else {
        s
    }
}

/// `s` without whitespace at its end (`str::trim_end`).
pub open spec fn trim_end(s: Seq<char>) -> Seq<char>
    decreases s.len(),
{
    if s.len() > 0 && is_space(s.last()) {
        trim_end(s.drop_last())
    } else {
        s
    }
}

/// `str::trim`: whitespace removed at both ends.
pub open spec fn trim(s: Seq<char>) -> Seq<char> {
    trim_end(trim_start(s))
}

/// The code of `c` after `char::to_ascii_lowercase`.
pub open spec fn ascii_fold(c: char) -> int {
    if 'A' <= c && c <= 'Z' {
        c as int + 32
    } else {
        c as int
    }
}

/// `str::eq_ignore_ascii_case`, stated over characters: the same length, and
/// the same characters once ASCII letters are lowercased.
pub open spec fn eq_ignore_ascii_case(a: Seq<char>, b: Seq<char>) -> bool {
    a.len() == b.len() && forall|i: int| 0 <= i < a.len() ==> #[trigger] ascii_fold(a[i])
        == #[trigger] ascii_fold(b[i])
}

/// `s.to_ascii_lowercase().starts_with(p)` for a prefix `p` without upper-case ASCII letters.
pub open spec fn starts_with_folded(s: Seq<char>, p: Seq<char>) -> bool {
    p.len() <= s.len() && forall|i: int| 0 <= i < p.len() ==> #[trigger] ascii_fold(s[i]) == p[i]
        as int
}

/// `str::strip_prefix`: what follows `p` in `s`, when `s` starts with `p`.
pub open spec fn strip_prefix(s: Seq<char>, p: Seq<char>) -> Option<Seq<char>> {
    if p.len() <= s.len() && s.take(p.len() as int) == p {
        Some(s.skip(p.len() as int))
    } else {
        None
    }
}

/// `s` without one `\r` at its end.
pub open spec fn strip_cr(s: Seq<char>) -> Seq<char> {
    if s.len() > 0 && s.last() == '\r' {
        s.drop_last()
    } else {
        s
    }
}

/// `str::lines`: the pieces of `s` that `\n` ends, each without its `\n` and
/// without one `\r` just before it, then the rest of `s` unless it is empty.
pub open spec fn lines(s: Seq<char>) -> Seq<Seq<char>> {
    let f = fields(s, Separator::Newline);
    let ended = f.take(f.len() - 1).map_values(|l: Seq<char>| strip_cr(l));
    if f.last().len() == 0 {
        ended
    } else {
        ended.push(f.last())
    }
}

/// `s.lines().next().unwrap_or("")`.
pub open spec fn first_line(s: Seq<char>) -> Seq<char> {
    if lines(s).len() > 0 {
        lines(s)[0]
    } else {
        Seq::<char>::empty()
    }
}

/// `str::contains` with a text pattern: `p` occurs somewhere in `s`.
pub open spec fn has_infix(s: Seq<char>, p: Seq<char>) -> bool {
    exists|i: int| 0 <= i && i + p.len() <= s.len() && #[trigger] s.subrange(i, i + p.len()) == p
}

pub fn fold_code(c: char) -> (r: u32)
    ensures
        r == ascii_fold(c),
{
    let x = c as u32;
    if 'A' <= c && c <= 'Z' {
        x + 32
    } else {
        x
    }
}

/// Whether the characters `v[lo..hi]` are those of `t`.
pub fn span_equals(v: &Vec<char>, lo: usize, hi: usize, t: &str) -> (b: bool)
    requires
        lo <= hi <= v@.len(),
    ensures
        b == (v@.subrange(lo as int, hi as int) == t@),
{
    let n = t.unicode_len();
    if hi - lo != n {
        return false;
    }
    let mut i: usize = 0;
    while i < n
        invariant
            n == t@.len(),
            hi - lo == n,
            lo <= hi <= v@.len(),
            i <= n,
            forall|j: int| 0 <= j < i ==> v@[lo + j] == t@[j],
        decreases n - i,
    {
        if v[lo + i] != t.get_char(i) {
            assert(v@.subrange(lo as int, hi as int)[i as int] != t@[i as int]);
            return false;
        }
        i += 1;
    }
    assert(v@.subrange(lo as int, hi as int) =~= t@);
    true
}

/// A copy of `v[lo..hi]`.
pub fn copy_span(v: &Vec<char>, lo: usize, hi: usize) -> (r: Vec<char>)
    requires
        lo <= hi <= v@.len(),
    ensures
        r@ == v@.subrange(lo as int, hi as int),
{
    let mut r: Vec<char> = Vec::new();
    let mut i: usize = lo;
    while i < hi
        invariant
            lo <= i <= hi <= v@.len(),
            r@ == v@.subrange(lo as int, i as int),
        decreases hi - i,
    {
        r.push(v[i]);
        i += 1;
        assert(r@ =~= v@.subrange(lo as int, i as int));
    }
    r
}

/// The span of `trim(v[lo..hi])` within `v`.
pub fn trim_span(v: &Vec<char>, lo: usize, hi: usize) -> (r: (usize, usize))
    requires
        lo <= hi <= v@.len(),
    ensures
        lo <= r.0 <= r.1 <= hi,
        v@.subrange(r.0 as int, r.1 as int) == trim(v@.subrange(lo as int, hi as int)),
{
    let mut a: usize = lo;
    while a < hi && is_separator(Separator::Whitespace, v[a])
        invariant
            lo <= a <= hi <= v@.len(),
            trim_start(v@.subrange(lo as int, hi as int)) == trim_start(
                v@.subrange(a as int, hi as int),
            ),
        decreases hi - a,
    {
        assert(v@.subrange(a as int, hi as int).drop_first() =~= v@.subrange(
            (a + 1) as int,
            hi as int,
        ));
        a += 1;
    }
    assert(trim_start(v@.subrange(a as int, hi as int)) == v@.subrange(a as int, hi as int));
    let mut b: usize = hi;
    while b > a && is_separator(Separator::Whitespace, v[b - 1])
        invariant
            lo <= a <= b <= hi <= v@.len(),
            trim_end(v@.subrange(a as int, hi as int)) == trim_end(
                v@.subrange(a as int, b as int),
            ),
        decreases b - a,
    {
        assert(v@.subrange(a as int, b as int).drop_last() =~= v@.subrange(
            a as int,
            (b - 1) as int,
        ));
        b -= 1;
    }
    (a, b)
}

/// Whether `t` occurs in `s`.
pub fn contains_text(s: &str, t: &str) -> (b: bool)
    ensures
        b == has_infix(s@, t@),
{
    let v = chars_of(s);
    let n = v.len();
    let m = t.unicode_len();
    if m > n {
        assert forall|i: int| 0 <= i && i + t@.len() <= s@.len() implies #[trigger] s@.subrange(
            i,
            i + t@.len(),
        ) != t@ by {}
        return false;
    }
    if m == 0 {
        assert(s@.subrange(0int, 0int + t@.len()) =~= t@);
        return true;
    }
    let mut i: usize = 0;
    while i <= n - m
        invariant
            n == v@.len(),
            v@ == s@,
            m == t@.len(),
            1 <= m <= n,
            i <= n - m + 1,
            forall|j: int| 0 <= j < i ==> #[trigger] s@.subrange(j, j + t@.len()) != t@,
        decreases n - m + 1 - i,
    {
        if span_equals(&v, i, i + m, t) {
            return true;
        }
        i += 1;
    }
    assert forall|j: int| 0 <= j && j + t@.len() <= s@.len() implies #[trigger] s@.subrange(
        j,
        j + t@.len(),
    ) != t@ by {
        assert(j < i);
    }
    false
}

/// Whether `a` and `b` are equal up to the case of ASCII letters.
pub fn equals_ignore_ascii_case(a: &str, b: &str) -> (r: bool)
    ensures
        r == eq_ignore_ascii_case(a@, b@),
{
    let x = chars_of(a);
    let y = chars_of(b);
    if x.len() != y.len() {
        return false;
    }
    let mut i: usize = 0;
    while i < x.len()
        invariant
            x@ == a@,
            y@ == b@,
            x@.len() == y@.len(),
            i <= x@.len(),
            forall|j: int| 0 <= j < i ==> #[trigger] ascii_fold(a@[j]) == #[trigger] ascii_fold(
                b@[j],
            ),
        decreases x@.len() - i,
    {
        if fold_code(x[i]) != fold_code(y[i]) {
            return false;
        }
        i += 1;
    }
    true
}

/// Whether `v[lo..hi]`, ASCII letters lowercased, starts with `p`.
pub fn span_starts_with_folded(v: &Vec<char>, lo: usize, hi: usize, p: &str) -> (b: bool)
    requires
        lo <= hi <= v@.len(),
    ensures
        b == starts_with_folded(v@.subrange(lo as int, hi as int), p@),
{
    let m = p.unicode_len();
    if hi - lo < m {
        return false;
    }
    let mut i: usize = 0;
    while i < m
        invariant
            m == p@.len(),
            lo + m <= hi <= v@.len(),
            i <= m,
            forall|j: int| 0 <= j < i ==> ascii_fold(#[trigger] v@[lo + j]) == p@[j] as int,
        decreases m - i,
    {
        if fold_code(v[lo + i]) != p.get_char(i) as u32 {
            assert(ascii_fold(v@.subrange(lo as int, hi as int)[i as int]) != p@[i as int] as int);
            return false;
        }
        i += 1;
    }
    assert forall|j: int| 0 <= j < p@.len() implies #[trigger] ascii_fold(
        v@.subrange(lo as int, hi as int)[j],
    ) == p@[j] as int by {
        assert(v@.subrange(lo as int, hi as int)[j] == v@[lo + j]);
    }
    true
}

} // verus!
