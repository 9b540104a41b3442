//! Character-level text handling shared by the parsers: Unicode whitespace,
//! line splitting, whitespace-separated fields, trimming and decimal numbers.
//!
//! Every routine works on a window `[lo, hi)` of a character sequence so that
//! the parsers can walk a whole file without copying it line by line.
use vstd::prelude::*;

verus! {

/// Unicode `White_Space`, the property that `char::is_whitespace` tests.
pub open spec fn is_ws(c: char) -> bool {
    let u = c as u32;
    ||| 0x09 <= u <= 0x0d
    ||| u == 0x20
    ||| u == 0x85
    ||| u == 0xa0
    ||| u == 0x1680
    ||| 0x2000 <= u <= 0x200a
    ||| u == 0x2028
    ||| u == 0x2029
    ||| u == 0x202f
    ||| u == 0x205f
    ||| u == 0x3000
}

pub fn is_ws_char(c: char) -> (r: bool)
    ensures
        r == is_ws(c),
{
    let u = c as u32;
    (0x09 <= u && u <= 0x0d) || u == 0x20 || u == 0x85 || u == 0xa0 || u == 0x1680 || (0x2000
        <= u && u <= 0x200a) || u == 0x2028 || u == 0x2029 || u == 0x202f || u == 0x205f || u
        == 0x3000
}

/// Index of the first `'\n'` at or after `from`, or `s.len()` when there is none.
pub open spec fn newline_at(s: Seq<char>, from: int) -> int
    decreases s.len() - from,
{
    if from >= s.len() {
        s.len() as int
    } else if s[from] == '\n' {
        from
    } else {
        newline_at(s, from + 1)
    }
}

pub proof fn lemma_newline_at(s: Seq<char>, from: int)
    requires
        0 <= from <= s.len(),
    ensures
        from <= newline_at(s, from) <= s.len(),
        newline_at(s, from) < s.len() ==> s[newline_at(s, from)] == '\n',
        forall|k: int| from <= k < newline_at(s, from) ==> s[k] != '\n',
    decreases s.len() - from,
{
    if from < s.len() && s[from] != '\n' {
        lemma_newline_at(s, from + 1);
    }
}

/// Spans `(start, end)` of the lines of `s` that begin at or after `from`;
/// lines are separated by `'\n'` and a final newline opens no further line.
pub open spec fn line_spans_from(s: Seq<char>, from: int) -> Seq<(int, int)>
    decreases s.len() - from,
{
    if from < 0 || from >= s.len() {
        seq![]
    } else {
        let e = newline_at(s, from);
        proof {
            lemma_newline_at(s, from);
        }
        if e >= s.len() {
            seq![(from, e)]
        } else {
            seq![(from, e)] + line_spans_from(s, e + 1)
        }
    }
}

/// The lines of `s`, as spans into `s`.
pub open spec fn line_spans(s: Seq<char>) -> Seq<(int, int)> {
    line_spans_from(s, 0)
}

/// Walking the lines: the line at `pos`, then the lines after its newline.
pub proof fn lemma_line_step(s: Seq<char>, pos: int)
    requires
        0 <= pos < s.len(),
    ensures
        line_spans_from(s, pos) == seq![(pos, newline_at(s, pos))] + line_spans_from(s, newline_at(s, pos) + 1),
        pos <= newline_at(s, pos) <= s.len(),
{
    lemma_newline_at(s, pos);
    let e = newline_at(s, pos);
    if e >= s.len() {
        assert(line_spans_from(s, e + 1) =~= Seq::<(int, int)>::empty());
        assert(line_spans_from(s, pos) =~= seq![(pos, e)] + line_spans_from(s, e + 1));
    }
}

/// The first span for which `f` gives something.
pub open spec fn first_some<T>(spans: Seq<(int, int)>, f: spec_fn((int, int)) -> Option<T>) -> Option<T>
    decreases spans.len(),
{
    if spans.len() == 0 {
        None
    } else {
        match f(spans[0]) {
            Some(v) => Some(v),
            None => first_some(spans.drop_first(), f),
        }
    }
}

/// The first of `xs` for which `f` gives something.
pub open spec fn first_some_of<A, T>(xs: Seq<A>, f: spec_fn(A) -> Option<T>) -> Option<T>
    decreases xs.len(),
{
    if xs.len() == 0 {
        None
    } else {
        match f(xs[0]) {
            Some(v) => Some(v),
            None => first_some_of(xs.drop_first(), f),
        }
    }
}

/// First index in `[lo, hi)` that is not whitespace (or `hi`).
pub open spec fn skip_ws_to(s: Seq<char>, lo: int, hi: int) -> int
    decreases hi - lo,
{
    if lo < hi && is_ws(s[lo]) {
        skip_ws_to(s, lo + 1, hi)
    } else {
        lo
    }
}

/// End of the window `[lo, hi)` once trailing whitespace is removed.
pub open spec fn trim_end_to(s: Seq<char>, lo: int, hi: int) -> int
    decreases hi - lo,
{
    if lo < hi && is_ws(s[hi - 1]) {
        trim_end_to(s, lo, hi - 1)
    } else {
        hi
    }
}

/// First whitespace index in `[lo, hi)` (or `hi`).
pub open spec fn token_end(s: Seq<char>, lo: int, hi: int) -> int
    decreases hi - lo,
{
    if lo < hi && !is_ws(s[lo]) {
        token_end(s, lo + 1, hi)
    } else {
        lo
    }
}

pub proof fn lemma_skip_ws(s: Seq<char>, lo: int, hi: int)
    requires
        lo <= hi,
    ensures
        lo <= skip_ws_to(s, lo, hi) <= hi,
        skip_ws_to(s, lo, hi) < hi ==> !is_ws(s[skip_ws_to(s, lo, hi)]),
        forall|k: int| lo <= k < skip_ws_to(s, lo, hi) ==> is_ws(s[k]),
    decreases hi - lo,
{
    if lo < hi && is_ws(s[lo]) {
        lemma_skip_ws(s, lo + 1, hi);
    }
}

pub proof fn lemma_trim_end(s: Seq<char>, lo: int, hi: int)
    requires
        lo <= hi,
    ensures
        lo <= trim_end_to(s, lo, hi) <= hi,
        lo < trim_end_to(s, lo, hi) ==> !is_ws(s[trim_end_to(s, lo, hi) - 1]),
        forall|k: int| trim_end_to(s, lo, hi) <= k < hi ==> is_ws(s[k]),
    decreases hi - lo,
{
    if lo < hi && is_ws(s[hi - 1]) {
        lemma_trim_end(s, lo, hi - 1);
    }
}

pub proof fn lemma_token_end(s: Seq<char>, lo: int, hi: int)
    requires
        lo <= hi,
    ensures
        lo <= token_end(s, lo, hi) <= hi,
        token_end(s, lo, hi) < hi ==> is_ws(s[token_end(s, lo, hi)]),
        forall|k: int| lo <= k < token_end(s, lo, hi) ==> !is_ws(s[k]),
    decreases hi - lo,
{
    if lo < hi && !is_ws(s[lo]) {
        lemma_token_end(s, lo + 1, hi);
    }
}

/// Spans of the whitespace-separated fields of the window `[lo, hi)`
/// (what `str::split_whitespace` yields).
pub open spec fn field_spans(s: Seq<char>, lo: int, hi: int) -> Seq<(int, int)>
    decreases hi - lo,
{
    if lo >= hi {
        seq![]
    } else {
        let a = skip_ws_to(s, lo, hi);
        if a >= hi {
            seq![]
        } else {
            let e = token_end(s, a, hi);
            proof {
                lemma_skip_ws(s, lo, hi);
                lemma_token_end(s, a, hi);
                assert(e > a) by {
                    reveal_with_fuel(token_end, 2);
                }
            }
            seq![(a, e)] + field_spans(s, e, hi)
        }
    }
}

/// The text of a span.
pub open spec fn span_text(s: Seq<char>, sp: (int, int)) -> Seq<char> {
    s.subrange(sp.0, sp.1)
}

/// The window `[lo, hi)` without leading and trailing whitespace.
pub open spec fn trimmed(s: Seq<char>, lo: int, hi: int) -> Seq<char> {
    let a = skip_ws_to(s, lo, hi);
    s.subrange(a, trim_end_to(s, a, hi))
}

/// Whether `p` is a prefix of `t`.
pub open spec fn has_prefix(t: Seq<char>, p: Seq<char>) -> bool {
    p.len() <= t.len() && t.subrange(0, p.len() as int) == p
}

/// Whether `p` occurs in `t` as a contiguous piece.
pub open spec fn contains_text(t: Seq<char>, p: Seq<char>) -> bool {
    exists|i: int| 0 <= i <= t.len() - p.len() && #[trigger] t.subrange(i, i + p.len()) == p
}

/// The characters of a string slice, in a vector.
pub fn chars_of(s: &str) -> (r: Vec<char>)
    ensures
        r@ == s@,
{
    let mut r: Vec<char> = Vec::new();
    for c in it: s.chars()
        invariant
            r@ == it.seq().take(it.index() as int),
            it.seq() == s@,
    {
        r.push(c);
    }
    r
}

/// Index of the first `'\n'` at or after `from`.
pub fn find_newline(cs: &Vec<char>, from: usize) -> (r: usize)
    requires
        from <= cs.len(),
    ensures
        r == newline_at(cs@, from as int),
{
    let mut i = from;
    while i < cs.len()
        invariant
            from <= i <= cs.len(),
            newline_at(cs@, from as int) == newline_at(cs@, i as int),
        decreases cs.len() - i,
    {
        if cs[i] == '\n' {
            return i;
        }
        i += 1;
    }
    i
}

pub fn skip_ws(cs: &Vec<char>, lo: usize, hi: usize) -> (r: usize)
    requires
        lo <= hi <= cs.len(),
    ensures
        r == skip_ws_to(cs@, lo as int, hi as int),
{
    let mut i = lo;
    while i < hi
        invariant
            lo <= i <= hi <= cs.len(),
            skip_ws_to(cs@, lo as int, hi as int) == skip_ws_to(cs@, i as int, hi as int),
        decreases hi - i,
    {
        if !is_ws_char(cs[i]) {
            return i;
        }
        i += 1;
    }
    i
}

pub fn trim_end(cs: &Vec<char>, lo: usize, hi: usize) -> (r: usize)
    requires
        lo <= hi <= cs.len(),
    ensures
        r == trim_end_to(cs@, lo as int, hi as int),
{
    let mut j = hi;
    while lo < j
        invariant
            lo <= j <= hi <= cs.len(),
            trim_end_to(cs@, lo as int, hi as int) == trim_end_to(cs@, lo as int, j as int),
        decreases j - lo,
    {
        if !is_ws_char(cs[j - 1]) {
            return j;
        }
        j -= 1;
    }
    j
}

pub fn find_ws(cs: &Vec<char>, lo: usize, hi: usize) -> (r: usize)
    requires
        lo <= hi <= cs.len(),
    ensures
        r == token_end(cs@, lo as int, hi as int),
{
    let mut i = lo;
    while i < hi
        invariant
            lo <= i <= hi <= cs.len(),
            token_end(cs@, lo as int, hi as int) == token_end(cs@, i as int, hi as int),
        decreases hi - i,
    {
        if is_ws_char(cs[i]) {
            return i;
        }
        i += 1;
    }
    i
}

/// Trimmed bounds of the window `[lo, hi)`.
pub fn trim_window(cs: &Vec<char>, lo: usize, hi: usize) -> (r: (usize, usize))
    requires
        lo <= hi <= cs.len(),
    ensures
        r.0 == skip_ws_to(cs@, lo as int, hi as int),
        r.1 == trim_end_to(cs@, r.0 as int, hi as int),
        lo <= r.0 <= r.1 <= hi,
{
    let a = skip_ws(cs, lo, hi);
    proof {
        lemma_skip_ws(cs@, lo as int, hi as int);
    }
    let b = trim_end(cs, a, hi);
    proof {
        lemma_trim_end(cs@, a as int, hi as int);
    }
    (a, b)
}

/// Spans of the whitespace-separated fields of `[lo, hi)`.
pub fn split_fields(cs: &Vec<char>, lo: usize, hi: usize) -> (r: Vec<(usize, usize)>)
    requires
        lo <= hi <= cs.len(),
    ensures
        r@.len() == field_spans(cs@, lo as int, hi as int).len(),
        forall|i: int|
            0 <= i < r@.len() ==> (#[trigger] r@[i]).0 == field_spans(
                cs@,
                lo as int,
                hi as int,
            )[i].0 && r@[i].1 == field_spans(cs@, lo as int, hi as int)[i].1,
        forall|i: int| 0 <= i < r@.len() ==> lo <= (#[trigger] r@[i]).0 <= r@[i].1 <= hi,
{
    let ghost all = field_spans(cs@, lo as int, hi as int);
    let ghost mut done: Seq<(int, int)> = seq![];
    let mut r: Vec<(usize, usize)> = Vec::new();
    let mut pos = lo;
    proof {
        assert(all =~= done + field_spans(cs@, pos as int, hi as int));
    }
    while pos < hi
        invariant
            lo <= pos <= hi <= cs.len(),
            all == field_spans(cs@, lo as int, hi as int),
            all == done + field_spans(cs@, pos as int, hi as int),
            r@.len() == done.len(),
            forall|i: int|
                0 <= i < r@.len() ==> (#[trigger] r@[i]).0 == done[i].0 && r@[i].1 == done[i].1,
            forall|i: int| 0 <= i < r@.len() ==> lo <= (#[trigger] r@[i]).0 <= r@[i].1 <= pos,
        decreases hi - pos,
    {
        let a = skip_ws(cs, pos, hi);
        proof {
            lemma_skip_ws(cs@, pos as int, hi as int);
        }
        if a >= hi {
            proof {
                assert(field_spans(cs@, pos as int, hi as int) =~= seq![]);
                assert(field_spans(cs@, hi as int, hi as int) =~= seq![]);
            }
            pos = hi;
        } else {
            let e = find_ws(cs, a, hi);
            proof {
                lemma_token_end(cs@, a as int, hi as int);
                reveal_with_fuel(token_end, 2);
                let rest = field_spans(cs@, e as int, hi as int);
                assert(field_spans(cs@, pos as int, hi as int) =~= seq![(a as int, e as int)]
                    + rest);
                assert(all =~= done.push((a as int, e as int)) + rest);
                done = done.push((a as int, e as int));
            }
            r.push((a, e));
            pos = e;
        }
    }
    proof {
        assert(field_spans(cs@, pos as int, hi as int) =~= seq![]);
        assert(all =~= done);
    }
    r
}

/// Index of the first `c` in `[lo, hi)` (or `hi`).
pub open spec fn find_char_spec(s: Seq<char>, lo: int, hi: int, c: char) -> int
    decreases hi - lo,
{
    if lo < hi && s[lo] != c {
        find_char_spec(s, lo + 1, hi, c)
    } else {
        lo
    }
}

pub proof fn lemma_find_char(s: Seq<char>, lo: int, hi: int, c: char)
    requires
        lo <= hi,
    ensures
        lo <= find_char_spec(s, lo, hi, c) <= hi,
    decreases hi - lo,
{
    if lo < hi && s[lo] != c {
        lemma_find_char(s, lo + 1, hi, c);
    }
}

pub fn find_char(cs: &Vec<char>, lo: usize, hi: usize, c: char) -> (r: usize)
    requires
        lo <= hi <= cs.len(),
    ensures
        r == find_char_spec(cs@, lo as int, hi as int, c),
        lo <= r <= hi,
{
    proof {
        lemma_find_char(cs@, lo as int, hi as int, c);
    }
    let mut i = lo;
    while i < hi
        invariant
            lo <= i <= hi <= cs.len(),
            find_char_spec(cs@, lo as int, hi as int, c) == find_char_spec(cs@, i as int, hi as int, c),
        decreases hi - i,
    {
        if cs[i] == c {
            return i;
        }
        i += 1;
    }
    i
}

/// Whether the window `[lo, hi)` of `cs` spells exactly `t`.
pub fn window_eq(cs: &Vec<char>, lo: usize, hi: usize, t: &Vec<char>) -> (r: bool)
    requires
        lo <= hi <= cs.len(),
    ensures
        r == (cs@.subrange(lo as int, hi as int) == t@),
{
    if hi - lo != t.len() {
        proof {
            assert(cs@.subrange(lo as int, hi as int).len() != t@.len());
        }
        return false;
    }
    let mut i: usize = 0;
    while i < t.len()
        invariant
            hi - lo == t.len(),
            lo <= hi <= cs.len(),
            0 <= i <= t.len(),
            forall|k: int| 0 <= k < i ==> cs@[lo + k] == t@[k],
        decreases t.len() - i,
    {
        if cs[lo + i] != t[i] {
            proof {
                assert(cs@.subrange(lo as int, hi as int)[i as int] != t@[i as int]);
            }
            return false;
        }
        i += 1;
    }
    proof {
        assert(cs@.subrange(lo as int, hi as int) =~= t@);
    }
    true
}

/// Whether the window `[lo, hi)` of `cs` begins with `p`.
pub fn window_starts_with(cs: &Vec<char>, lo: usize, hi: usize, p: &Vec<char>) -> (r: bool)
    requires
        lo <= hi <= cs.len(),
    ensures
        r == has_prefix(cs@.subrange(lo as int, hi as int), p@),
{
    if p.len() > hi - lo {
        return false;
    }
    let r = window_eq(cs, lo, lo + p.len(), p);
    proof {
        assert(cs@.subrange(lo as int, hi as int).subrange(0, p@.len() as int) =~= cs@.subrange(
            lo as int,
            lo + p@.len(),
        ));
    }
    r
}

/// Whether `t` begins with `p`.
pub fn text_starts_with(t: &str, p: &str) -> (r: bool)
    ensures
        r == has_prefix(t@, p@),
{
    let tc = chars_of(t);
    let pc = chars_of(p);
    let r = window_starts_with(&tc, 0, tc.len(), &pc);
    proof {
        assert(tc@.subrange(0, tc@.len() as int) =~= tc@);
    }
    r
}

/// Whether the two strings are equal.
pub fn text_eq(a: &str, b: &str) -> (r: bool)
    ensures
        r == (a@ == b@),
{
    let ac = chars_of(a);
    let bc = chars_of(b);
    let r = window_eq(&ac, 0, ac.len(), &bc);
    proof {
        assert(ac@.subrange(0, ac@.len() as int) =~= ac@);
    }
    r
}

/// Whether `p` occurs in `t`.
pub fn text_contains(t: &str, p: &str) -> (r: bool)
    ensures
        r == contains_text(t@, p@),
{
    let tc = chars_of(t);
    let pc = chars_of(p);
    if pc.len() > tc.len() {
        return false;
    }
    let last = tc.len() - pc.len();
    let mut i: usize = 0;
    loop
        invariant
            pc.len() <= tc.len(),
            last == tc.len() - pc.len(),
            tc@ == t@,
            pc@ == p@,
            0 <= i <= last,
            forall|k: int| 0 <= k < i ==> #[trigger] t@.subrange(k, k + p@.len()) != p@,
        decreases last - i,
    {
        if window_eq(&tc, i, i + pc.len(), &pc) {
            return true;
        }
        if i == last {
            return false;
        }
        i += 1;
    }
}

/// The text of `[lo, hi)` as a new string.
pub fn window_string(s: &str, cs: &Vec<char>, lo: usize, hi: usize) -> (r: String)
    requires
        cs@ == s@,
        lo <= hi <= cs.len(),
    ensures
        r@ == cs@.subrange(lo as int, hi as int),
{
    s.substring_char(lo, hi).to_owned()
}

/// Value of a sequence of decimal digits.
pub open spec fn digits_value(d: Seq<char>) -> int
    decreases d.len(),
{
    if d.len() == 0 {
        0
    } else {
        digits_value(d.drop_last()) * 10 + (d.last() as int - '0' as int)
    }
}

pub open spec fn all_digits(d: Seq<char>) -> bool {
    forall|i: int| 0 <= i < d.len() ==> '0' <= #[trigger] d[i] <= '9'
}

/// What `str::parse::<u32>` gives: an optional `'+'`, then at least one ASCII
/// digit, and a value that fits in 32 bits.
pub open spec fn parse_u32_spec(t: Seq<char>) -> Option<u32> {
    let d = if t.len() > 0 && t[0] == '+' {
        t.drop_first()
    } else {
        t
    };
    if d.len() > 0 && all_digits(d) && digits_value(d) <= u32::MAX {
        Some(digits_value(d) as u32)
    } else {
        None
    }
}

proof fn lemma_digits_nonneg(d: Seq<char>)
    requires
        all_digits(d),
    ensures
        digits_value(d) >= 0,
    decreases d.len(),
{
    if d.len() > 0 {
        assert(all_digits(d.drop_last())) by {
            assert forall|i: int| 0 <= i < d.drop_last().len() implies '0' <= #[trigger] d.drop_last()[i] <= '9' by {
                assert(d.drop_last()[i] == d[i]);
            }
        }
        lemma_digits_nonneg(d.drop_last());
        assert('0' <= d[d.len() - 1] <= '9');
    }
}

/// Parses the window `[lo, hi)` as `str::parse::<u32>` does.
pub fn parse_u32_window(cs: &Vec<char>, lo: usize, hi: usize) -> (r: Option<u32>)
    requires
        lo <= hi <= cs.len(),
    ensures
        r == parse_u32_spec(cs@.subrange(lo as int, hi as int)),
{
    let ghost t = cs@.subrange(lo as int, hi as int);
    let mut start = lo;
    if lo < hi && cs[lo] == '+' {
        start = lo + 1;
    }
    let ghost d = cs@.subrange(start as int, hi as int);
    proof {
        if lo < hi && cs@[lo as int] == '+' {
            assert(d =~= t.drop_first());
        } else {
            assert(d =~= t);
        }
    }
    if start >= hi {
        return None;
    }
    let mut acc: u64 = 0;
    let mut i = start;
    while i < hi
        invariant
            lo <= start < hi <= cs.len(),
            start <= i <= hi,
            d == cs@.subrange(start as int, hi as int),
            t == cs@.subrange(lo as int, hi as int),
            d == (if t.len() > 0 && t[0] == '+' {
                t.drop_first()
            } else {
                t
            }),
            all_digits(cs@.subrange(start as int, i as int)),
            acc == digits_value(cs@.subrange(start as int, i as int)),
            acc <= u32::MAX,
        decreases hi - i,
    {
        let c = cs[i];
        if !('0' <= c && c <= '9') {
            proof {
                assert(d[i - start] == c);
                assert(!all_digits(d));
            }
            return None;
        }
        let v = (c as u64) - ('0' as u64);
        let next = acc * 10 + v;
        proof {
            let p = cs@.subrange(start as int, i + 1);
            assert(p.drop_last() =~= cs@.subrange(start as int, i as int));
            assert(p.last() == c);
            assert(digits_value(p) == next);
            assert(all_digits(p)) by {
                assert forall|k: int| 0 <= k < p.len() implies '0' <= #[trigger] p[k] <= '9' by {
                    if k < p.len() - 1 {
                        assert(p[k] == cs@.subrange(start as int, i as int)[k]);
                    }
                }
            }
        }
        if next > 0xffff_ffff {
            proof {
                // Every further digit only grows the value.
                assert(d.subrange(0, (i + 1 - start) as int) =~= cs@.subrange(start as int, i + 1));
                lemma_digits_grow(d, (i + 1 - start) as int);
            }
            return None;
        }
        acc = next;
        i += 1;
    }
    proof {
        assert(cs@.subrange(start as int, i as int) =~= d);
    }
    Some(acc as u32)
}

/// A digit string is worth at least any of its prefixes.
proof fn lemma_digits_grow(d: Seq<char>, k: int)
    requires
        0 <= k <= d.len(),
        all_digits(d.subrange(0, k)),
    ensures
        all_digits(d) ==> digits_value(d) >= digits_value(d.subrange(0, k)),
    decreases d.len() - k,
{
    if all_digits(d) && k < d.len() {
        let p = d.subrange(0, k + 1);
        assert(all_digits(p)) by {
            assert forall|j: int| 0 <= j < p.len() implies '0' <= #[trigger] p[j] <= '9' by {
                assert(p[j] == d[j]);
            }
        }
        assert(p.drop_last() =~= d.subrange(0, k));
        lemma_digits_nonneg(d.subrange(0, k));
        assert(d[k] >= '0');
        lemma_digits_grow(d, k + 1);
        assert(d.subrange(0, d.len() as int) =~= d);
    } else if k == d.len() {
        assert(d.subrange(0, k) =~= d);
    }
}

/// One part of a dotted-quad IPv4 address, as std's address parser reads
/// it: one to three ASCII digits, no leading zero (but `0` itself), at most
/// 255.
pub open spec fn octet_text(t: Seq<char>) -> bool {
    &&& 1 <= t.len() <= 3
    &&& all_digits(t)
    &&& (t.len() == 1 || t[0] != '0')
    &&& digits_value(t) <= 255
}

/// Text of an IPv4 address: four octets separated by dots, nothing else.
pub open spec fn ipv4_text(s: Seq<char>) -> bool {
    exists|i: int, j: int, k: int|
        0 <= i < j < k < s.len() && s[i] == '.' && s[j] == '.' && s[k] == '.' && octet_text(#[trigger] s.subrange(0, i))
            && octet_text(#[trigger] s.subrange(i + 1, j)) && octet_text(#[trigger] s.subrange(j + 1, k)) && octet_text(
            s.subrange(k + 1, s.len() as int),
        )
}

fn octet_window(cs: &Vec<char>, lo: usize, hi: usize) -> (r: bool)
    requires
        lo <= hi <= cs.len(),
    ensures
        r == octet_text(cs@.subrange(lo as int, hi as int)),
{
    let ghost t = cs@.subrange(lo as int, hi as int);
    if hi - lo < 1 || hi - lo > 3 {
        return false;
    }
    if cs[lo] == '+' {
        proof {
            assert(t[0] == '+');
        }
        return false;
    }
    if hi - lo > 1 && cs[lo] == '0' {
        proof {
            assert(t[0] == '0');
        }
        return false;
    }
    proof {
        assert(t[0] == cs@[lo as int]);
        if all_digits(t) {
            lemma_digits_nonneg(t);
        }
    }
    match parse_u32_window(cs, lo, hi) {
        Some(v) => v <= 255,
        None => false,
    }
}

/// The first dot in `[from, hi)`, or `hi`.
fn find_dot(cs: &Vec<char>, from: usize, hi: usize) -> (r: usize)
    requires
        from <= hi <= cs.len(),
    ensures
        from <= r <= hi,
        forall|m: int| from <= m < r ==> cs@[m] != '.',
        r == hi || cs@[r as int] == '.',
{
    let mut p = from;
    while p < hi && cs[p] != '.'
        invariant
            from <= p <= hi <= cs.len(),
            forall|m: int| from <= m < p ==> cs@[m] != '.',
        decreases hi - p,
    {
        p += 1;
    }
    p
}

/// A dot at `p` after the octet that starts at `from` is the first dot
/// from `from` on.
proof fn lemma_first_dot(s: Seq<char>, from: int, p: int, q: int)
    requires
        0 <= from <= p < s.len(),
        s[p] == '.',
        all_digits(s.subrange(from, p)),
        from <= q <= s.len(),
        forall|m: int| from <= m < q ==> s[m] != '.',
        q == s.len() || s[q] == '.',
    ensures
        q == p,
{
    if q < p {
        assert(s.subrange(from, p)[q - from] == s[q]);
    }
}

/// Whether `text` is the text of an IPv4 address (what `str::parse` into an
/// IPv4 address accepts).
pub fn is_ipv4_text(text: &str) -> (r: bool)
    ensures
        r == ipv4_text(text@),
{
    let cs = chars_of(text);
    let ghost s = cs@;
    let n = cs.len();
    let i = find_dot(&cs, 0, n);
    let j = if i < n {
        find_dot(&cs, i + 1, n)
    } else {
        n
    };
    let k = if j < n {
        find_dot(&cs, j + 1, n)
    } else {
        n
    };
    let r = if k < n {
        octet_window(&cs, 0, i) && octet_window(&cs, i + 1, j) && octet_window(&cs, j + 1, k) && octet_window(&cs, k + 1, n)
    } else {
        false
    };
    proof {
        if r {
            assert(octet_text(s.subrange(0, i as int)));
            assert(octet_text(s.subrange(i + 1, j as int)));
            assert(octet_text(s.subrange(j + 1, k as int)));
        }
        if ipv4_text(s) {
            let (a, b, c) = choose|a: int, b: int, c: int|
                0 <= a < b < c < s.len() && s[a] == '.' && s[b] == '.' && s[c] == '.' && octet_text(
                    #[trigger] s.subrange(0, a),
                ) && octet_text(#[trigger] s.subrange(a + 1, b)) && octet_text(#[trigger] s.subrange(b + 1, c))
                    && octet_text(s.subrange(c + 1, s.len() as int));
            lemma_first_dot(s, 0, a, i as int);
            lemma_first_dot(s, a + 1, b, j as int);
            lemma_first_dot(s, b + 1, c, k as int);
        }
    }
    r
}

pub open spec fn is_hex_char(c: char) -> bool {
    ('0' <= c && c <= '9') || ('a' <= c && c <= 'f') || ('A' <= c && c <= 'F')
}

/// One group of an IPv6 address: one to four hex digits (leading zeros
/// allowed).
pub open spec fn h16_text(t: Seq<char>) -> bool {
    1 <= t.len() <= 4 && forall|k: int| 0 <= k < t.len() ==> is_hex_char(#[trigger] t[k])
}

/// The pieces of `s` between colons, as `str::split(':')` gives them.
pub open spec fn colon_split(s: Seq<char>) -> Seq<Seq<char>>
    decreases s.len(),
{
    if s.len() == 0 {
        seq![Seq::<char>::empty()]
    } else {
        let rest = colon_split(s.drop_last());
        if s.last() == ':' {
            rest.push(Seq::<char>::empty())
        } else {
            rest.update(rest.len() - 1, rest.last().push(s.last()))
        }
    }
}

pub open spec fn all_h16(p: Seq<Seq<char>>) -> bool {
    forall|k: int| 0 <= k < p.len() ==> h16_text(#[trigger] p[k])
}

/// How many 16-bit groups the pieces `p` stand for: each piece a group, or,
/// where `v4_last` allows it, the last piece an IPv4 address worth two.
pub open spec fn groups_count(p: Seq<Seq<char>>, v4_last: bool) -> Option<nat> {
    if p.len() > 0 && all_h16(p.drop_last()) {
        if h16_text(p.last()) {
            Some(p.len())
        } else if v4_last && ipv4_text(p.last()) {
            Some(p.len() + 1)
        } else {
            None
        }
    } else {
        None
    }
}

/// The first `::` in `s` at or after `i`, or -1.
pub open spec fn find_dcolon(s: Seq<char>, i: int) -> int
    decreases s.len() - i,
{
    if i < 0 || i + 1 >= s.len() {
        -1
    } else if s[i] == ':' && s[i + 1] == ':' {
        i
    } else {
        find_dcolon(s, i + 1)
    }
}

/// Text of an IPv6 address: eight groups (the last two may be written as an
/// IPv4 address); or groups before and after one `::`, which stands for at
/// least one zero group, so at most seven written; an IPv4 address may end
/// the part after `::`.
pub open spec fn ipv6_text(s: Seq<char>) -> bool {
    let d = find_dcolon(s, 0);
    if d < 0 {
        groups_count(colon_split(s), true) == Some(8nat)
    } else {
        let h = if d == 0 {
            Some(0nat)
        } else {
            groups_count(colon_split(s.subrange(0, d)), false)
        };
        let t = if d + 2 == s.len() {
            Some(0nat)
        } else {
            groups_count(colon_split(s.subrange(d + 2, s.len() as int)), true)
        };
        h is Some && t is Some && h->0 + t->0 <= 7
    }
}

/// Text of an IP address: IPv4 or IPv6 (what `str::parse` into an IP
/// address accepts).
pub open spec fn ip_text(s: Seq<char>) -> bool {
    ipv4_text(s) || ipv6_text(s)
}

fn h16_window(cs: &Vec<char>, lo: usize, hi: usize) -> (r: bool)
    requires
        lo <= hi <= cs.len(),
    ensures
        r == h16_text(cs@.subrange(lo as int, hi as int)),
{
    let ghost t = cs@.subrange(lo as int, hi as int);
    if hi - lo < 1 || hi - lo > 4 {
        return false;
    }
    let mut p = lo;
    while p < hi
        invariant
            lo <= p <= hi <= cs.len(),
            t == cs@.subrange(lo as int, hi as int),
            forall|k: int| 0 <= k < p - lo ==> is_hex_char(#[trigger] t[k]),
        decreases hi - p,
    {
        let c = cs[p];
        if !(('0' <= c && c <= '9') || ('a' <= c && c <= 'f') || ('A' <= c && c <= 'F')) {
            proof {
                assert(t[p - lo] == c);
            }
            return false;
        }
        proof {
            assert(t[p - lo] == c);
        }
        p += 1;
    }
    true
}

/// The first `::` in `cs` at or after `from`, or -1 (as `find_dcolon`).
fn dcolon_at(cs: &Vec<char>, from: usize) -> (r: Option<usize>)
    ensures
        match r {
            Some(d) => d as int == find_dcolon(cs@, from as int) && d + 1 < cs@.len(),
            None => find_dcolon(cs@, from as int) < 0,
        },
{
    let mut i = from;
    while i < cs.len() && i + 1 < cs.len()
        invariant
            from <= i,
            find_dcolon(cs@, from as int) == find_dcolon(cs@, i as int),
        decreases cs@.len() - i,
    {
        if cs[i] == ':' && cs[i + 1] == ':' {
            return Some(i);
        }
        i += 1;
    }
    None
}

proof fn lemma_colon_split_step(w: Seq<char>, k: int, done: Seq<Seq<char>>, start: int)
    requires
        0 <= start <= k < w.len(),
        colon_split(w.subrange(0, k)) == done.push(w.subrange(start, k)),
    ensures
        w[k] == ':' ==> colon_split(w.subrange(0, k + 1)) == done.push(w.subrange(start, k)).push(
            w.subrange(k + 1, k + 1),
        ),
        w[k] != ':' ==> colon_split(w.subrange(0, k + 1)) == done.push(w.subrange(start, k + 1)),
{
    let t = w.subrange(0, k + 1);
    assert(t.drop_last() =~= w.subrange(0, k));
    assert(t.last() == w[k]);
    if w[k] == ':' {
        assert(w.subrange(k + 1, k + 1) =~= Seq::<char>::empty());
    } else {
        assert(w.subrange(start, k + 1) =~= w.subrange(start, k).push(w[k]));
        assert(colon_split(t) =~= done.push(w.subrange(start, k + 1)));
    }
}

proof fn lemma_ipv4_len(s: Seq<char>)
    requires
        ipv4_text(s),
    ensures
        s.len() >= 7,
{
    let (a, b, c) = choose|a: int, b: int, c: int|
        0 <= a < b < c < s.len() && s[a] == '.' && s[b] == '.' && s[c] == '.' && octet_text(
            #[trigger] s.subrange(0, a),
        ) && octet_text(#[trigger] s.subrange(a + 1, b)) && octet_text(#[trigger] s.subrange(b + 1, c))
            && octet_text(s.subrange(c + 1, s.len() as int));
}

/// `groups_count` of the pieces of the window `[lo, hi)` of `text`.
fn groups_window(text: &str, cs: &Vec<char>, lo: usize, hi: usize, v4_last: bool) -> (r: Option<usize>)
    requires
        cs@ == text@,
        lo <= hi <= cs.len(),
    ensures
        match r {
            Some(n) => groups_count(colon_split(cs@.subrange(lo as int, hi as int)), v4_last) == Some(n as nat),
            None => groups_count(colon_split(cs@.subrange(lo as int, hi as int)), v4_last) is None,
        },
{
    let ghost w = cs@.subrange(lo as int, hi as int);
    let ghost mut done: Seq<Seq<char>> = seq![];
    let mut start = lo;
    let mut i = lo;
    let mut n: usize = 0;
    let mut ok = true;
    proof {
        assert(w.subrange(0, 0) =~= Seq::<char>::empty());
        assert(cs@.subrange(lo as int, lo as int) =~= Seq::<char>::empty());
        assert(colon_split(w.subrange(0, 0)) =~= done.push(cs@.subrange(lo as int, lo as int)));
    }
    while i < hi
        invariant
            lo <= start <= i <= hi <= cs.len(),
            w == cs@.subrange(lo as int, hi as int),
            colon_split(w.subrange(0, i - lo)) == done.push(cs@.subrange(start as int, i as int)),
            n == done.len(),
            n <= start - lo,
            ok == all_h16(done),
        decreases hi - i,
    {
        proof {
            assert(w.subrange(start - lo, i - lo) =~= cs@.subrange(start as int, i as int));
            assert(w[i - lo] == cs@[i as int]);
            lemma_colon_split_step(w, i - lo, done, start - lo);
        }
        if cs[i] == ':' {
            let g = h16_window(cs, start, i);
            proof {
                let d0 = done;
                done = done.push(cs@.subrange(start as int, i as int));
                if ok && g {
                    assert forall|k: int| 0 <= k < done.len() implies h16_text(#[trigger] done[k]) by {
                        if k < d0.len() {
                            assert(done[k] == d0[k]);
                        }
                    }
                }
                if !g {
                    assert(!h16_text(done[done.len() - 1]));
                }
                if !ok {
                    let k = choose|k: int| 0 <= k < d0.len() && !h16_text(#[trigger] d0[k]);
                    assert(done[k] == d0[k]);
                }
                assert(cs@.subrange(i + 1, i + 1) =~= w.subrange(i + 1 - lo, i + 1 - lo));
                assert(w.subrange(0, i + 1 - lo) =~= w.subrange(0, i - lo + 1));
            }
            ok = ok && g;
            n = n + 1;
            start = i + 1;
        } else {
            proof {
                assert(w.subrange(start - lo, i + 1 - lo) =~= cs@.subrange(start as int, i + 1));
            }
        }
        i = i + 1;
    }
    proof {
        assert(w.subrange(0, hi - lo) =~= w);
    }
    let ghost p = colon_split(w);
    proof {
        assert(p.drop_last() =~= done);
        assert(p.last() == cs@.subrange(start as int, hi as int));
    }
    if !ok {
        return None;
    }
    if h16_window(cs, start, hi) {
        return Some(n + 1);
    }
    if v4_last {
        let piece = window_string(text, cs, start, hi);
        if is_ipv4_text(piece.as_str()) {
            proof {
                lemma_ipv4_len(piece@);
            }
            return Some(n + 2);
        }
    }
    None
}

/// Whether `text` is the text of an IPv6 address (what `str::parse` into an
/// IPv6 address accepts).
pub fn is_ipv6_text(text: &str) -> (r: bool)
    ensures
        r == ipv6_text(text@),
{
    let cs = chars_of(text);
    let len = cs.len();
    match dcolon_at(&cs, 0) {
        None => {
            proof {
                assert(cs@.subrange(0, len as int) =~= cs@);
            }
            match groups_window(text, &cs, 0, len, true) {
                Some(n) => n == 8,
                None => false,
            }
        },
        Some(d) => {
            let h = if d == 0 {
                Some(0usize)
            } else {
                groups_window(text, &cs, 0, d, false)
            };
            let t = if d + 2 == len {
                Some(0usize)
            } else {
                groups_window(text, &cs, d + 2, len, true)
            };
            match (h, t) {
                (Some(a), Some(b)) => a <= 7 && b <= 7 - a,
                _ => false,
            }
        },
    }
}

/// Whether `text` is the text of an IP address, IPv4 or IPv6.
pub fn is_ip_text(text: &str) -> (r: bool)
    ensures
        r == ip_text(text@),
{
    is_ipv4_text(text) || is_ipv6_text(text)
}

/// The character of a decimal digit.
pub open spec fn digit_char(v: int) -> char {
    ((v + '0' as int) as u32) as char
}

/// Decimal text of a byte, as `Display` writes it.
pub open spec fn dec_u8(n: u8) -> Seq<char> {
    let v = n as int;
    if v < 10 {
        seq![digit_char(v)]
    } else if v < 100 {
        seq![digit_char(v / 10), digit_char(v % 10)]
    } else {
        seq![digit_char(v / 100), digit_char((v / 10) % 10), digit_char(v % 10)]
    }
}

fn digit_string(v: u8) -> (r: String)
    requires
        v < 10,
    ensures
        r@ == seq![digit_char(v as int)],
{
    let r = match v {
        0 => String::from_str("0"),
        1 => String::from_str("1"),
        2 => String::from_str("2"),
        3 => String::from_str("3"),
        4 => String::from_str("4"),
        5 => String::from_str("5"),
        6 => String::from_str("6"),
        7 => String::from_str("7"),
        8 => String::from_str("8"),
        _ => String::from_str("9"),
    };
    proof {
        reveal_strlit("0");
        reveal_strlit("1");
        reveal_strlit("2");
        reveal_strlit("3");
        reveal_strlit("4");
        reveal_strlit("5");
        reveal_strlit("6");
        reveal_strlit("7");
        reveal_strlit("8");
        reveal_strlit("9");
    }
    r
}

/// Appends the decimal text of `n` to `out`.
pub fn push_dec_u8(out: &mut String, n: u8)
    ensures
        final(out)@ == old(out)@ + dec_u8(n),
{
    if n >= 100 {
        let a = digit_string(n / 100);
        out.append(a.as_str());
    }
    if n >= 10 {
        let b = digit_string((n / 10) % 10);
        out.append(b.as_str());
    }
    let c = digit_string(n % 10);
    out.append(c.as_str());
    proof {
        if n < 10 {
            assert(dec_u8(n) =~= seq![digit_char(n as int)]);
        } else if n < 100 {
            assert((n / 10) % 10 == n / 10);
            assert(dec_u8(n) =~= seq![digit_char((n / 10) as int), digit_char((n % 10) as int)]);
        } else {
            assert(dec_u8(n) =~= seq![digit_char((n / 100) as int), digit_char(((n / 10) % 10) as int), digit_char((n % 10) as int)]);
        }
    }
}

/// What `str::to_uppercase` gives for a text (Unicode upper-case mapping).
pub uninterp spec fn str_uppercase(s: Seq<char>) -> Seq<char>;

/// What `str::to_lowercase` gives for a text (Unicode lower-case mapping).
pub uninterp spec fn str_lowercase(s: Seq<char>) -> Seq<char>;

/// Calls `str::to_uppercase`; the contract claims only that the result is
/// the named mapping of the argument (it depends on nothing else).
#[verifier::external_body]
pub(crate) fn to_upper(s: &str) -> (r: String)
    ensures
        r@ == str_uppercase(s@),
{
    s.to_uppercase()
}

/// Calls `str::to_lowercase`; the contract claims only that the result is
/// the named mapping of the argument.
#[verifier::external_body]
pub(crate) fn to_lower(s: &str) -> (r: String)
    ensures
        r@ == str_lowercase(s@),
{
    s.to_lowercase()
}

} // verus!
