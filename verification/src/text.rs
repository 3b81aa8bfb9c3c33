//! Character-level text helpers: conversion between `str`/`String` and
//! character vectors, Unicode whitespace, trimming, splitting into runs and
//! pieces, ASCII case folding and concatenation.
//!
//! Every function here works on `Seq<char>` models, so the parsers built on
//! top of them can state their contracts over plain character sequences.
use vstd::prelude::*;

verus! {

// ---------------------------------------------------------------------------
// Conversions
// ---------------------------------------------------------------------------

/// The characters of `s`, in order.
pub fn chars_of(s: &str) -> (v: Vec<char>)
    ensures
        v@ == s@,
{
    broadcast use vstd::string::group_string_axioms;

    let mut v: Vec<char> = Vec::new();
    for c in it: s.chars()
        invariant
            v@ == it.seq().take(it.index() as int),
    {
        v.push(c);
    }
    v
}

/// `String::push`: appends one character.
#[verifier::external_body]
fn push_char(s: &mut String, c: char)
    ensures
        final(s)@ == old(s)@.push(c),
{
    s.push(c);
}

/// The characters as a `String`.
pub fn string_of(v: &[char]) -> (s: String)
    ensures
        s@ == v@,
{
    let mut s = String::new();
    let mut i: usize = 0;
    while i < v.len()
        invariant
            i <= v@.len(),
            s@ == v@.subrange(0, i as int),
        decreases v@.len() - i,
    {
        push_char(&mut s, v[i]);
        assert(v@.subrange(0, i + 1) =~= v@.subrange(0, i as int).push(v@[i as int]));
        i += 1;
    }
    assert(v@.subrange(0, v@.len() as int) =~= v@);
    s
}

/// A copy of `s[lo..hi]`.
pub fn copy_range(s: &[char], lo: usize, hi: usize) -> (r: Vec<char>)
    requires
        lo <= hi <= s@.len(),
    ensures
        r@ == s@.subrange(lo as int, hi as int),
{
    let mut r: Vec<char> = Vec::new();
    let mut i = lo;
    while i < hi
        invariant
            lo <= i <= hi <= s@.len(),
            r@ == s@.subrange(lo as int, i as int),
        decreases hi - i,
    {
        r.push(s[i]);
        i += 1;
    }
    r
}

/// Appends `t` to `out`.
pub fn push_all(out: &mut Vec<char>, t: &[char])
    ensures
        final(out)@ == old(out)@ + t@,
{
    let mut i: usize = 0;
    while i < t.len()
        invariant
            i <= t@.len(),
            out@ == old(out)@ + t@.subrange(0, i as int),
        decreases t@.len() - i,
    {
        out.push(t[i]);
        i += 1;
    }
}

/// Appends the characters of `t` to `out`.
pub fn push_str(out: &mut Vec<char>, t: &str)
    ensures
        final(out)@ == old(out)@ + t@,
{
    let v = chars_of(t);
    push_all(out, v.as_slice());
}

/// Whether two character sequences are equal.
pub fn same_chars(a: &[char], b: &[char]) -> (r: bool)
    ensures
        r == (a@ == b@),
{
    if a.len() != b.len() {
        return false;
    }
    let mut i: usize = 0;
    while i < a.len()
        invariant
            a@.len() == b@.len(),
            i <= a@.len(),
            forall|j: int| 0 <= j < i ==> a@[j] == b@[j],
        decreases a@.len() - i,
    {
        if a[i] != b[i] {
            return false;
        }
        i += 1;
    }
    assert(a@ =~= b@);
    true
}

/// Whether `a` spells the text `b`.
pub fn chars_are(a: &[char], b: &str) -> (r: bool)
    ensures
        r == (a@ == b@),
{
    let bv = chars_of(b);
    same_chars(a, bv.as_slice())
}

/// Whether the string `a` equals the text `b`.
pub fn text_is(a: &str, b: &str) -> (r: bool)
    ensures
        r == (a@ == b@),
{
    let av = chars_of(a);
    chars_are(av.as_slice(), b)
}

/// Whether `s` begins with `prefix`.
pub open spec fn starts_with(s: Seq<char>, prefix: Seq<char>) -> bool {
    prefix.len() <= s.len() && s.subrange(0, prefix.len() as int) == prefix
}

/// Whether `s` begins with `prefix`.
pub fn has_prefix(s: &[char], prefix: &[char]) -> (r: bool)
    ensures
        r == starts_with(s@, prefix@),
{
    if prefix.len() > s.len() {
        return false;
    }
    let mut i: usize = 0;
    while i < prefix.len()
        invariant
            prefix@.len() <= s@.len(),
            i <= prefix@.len(),
            forall|j: int| 0 <= j < i ==> s@[j] == prefix@[j],
        decreases prefix@.len() - i,
    {
        if s[i] != prefix[i] {
            assert(s@.subrange(0, prefix@.len() as int)[i as int] != prefix@[i as int]);
            return false;
        }
        i += 1;
    }
    assert(s@.subrange(0, prefix@.len() as int) =~= prefix@);
    true
}

/// Whether `c` occurs in `s`.
pub fn contains_char(s: &[char], c: char) -> (r: bool)
    ensures
        r == s@.contains(c),
{
    let mut i: usize = 0;
    while i < s.len()
        invariant
            i <= s@.len(),
            forall|j: int| 0 <= j < i ==> s@[j] != c,
        decreases s@.len() - i,
    {
        if s[i] == c {
            assert(s@[i as int] == c);
            return true;
        }
        i += 1;
    }
    false
}

// ---------------------------------------------------------------------------
// Whitespace and trimming
// ---------------------------------------------------------------------------

/// The Unicode `White_Space` property, which `char::is_whitespace` tests and
/// by which `str::trim` and `str::split_whitespace` cut text.
pub open spec fn is_white(c: char) -> bool {
    let n = c as u32;
    (0x9 <= n <= 0xd) || n == 0x20 || n == 0x85 || n == 0xa0 || n == 0x1680 || (0x2000 <= n
        <= 0x200a) || n == 0x2028 || n == 0x2029 || n == 0x202f || n == 0x205f || n == 0x3000
}

/// Whether `c` is Unicode whitespace.
pub fn is_white_char(c: char) -> (r: bool)
    ensures
        r == is_white(c),
{
    let n = c as u32;
    (0x9 <= n && n <= 0xd) || n == 0x20 || n == 0x85 || n == 0xa0 || n == 0x1680 || (0x2000 <= n
        && n <= 0x200a) || n == 0x2028 || n == 0x2029 || n == 0x202f || n == 0x205f || n == 0x3000
}

/// The index of the first non-whitespace character of `s` at or after `i`
/// (or `s.len()`).
pub open spec fn skip_white(s: Seq<char>, i: int) -> int
    decreases s.len() - i,
{
    if 0 <= i < s.len() && is_white(s[i]) {
        skip_white(s, i + 1)
    } else {
        i
    }
}

/// The end of `s[lo..j]` once trailing whitespace is dropped.
pub open spec fn back_white(s: Seq<char>, lo: int, j: int) -> int
    decreases j - lo,
{
    if lo < j && j <= s.len() && is_white(s[j - 1]) {
        back_white(s, lo, j - 1)
    } else {
        j
    }
}

/// `str::trim`: `s` without leading and trailing whitespace.
pub open spec fn trim(s: Seq<char>) -> Seq<char> {
    let lo = skip_white(s, 0);
    s.subrange(lo, back_white(s, lo, s.len() as int))
}

proof fn lemma_skip_white_bounds(s: Seq<char>, i: int)
    requires
        0 <= i <= s.len(),
    ensures
        i <= skip_white(s, i) <= s.len(),
        forall|k: int| i <= k < skip_white(s, i) ==> is_white(#[trigger] s[k]),
        skip_white(s, i) < s.len() ==> !is_white(s[skip_white(s, i)]),
    decreases s.len() - i,
{
    if i < s.len() && is_white(s[i]) {
        lemma_skip_white_bounds(s, i + 1);
    }
}

proof fn lemma_back_white_bounds(s: Seq<char>, lo: int, j: int)
    requires
        0 <= lo <= j <= s.len(),
    ensures
        lo <= back_white(s, lo, j) <= j,
        forall|k: int| back_white(s, lo, j) <= k < j ==> is_white(#[trigger] s[k]),
        back_white(s, lo, j) > lo ==> !is_white(s[back_white(s, lo, j) - 1]),
    decreases j - lo,
{
    if lo < j && is_white(s[j - 1]) {
        lemma_back_white_bounds(s, lo, j - 1);
    }
}

/// Trimming keeps a stretch of the text that neither starts nor ends with
/// whitespace, and cuts off whitespace only.
pub proof fn lemma_trim(s: Seq<char>)
    ensures
        ({
            let lo = skip_white(s, 0);
            let hi = back_white(s, lo, s.len() as int);
            &&& 0 <= lo <= hi <= s.len()
            &&& trim(s) == s.subrange(lo, hi)
            &&& trim(s).len() > 0 ==> !is_white(trim(s)[0]) && !is_white(trim(s).last())
            &&& forall|k: int| 0 <= k < lo ==> is_white(#[trigger] s[k])
            &&& forall|k: int| hi <= k < s.len() ==> is_white(#[trigger] s[k])
        }),
{
    lemma_skip_white_bounds(s, 0);
    let lo = skip_white(s, 0);
    lemma_back_white_bounds(s, lo, s.len() as int);
    let hi = back_white(s, lo, s.len() as int);
    if hi > lo {
        assert(trim(s)[0] == s[lo]);
        assert(trim(s).last() == s[hi - 1]);
        assert(lo < s.len());
    }
}

/// The bounds `(lo, hi)` of `s` trimmed of whitespace.
pub fn trim_bounds(s: &[char]) -> (r: (usize, usize))
    ensures
        r.0 == skip_white(s@, 0),
        r.1 == back_white(s@, r.0 as int, s@.len() as int),
        r.0 <= r.1 <= s@.len(),
        s@.subrange(r.0 as int, r.1 as int) == trim(s@),
{
    let mut lo: usize = 0;
    while lo < s.len() && is_white_char(s[lo])
        invariant
            lo <= s@.len(),
            skip_white(s@, lo as int) == skip_white(s@, 0),
        decreases s@.len() - lo,
    {
        lo += 1;
    }
    let mut hi: usize = s.len();
    while hi > lo && is_white_char(s[hi - 1])
        invariant
            lo <= hi <= s@.len(),
            back_white(s@, lo as int, hi as int) == back_white(s@, lo as int, s@.len() as int),
        decreases hi,
    {
        hi -= 1;
    }
    (lo, hi)
}

/// `str::trim` on a character vector.
pub fn trimmed(s: &[char]) -> (r: Vec<char>)
    ensures
        r@ == trim(s@),
{
    let (lo, hi) = trim_bounds(s);
    copy_range(s, lo, hi)
}

// ---------------------------------------------------------------------------
// Runs and pieces
// ---------------------------------------------------------------------------

/// The character classes by which the parsers cut their input into runs.
pub enum CharClass {
    /// Anything but whitespace: the words of `str::split_whitespace`.
    NotWhite,
    /// Anything but whitespace, `,`, `(` and `)`.
    KeyValue,
    /// ASCII digits and `.`, `-`, `+`, `e`, `E`: characters that may occur in
    /// a number.
    Numeric,
}

/// Whether `c` belongs to the class `k`.
pub open spec fn in_class(c: char, k: CharClass) -> bool {
    match k {
        CharClass::NotWhite => !is_white(c),
        CharClass::KeyValue => !is_white(c) && c != ',' && c != '(' && c != ')',
        CharClass::Numeric => ('0' <= c && c <= '9') || c == '.' || c == '-' || c == '+' || c
            == 'e' || c == 'E',
    }
}

/// Whether `c` belongs to the class `k`.
pub fn char_in_class(c: char, k: &CharClass) -> (r: bool)
    ensures
        r == in_class(c, *k),
{
    match k {
        CharClass::NotWhite => !is_white_char(c),
        CharClass::KeyValue => !is_white_char(c) && c != ',' && c != '(' && c != ')',
        CharClass::Numeric => ('0' <= c && c <= '9') || c == '.' || c == '-' || c == '+' || c
            == 'e' || c == 'E',
    }
}

/// The maximal runs of characters of class `k` in `s[i..]`, as `(start, end)`
/// spans; `open` is the start of a run that began before `i`.
pub open spec fn runs_from(s: Seq<char>, k: CharClass, i: int, open: Option<int>) -> Seq<
    (int, int),
>
    decreases s.len() - i,
{
    if i >= s.len() {
        match open {
            Some(a) => seq![(a, s.len() as int)],
            None => seq![],
        }
    } else if in_class(s[i], k) {
        runs_from(
            s,
            k,
            i + 1,
            match open {
                Some(a) => Some(a),
                None => Some(i),
            },
        )
    } else {
        match open {
            Some(a) => seq![(a, i)] + runs_from(s, k, i + 1, None),
            None => runs_from(s, k, i + 1, None),
        }
    }
}

/// The maximal runs of characters of class `k` in `s`, as spans.
pub open spec fn runs(s: Seq<char>, k: CharClass) -> Seq<(int, int)> {
    runs_from(s, k, 0, None)
}

/// The text of a span.
pub open spec fn span_text(s: Seq<char>, p: (int, int)) -> Seq<char> {
    s.subrange(p.0, p.1)
}

/// The texts of a list of spans.
pub open spec fn span_texts(s: Seq<char>, ps: Seq<(int, int)>) -> Seq<Seq<char>> {
    ps.map_values(|p: (int, int)| span_text(s, p))
}

/// An optional index as an integer.
pub open spec fn opt_int(o: Option<usize>) -> Option<int> {
    match o {
        Some(a) => Some(a as int),
        None => None,
    }
}

/// The view of a list of `usize` spans.
pub open spec fn spans_view(v: Seq<(usize, usize)>) -> Seq<(int, int)> {
    v.map_values(|p: (usize, usize)| (p.0 as int, p.1 as int))
}

proof fn lemma_runs_from_well_formed(s: Seq<char>, k: CharClass, i: int, open: Option<int>)
    requires
        0 <= i <= s.len(),
        open matches Some(a) ==> 0 <= a < i,
    ensures
        forall|j: int|
            0 <= j < runs_from(s, k, i, open).len() ==> {
                let p = #[trigger] runs_from(s, k, i, open)[j];
                &&& 0 <= p.0 < p.1 <= s.len()
                &&& open matches Some(a) ==> a <= p.0
                &&& open is None ==> i <= p.0
            },
    decreases s.len() - i,
{
    if i >= s.len() {
        if let Some(a) = open {
            assert(runs_from(s, k, i, open) == seq![(a, s.len() as int)]);
        }
    } else if in_class(s[i], k) {
        let o = match open {
            Some(a) => Some(a),
            None => Some(i),
        };
        lemma_runs_from_well_formed(s, k, i + 1, o);
        assert(runs_from(s, k, i, open) == runs_from(s, k, i + 1, o));
    } else {
        lemma_runs_from_well_formed(s, k, i + 1, None);
        let rest = runs_from(s, k, i + 1, None);
        if let Some(a) = open {
            let all = runs_from(s, k, i, open);
            assert(all == seq![(a, i)] + rest);
            assert forall|j: int| 0 < j < all.len() implies #[trigger] all[j] == rest[j - 1] by {}
        }
    }
}

proof fn lemma_runs_from_in_class(s: Seq<char>, k: CharClass, i: int, open: Option<int>)
    requires
        0 <= i <= s.len(),
        open matches Some(a) ==> 0 <= a < i && forall|q: int| a <= q < i ==> in_class(
            #[trigger] s[q],
            k,
        ),
    ensures
        forall|j: int, q: int|
            #![trigger s[q], runs_from(s, k, i, open)[j]]
            0 <= j < runs_from(s, k, i, open).len() && runs_from(s, k, i, open)[j].0 <= q
                < runs_from(s, k, i, open)[j].1 ==> in_class(s[q], k),
    decreases s.len() - i,
{
    lemma_runs_from_well_formed(s, k, i, open);
    if i >= s.len() {
        if let Some(a) = open {
            assert(runs_from(s, k, i, open) == seq![(a, s.len() as int)]);
        }
    } else if in_class(s[i], k) {
        let o = match open {
            Some(a) => Some(a),
            None => Some(i),
        };
        lemma_runs_from_in_class(s, k, i + 1, o);
        assert(runs_from(s, k, i, open) == runs_from(s, k, i + 1, o));
    } else {
        lemma_runs_from_in_class(s, k, i + 1, None);
        let rest = runs_from(s, k, i + 1, None);
        if let Some(a) = open {
            let all = runs_from(s, k, i, open);
            assert(all == seq![(a, i)] + rest);
            assert forall|j: int| 0 < j < all.len() implies #[trigger] all[j] == rest[j - 1] by {}
        }
    }
}

/// Every character of a span that `runs` gives belongs to the class.
pub proof fn lemma_runs_in_class(s: Seq<char>, k: CharClass, j: int)
    requires
        0 <= j < runs(s, k).len(),
    ensures
        0 <= runs(s, k)[j].0 < runs(s, k)[j].1 <= s.len(),
        forall|q: int| runs(s, k)[j].0 <= q < runs(s, k)[j].1 ==> in_class(#[trigger] s[q], k),
{
    lemma_runs_well_formed(s, k);
    lemma_runs_from_in_class(s, k, 0, None);
    assert forall|q: int| runs(s, k)[j].0 <= q < runs(s, k)[j].1 implies in_class(#[trigger] s[q], k) by {
        let p = runs_from(s, k, 0, None)[j];
        assert(p.0 <= q < p.1);
    }
}

/// Well-formedness of the spans that `runs` gives.
pub proof fn lemma_runs_well_formed(s: Seq<char>, k: CharClass)
    ensures
        forall|j: int|
            0 <= j < runs(s, k).len() ==> {
                let p = #[trigger] runs(s, k)[j];
                0 <= p.0 < p.1 <= s.len()
            },
{
    lemma_runs_from_well_formed(s, k, 0, None);
}

/// The maximal runs of class `k` in `s` (as `split_whitespace` and friends
/// find them), as spans.
pub fn find_runs(s: &[char], k: &CharClass) -> (r: Vec<(usize, usize)>)
    ensures
        spans_view(r@) == runs(s@, *k),
        forall|j: int|
            0 <= j < r@.len() ==> #[trigger] r@[j].0 < r@[j].1 <= s@.len(),
{
    let mut out: Vec<(usize, usize)> = Vec::new();
    let mut open: Option<usize> = None;
    let mut i: usize = 0;
    proof {
        lemma_runs_well_formed(s@, *k);
    }
    while i < s.len()
        invariant
            i <= s@.len(),
            open matches Some(a) ==> a < i,
            spans_view(out@) + runs_from(s@, *k, i as int, opt_int(open)) == runs(
                s@,
                *k,
            ),
            forall|j: int| 0 <= j < out@.len() ==> #[trigger] out@[j].0 < out@[j].1 <= s@.len(),
        decreases s@.len() - i,
    {
        let ghost before = spans_view(out@);
        if char_in_class(s[i], k) {
            if open.is_none() {
                open = Some(i);
            }
        } else {
            match open {
                Some(a) => {
                    out.push((a, i));
                    assert(spans_view(out@) =~= before + seq![(a as int, i as int)]);
                    open = None;
                },
                None => {},
            }
        }
        i += 1;
    }
    match open {
        Some(a) => {
            let ghost before = spans_view(out@);
            out.push((a, i));
            assert(spans_view(out@) =~= before + seq![(a as int, i as int)]);
        },
        None => {
            assert(spans_view(out@) =~= spans_view(out@) + seq![]);
        },
    }
    out
}

/// The pieces of `s[i..]` between occurrences of `sep` (as `str::split`
/// gives them, empty pieces included); the current piece started at `start`.
pub open spec fn pieces_from(s: Seq<char>, sep: char, i: int, start: int) -> Seq<(int, int)>
    decreases s.len() - i,
{
    if i >= s.len() {
        seq![(start, s.len() as int)]
    } else if s[i] == sep {
        seq![(start, i)] + pieces_from(s, sep, i + 1, i + 1)
    } else {
        pieces_from(s, sep, i + 1, start)
    }
}

/// `str::split(sep)`, as spans.
pub open spec fn pieces(s: Seq<char>, sep: char) -> Seq<(int, int)> {
    pieces_from(s, sep, 0, 0)
}

/// The pieces of `s` between occurrences of `sep`, as spans.
pub fn find_pieces(s: &[char], sep: char) -> (r: Vec<(usize, usize)>)
    ensures
        spans_view(r@) == pieces(s@, sep),
        r@.len() >= 1,
        forall|j: int|
            0 <= j < r@.len() ==> #[trigger] r@[j].0 <= r@[j].1 <= s@.len(),
{
    let mut out: Vec<(usize, usize)> = Vec::new();
    let mut start: usize = 0;
    let mut i: usize = 0;
    while i < s.len()
        invariant
            start <= i <= s@.len(),
            spans_view(out@) + pieces_from(s@, sep, i as int, start as int) == pieces(s@, sep),
            forall|j: int| 0 <= j < out@.len() ==> #[trigger] out@[j].0 <= out@[j].1 <= s@.len(),
        decreases s@.len() - i,
    {
        if s[i] == sep {
            let ghost before = spans_view(out@);
            out.push((start, i));
            assert(spans_view(out@) =~= before + seq![(start as int, i as int)]);
            start = i + 1;
        }
        i += 1;
    }
    let ghost before = spans_view(out@);
    out.push((start, i));
    assert(spans_view(out@) =~= before + seq![(start as int, i as int)]);
    out
}

// ---------------------------------------------------------------------------
// ASCII case folding
// ---------------------------------------------------------------------------

/// `char::to_ascii_lowercase`.
pub open spec fn lower(c: char) -> char {
    if 'A' <= c && c <= 'Z' {
        ((c as u32) + 32) as char
    } else {
        c
    }
}

/// `str::to_ascii_lowercase`.
pub open spec fn lower_all(s: Seq<char>) -> Seq<char> {
    s.map_values(|c: char| lower(c))
}

/// `char::to_ascii_lowercase`.
pub fn lower_char(c: char) -> (r: char)
    ensures
        r == lower(c),
{
    if 'A' <= c && c <= 'Z' {
        ((c as u8) + 32) as char
    } else {
        c
    }
}

/// `str::to_ascii_lowercase` on a character vector.
pub fn lowered(s: &[char]) -> (r: Vec<char>)
    ensures
        r@ == lower_all(s@),
{
    let mut r: Vec<char> = Vec::new();
    let mut i: usize = 0;
    while i < s.len()
        invariant
            i <= s@.len(),
            r@ == lower_all(s@.subrange(0, i as int)),
        decreases s@.len() - i,
    {
        r.push(lower_char(s[i]));
        assert(lower_all(s@.subrange(0, i + 1)) =~= lower_all(s@.subrange(0, i as int)).push(
            lower(s@[i as int]),
        ));
        i += 1;
    }
    assert(s@.subrange(0, s@.len() as int) =~= s@);
    r
}

} // verus!
