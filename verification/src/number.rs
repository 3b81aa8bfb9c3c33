//! Numbers as the library sees them.
//!
//! The library never computes with floating-point values. A number enters it
//! either as text (the syntax that `str::parse::<f64>` accepts is recognised
//! here) or as the IEEE-754 binary64 bit pattern of a value computed by the
//! caller. Bit patterns are compared through an integer key: for two
//! binary64 values that are not NaN, `a < b` exactly when
//! `order_key(a) < order_key(b)`, and `a == b` exactly when their keys are
//! equal (so `-0.0` and `+0.0` share a key); every comparison with a NaN is
//! false.
use vstd::prelude::*;
use crate::text;

verus! {

// ---------------------------------------------------------------------------
// Number syntax
// ---------------------------------------------------------------------------

/// An ASCII decimal digit.
pub open spec fn is_digit(c: char) -> bool {
    '0' <= c && c <= '9'
}

/// Whether `c` is an ASCII decimal digit.
pub fn is_digit_char(c: char) -> (r: bool)
    ensures
        r == is_digit(c),
{
    '0' <= c && c <= '9'
}

/// `s` without one leading `+` or `-`.
pub open spec fn unsigned_part(s: Seq<char>) -> Seq<char> {
    if s.len() > 0 && (s[0] == '+' || s[0] == '-') {
        s.drop_first()
    } else {
        s
    }
}

/// The index of the first `e` or `E` in `s` at or after `i` (or `s.len()`).
pub open spec fn exponent_mark(s: Seq<char>, i: int) -> int
    decreases s.len() - i,
{
    if i < 0 || i >= s.len() {
        s.len() as int
    } else if s[i] == 'e' || s[i] == 'E' {
        i
    } else {
        exponent_mark(s, i + 1)
    }
}

/// `Digit+ | Digit+ '.' Digit* | Digit* '.' Digit+`.
pub open spec fn mantissa_ok(m: Seq<char>) -> bool {
    &&& forall|i: int| 0 <= i < m.len() ==> is_digit(#[trigger] m[i]) || m[i] == '.'
    &&& forall|i: int, j: int| 0 <= i < j < m.len() ==> !(#[trigger] m[i] == '.' && #[trigger] m[j] == '.')
    &&& exists|i: int| 0 <= i < m.len() && is_digit(#[trigger] m[i])
}

/// The digits of an exponent: `Sign? Digit+`.
pub open spec fn exponent_ok(x: Seq<char>) -> bool {
    let d = unsigned_part(x);
    d.len() > 0 && forall|i: int| 0 <= i < d.len() ==> is_digit(#[trigger] d[i])
}

/// `Number ::= ( Digit+ | Digit+ '.' Digit* | Digit* '.' Digit+ ) Exp?` with
/// `Exp ::= [eE] Sign? Digit+`.
pub open spec fn decimal_ok(b: Seq<char>) -> bool {
    let e = exponent_mark(b, 0);
    mantissa_ok(b.subrange(0, e)) && (e == b.len() || exponent_ok(b.subrange(e + 1, b.len() as int)))
}

/// `inf`, `infinity` or `nan`, in any ASCII case.
pub open spec fn special_ok(b: Seq<char>) -> bool {
    let l = text::lower_all(b);
    l == "inf"@ || l == "infinity"@ || l == "nan"@
}

/// The text that `str::parse::<f64>` accepts, as its documentation gives the
/// grammar: `Sign? ( 'inf' | 'infinity' | 'nan' | Number )`, case-insensitive,
/// with no surrounding whitespace.
pub open spec fn number_text(s: Seq<char>) -> bool {
    let b = unsigned_part(s);
    special_ok(b) || decimal_ok(b)
}

proof fn lemma_exponent_mark(s: Seq<char>, i: int)
    requires
        0 <= i <= s.len(),
    ensures
        i <= exponent_mark(s, i) <= s.len(),
        forall|k: int| i <= k < exponent_mark(s, i) ==> !(#[trigger] s[k] == 'e' || s[k] == 'E'),
        exponent_mark(s, i) < s.len() ==> (s[exponent_mark(s, i)] == 'e' || s[exponent_mark(
            s,
            i,
        )] == 'E'),
    decreases s.len() - i,
{
    if i < s.len() && !(s[i] == 'e' || s[i] == 'E') {
        lemma_exponent_mark(s, i + 1);
    }
}

/// Whether `m` is a well-formed mantissa.
fn mantissa_check(m: &[char]) -> (r: bool)
    ensures
        r == mantissa_ok(m@),
{
    let mut dot: Option<usize> = None;
    let mut digit: Option<usize> = None;
    let mut i: usize = 0;
    while i < m.len()
        invariant
            i <= m@.len(),
            forall|k: int| 0 <= k < i ==> is_digit(#[trigger] m@[k]) || m@[k] == '.',
            forall|k: int, j: int|
                0 <= k < j < i ==> !(#[trigger] m@[k] == '.' && #[trigger] m@[j] == '.'),
            dot matches Some(d) ==> d < i && m@[d as int] == '.',
            dot is None ==> forall|k: int| 0 <= k < i ==> m@[k] != '.',
            digit matches Some(d) ==> d < i && is_digit(m@[d as int]),
            digit is None ==> forall|k: int| 0 <= k < i ==> !is_digit(#[trigger] m@[k]),
        decreases m@.len() - i,
    {
        let c = m[i];
        if is_digit_char(c) {
            digit = Some(i);
        } else if c == '.' {
            if dot.is_some() {
                let d = dot.unwrap();
                assert(m@[d as int] == '.' && m@[i as int] == '.');
                return false;
            }
            dot = Some(i);
        } else {
            assert(!(is_digit(m@[i as int]) || m@[i as int] == '.'));
            return false;
        }
        i += 1;
    }
    match digit {
        Some(d) => {
            assert(is_digit(m@[d as int]));
            true
        },
        None => false,
    }
}

/// Whether `x` is a well-formed exponent (after the `e`).
fn exponent_check(x: &[char]) -> (r: bool)
    ensures
        r == exponent_ok(x@),
{
    let start: usize = if x.len() > 0 && (x[0] == '+' || x[0] == '-') {
        1
    } else {
        0
    };
    let ghost d = unsigned_part(x@);
    assert(d =~= x@.subrange(start as int, x@.len() as int));
    if start >= x.len() {
        return false;
    }
    let mut i = start;
    while i < x.len()
        invariant
            start <= i <= x@.len(),
            d =~= x@.subrange(start as int, x@.len() as int),
            d == unsigned_part(x@),
            forall|k: int| 0 <= k < i - start ==> is_digit(#[trigger] d[k]),
        decreases x@.len() - i,
    {
        if !is_digit_char(x[i]) {
            assert(!is_digit(d[i - start]));
            return false;
        }
        i += 1;
    }
    true
}

/// Whether `s` is text that `str::parse::<f64>` accepts.
pub fn is_number_text(s: &[char]) -> (r: bool)
    ensures
        r == number_text(s@),
{
    let start: usize = if s.len() > 0 && (s[0] == '+' || s[0] == '-') {
        1
    } else {
        0
    };
    let b = text::copy_range(s, start, s.len());
    assert(b@ =~= unsigned_part(s@));
    let l = text::lowered(b.as_slice());
    if text::chars_are(l.as_slice(), "inf") || text::chars_are(l.as_slice(), "infinity") || text::chars_are(
        l.as_slice(),
        "nan",
    ) {
        return true;
    }
    let mut e: usize = 0;
    while e < b.len() && !(b[e] == 'e' || b[e] == 'E')
        invariant
            e <= b@.len(),
            exponent_mark(b@, e as int) == exponent_mark(b@, 0),
        decreases b@.len() - e,
    {
        e += 1;
    }
    proof {
        lemma_exponent_mark(b@, 0);
    }
    let mantissa = text::copy_range(b.as_slice(), 0, e);
    if !mantissa_check(mantissa.as_slice()) {
        return false;
    }
    if e == b.len() {
        return true;
    }
    let exponent = text::copy_range(b.as_slice(), e + 1, b.len());
    exponent_check(exponent.as_slice())
}

/// Whether the string `s` is text that `str::parse::<f64>` accepts.
pub fn is_number_str(s: &str) -> (r: bool)
    ensures
        r == number_text(s@),
{
    let v = text::chars_of(s);
    is_number_text(v.as_slice())
}

// ---------------------------------------------------------------------------
// Decimal rendering of integers
// ---------------------------------------------------------------------------

/// The decimal digit for `d < 10`.
pub open spec fn digit_char(d: int) -> char {
    (('0' as u32) + d) as char
}

/// The decimal text of `n`, as `Display` writes an unsigned integer.
pub open spec fn decimal(n: nat) -> Seq<char>
    decreases n,
{
    if n < 10 {
        seq![digit_char(n as int)]
    } else {
        decimal(n / 10).push(digit_char((n % 10) as int))
    }
}

/// The decimal text of `n`.
pub fn decimal_u16(n: u16) -> (r: Vec<char>)
    ensures
        r@ == decimal(n as nat),
    decreases n,
{
    let d = n % 10;
    let c = ((d as u8) + 48) as char;
    if n < 10 {
        let mut r: Vec<char> = Vec::new();
        r.push(c);
        r
    } else {
        let mut r = decimal_u16(n / 10);
        r.push(c);
        r
    }
}

// ---------------------------------------------------------------------------
// IEEE-754 binary64 bit patterns
// ---------------------------------------------------------------------------

/// The sign bit of a binary64 bit pattern.
pub open spec fn sign_bit(b: u64) -> bool {
    b >= 0x8000_0000_0000_0000
}

/// A binary64 bit pattern without its sign bit.
pub open spec fn magnitude(b: u64) -> int {
    (b % 0x8000_0000_0000_0000) as int
}

/// Whether the bit pattern `b` is a NaN: all exponent bits set and a
/// non-zero fraction.
pub open spec fn is_nan(b: u64) -> bool {
    magnitude(b) > 0x7ff0_0000_0000_0000
}

/// The position of the binary64 value `b` in the order of the reals, as an
/// integer (meaningful for values that are not NaN).
pub open spec fn order_key(b: u64) -> int {
    if sign_bit(b) {
        0x8000_0000_0000_0000 - magnitude(b)
    } else {
        0x8000_0000_0000_0000 + magnitude(b)
    }
}

/// `a < b` on binary64 values.
pub open spec fn lt(a: u64, b: u64) -> bool {
    !is_nan(a) && !is_nan(b) && order_key(a) < order_key(b)
}

/// `a <= b` on binary64 values.
pub open spec fn le(a: u64, b: u64) -> bool {
    !is_nan(a) && !is_nan(b) && order_key(a) <= order_key(b)
}

/// `a > b` on binary64 values.
pub open spec fn gt(a: u64, b: u64) -> bool {
    lt(b, a)
}

/// `a >= b` on binary64 values.
pub open spec fn ge(a: u64, b: u64) -> bool {
    le(b, a)
}

/// `f64::max`: the larger value, or the other one where one is NaN.
pub open spec fn max_of(a: u64, b: u64) -> u64 {
    if is_nan(a) {
        b
    } else if is_nan(b) {
        a
    } else if order_key(a) < order_key(b) {
        b
    } else {
        a
    }
}

/// Whether the bit pattern `b` is a NaN.
pub fn nan_bits(b: u64) -> (r: bool)
    ensures
        r == is_nan(b),
{
    b % 0x8000_0000_0000_0000 > 0x7ff0_0000_0000_0000
}

/// The order key of the binary64 value `b`.
pub fn key_of(b: u64) -> (r: u64)
    ensures
        r == order_key(b),
{
    let m = b % 0x8000_0000_0000_0000;
    if b >= 0x8000_0000_0000_0000 {
        0x8000_0000_0000_0000 - m
    } else {
        0x8000_0000_0000_0000 + m
    }
}

/// `a < b` on binary64 values.
pub fn less(a: u64, b: u64) -> (r: bool)
    ensures
        r == lt(a, b),
{
    !nan_bits(a) && !nan_bits(b) && key_of(a) < key_of(b)
}

/// `a <= b` on binary64 values.
pub fn less_eq(a: u64, b: u64) -> (r: bool)
    ensures
        r == le(a, b),
{
    !nan_bits(a) && !nan_bits(b) && key_of(a) <= key_of(b)
}

/// `f64::max` on binary64 values.
pub fn max_bits(a: u64, b: u64) -> (r: u64)
    ensures
        r == max_of(a, b),
{
    if nan_bits(a) {
        b
    } else if nan_bits(b) {
        a
    } else if key_of(a) < key_of(b) {
        b
    } else {
        a
    }
}

/// Positive and negative zero are equal, and neither is below the other.
pub proof fn lemma_zeros_equal()
    ensures
        order_key(0) == order_key(0x8000_0000_0000_0000),
        !lt(0, 0x8000_0000_0000_0000) && !lt(0x8000_0000_0000_0000, 0),
{
}

/// The order on binary64 values that are not NaN is total and transitive,
/// and nothing is ordered with a NaN.
pub proof fn lemma_order(a: u64, b: u64, c: u64)
    ensures
        !is_nan(a) && !is_nan(b) ==> (le(a, b) || le(b, a)),
        le(a, b) && le(b, c) ==> le(a, c),
        lt(a, b) ==> !le(b, a),
        is_nan(a) ==> !le(a, b) && !le(b, a),
{
}

/// `f64::max` gives NaN only when both arguments are NaN, and otherwise a
/// value at least as large as each argument that is not NaN.
pub proof fn lemma_max(a: u64, b: u64)
    ensures
        is_nan(max_of(a, b)) ==> is_nan(a) && is_nan(b),
        !is_nan(a) ==> le(a, max_of(a, b)),
        !is_nan(b) ==> le(b, max_of(a, b)),
        max_of(a, b) == a || max_of(a, b) == b,
{
}

// ---------------------------------------------------------------------------
// Laws
// ---------------------------------------------------------------------------

/// A non-empty run of decimal digits reads as a number.
pub proof fn law_digits_are_a_number(s: Seq<char>)
    requires
        s.len() > 0,
        forall|i: int| 0 <= i < s.len() ==> '0' <= #[trigger] s[i] && s[i] <= '9',
    ensures
        number_text(s),
{
    assert(unsigned_part(s) == s);
    lemma_exponent_mark(s, 0);
    if exponent_mark(s, 0) < s.len() {
        assert(is_digit(s[exponent_mark(s, 0)]));
    }
    assert(s.subrange(0, s.len() as int) =~= s);
    assert(is_digit(s[0]));
}

/// A number without a sign still reads as a number with a `-` or `+` in
/// front of it, and a sign alone does not.
pub proof fn law_signed_number(s: Seq<char>, sign: char)
    requires
        sign == '-' || sign == '+',
        !(s.len() > 0 && (s[0] == '+' || s[0] == '-')),
    ensures
        number_text(seq![sign] + s) == number_text(s),
        !number_text(seq![sign]),
{
    assert((seq![sign] + s).drop_first() =~= s);
    assert(unsigned_part(s) == s);
    let e: Seq<char> = seq![];
    assert(seq![sign].drop_first() =~= e);
    lemma_exponent_mark(e, 0);
    assert(e.subrange(0, 0) =~= e);
    assert(text::lower_all(e) =~= e) by {
        assert(text::lower_all(e).len() == 0);
    }
    reveal_strlit("inf");
    reveal_strlit("infinity");
    reveal_strlit("nan");
}

} // verus!
