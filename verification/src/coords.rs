//! Reading a map coordinate from the words of the command line.
//!
//! The accepted shapes are `x y z`, `x,y,z`, `vec(...)`, `vec3(...)`,
//! `vec4(...)`, `vector3(...)`, `vector4(...)`, `x=... y=... z=...`, and
//! JSON (`{"x":...}` or `[x,y,z]`). JSON text is recognised here and handed
//! on whole, to be read by a JSON reader; every other shape is read here, and
//! each coordinate comes out as its number text.
use vstd::prelude::*;
use crate::number;
use crate::text;
use crate::text::CharClass;

verus! {

// ---------------------------------------------------------------------------
// Types and their views
// ---------------------------------------------------------------------------

/// Three coordinates as number text; each reads as a number (see
/// `number::number_text`).
pub struct CoordinateText {
    pub x: String,
    pub y: String,
    pub z: String,
}

/// The model of three coordinate texts.
pub struct TextTriple {
    pub x: Seq<char>,
    pub y: Seq<char>,
    pub z: Seq<char>,
}

impl View for CoordinateText {
    type V = TextTriple;

    open spec fn view(&self) -> TextTriple {
        TextTriple { x: self.x@, y: self.y@, z: self.z@ }
    }
}

/// Where a coordinate comes from.
pub enum CoordinateInput {
    /// JSON text (trimmed), to be read as `{"x":..,"y":..,"z":..}` (keys also
    /// in upper case) or as an array of at least three numbers.
    Json(String),
    /// Coordinates read from any other shape.
    Text(CoordinateText),
}

/// The model of a `CoordinateInput`.
pub enum InputModel {
    Json(Seq<char>),
    Text(TextTriple),
}

impl View for CoordinateInput {
    type V = InputModel;

    open spec fn view(&self) -> InputModel {
        match self {
            CoordinateInput::Json(s) => InputModel::Json(s@),
            CoordinateInput::Text(t) => InputModel::Text(t@),
        }
    }
}

/// Why a coordinate could not be read.
pub enum CoordinateError {
    /// No coordinate words were given.
    Missing,
    /// The value given for `key` does not read as a number.
    InvalidValue { key: String, value: String },
    /// `key=value` input without all of `x`, `y` and `z`.
    IncompleteKeyValue,
    /// No shape matched.
    Unrecognized,
}

/// The model of a `CoordinateError`.
pub enum CoordinateErrorModel {
    Missing,
    InvalidValue { key: Seq<char>, value: Seq<char> },
    IncompleteKeyValue,
    Unrecognized,
}

impl View for CoordinateError {
    type V = CoordinateErrorModel;

    open spec fn view(&self) -> CoordinateErrorModel {
        match self {
            CoordinateError::Missing => CoordinateErrorModel::Missing,
            CoordinateError::InvalidValue { key, value } => CoordinateErrorModel::InvalidValue {
                key: key@,
                value: value@,
            },
            CoordinateError::IncompleteKeyValue => CoordinateErrorModel::IncompleteKeyValue,
            CoordinateError::Unrecognized => CoordinateErrorModel::Unrecognized,
        }
    }
}

/// The views of a list of strings.
pub open spec fn strings_view(v: Seq<String>) -> Seq<Seq<char>> {
    v.map_values(|s: String| s@)
}

/// The view of an optional string.
pub open spec fn opt_view(o: Option<String>) -> Option<Seq<char>> {
    match o {
        Some(s) => Some(s@),
        None => None,
    }
}

// ---------------------------------------------------------------------------
// Specification
// ---------------------------------------------------------------------------

/// The words joined with single spaces (`[String]::join(" ")`).
pub open spec fn join_words(words: Seq<Seq<char>>) -> Seq<char>
    decreases words.len(),
{
    if words.len() == 0 {
        seq![]
    } else if words.len() == 1 {
        words[0]
    } else {
        join_words(words.drop_last()) + seq![' '] + words.last()
    }
}

/// The trimmed input when it starts like JSON (`{` or `[`).
pub open spec fn json_text(input: Seq<char>) -> Option<Seq<char>> {
    let t = text::trim(input);
    if t.len() > 0 && (t[0] == '{' || t[0] == '[') {
        Some(t)
    } else {
        None
    }
}

/// The index of the first `c` in `s` at or after `i` (or `s.len()`).
pub open spec fn first_index(s: Seq<char>, c: char, i: int) -> int
    decreases s.len() - i,
{
    if i < 0 || i >= s.len() {
        s.len() as int
    } else if s[i] == c {
        i
    } else {
        first_index(s, c, i + 1)
    }
}

/// The coordinates found so far by the `key=value` reader.
pub struct KeyValueState {
    pub x: Option<Seq<char>>,
    pub y: Option<Seq<char>>,
    pub z: Option<Seq<char>>,
}

/// Records `value` under `key` (the value must read as a number whatever the
/// key; keys other than `x`, `y`, `z` are then ignored).
pub open spec fn assign(key: Seq<char>, value: Seq<char>, st: KeyValueState) -> Result<
    KeyValueState,
    CoordinateErrorModel,
> {
    if !number::number_text(value) {
        Err(CoordinateErrorModel::InvalidValue { key, value })
    } else if key == "x"@ {
        Ok(KeyValueState { x: Some(value), ..st })
    } else if key == "y"@ {
        Ok(KeyValueState { y: Some(value), ..st })
    } else if key == "z"@ {
        Ok(KeyValueState { z: Some(value), ..st })
    } else {
        Ok(st)
    }
}

/// The result once all tokens are read.
pub open spec fn finish(st: KeyValueState) -> Result<TextTriple, CoordinateErrorModel> {
    match (st.x, st.y, st.z) {
        (Some(x), Some(y), Some(z)) => Ok(TextTriple { x, y, z }),
        _ => Err(CoordinateErrorModel::IncompleteKeyValue),
    }
}

/// The `key=value` reader over the tokens from index `i` on. A token
/// `key=value` sets `key` (lower-cased); a token `key=` takes the next token
/// as its value; the tokens `x`, `y` or `z` followed by the token `=` take
/// the token after that.
pub open spec fn key_values_from(toks: Seq<Seq<char>>, i: int, st: KeyValueState) -> Result<
    TextTriple,
    CoordinateErrorModel,
>
    decreases toks.len() + 3 - i,
{
    if i < 0 || i >= toks.len() {
        finish(st)
    } else {
        let tok = toks[i];
        let low = text::lower_all(tok);
        let p = first_index(tok, '=', 0);
        if p < tok.len() {
            let key = low.subrange(0, p);
            let v0 = tok.subrange(p + 1, tok.len() as int);
            let next = if v0.len() == 0 {
                i + 1
            } else {
                i
            };
            let value = if v0.len() == 0 {
                if i + 1 < toks.len() {
                    toks[i + 1]
                } else {
                    seq![]
                }
            } else {
                v0
            };
            match assign(key, value, st) {
                Ok(s2) => key_values_from(toks, next + 1, s2),
                Err(e) => Err(e),
            }
        } else if (low == "x"@ || low == "y"@ || low == "z"@) && i + 1 < toks.len() && toks[i
            + 1] == "="@ {
            let value = if i + 2 < toks.len() {
                toks[i + 2]
            } else {
                seq![]
            };
            match assign(low, value, st) {
                Ok(s2) => key_values_from(toks, i + 3, s2),
                Err(e) => Err(e),
            }
        } else {
            key_values_from(toks, i + 1, st)
        }
    }
}

/// The tokens of `key=value` input: whitespace, `,`, `(` and `)` separate.
pub open spec fn key_value_tokens(input: Seq<char>) -> Seq<Seq<char>> {
    text::span_texts(input, text::runs(input, CharClass::KeyValue))
}

/// `key=value` input read.
pub open spec fn key_value_coordinates(input: Seq<char>) -> Result<TextTriple, CoordinateErrorModel> {
    key_values_from(
        key_value_tokens(input),
        0,
        KeyValueState { x: None, y: None, z: None },
    )
}

/// The vector prefix (in lower case) that the lower-cased text starts with.
pub open spec fn vector_prefix(l: Seq<char>) -> Option<Seq<char>> {
    if text::starts_with(l, "vector4"@) {
        Some("vector4"@)
    } else if text::starts_with(l, "vector3"@) {
        Some("vector3"@)
    } else if text::starts_with(l, "vec4"@) {
        Some("vec4"@)
    } else if text::starts_with(l, "vec3"@) {
        Some("vec3"@)
    } else if text::starts_with(l, "vec"@) {
        Some("vec"@)
    } else {
        None
    }
}

/// The input without a vector wrapper, and whether it had one: after a
/// prefix `vector4`, `vector3`, `vec4`, `vec3` or `vec` (any case), the rest
/// without its enclosing parentheses if it has them.
pub open spec fn strip_vector(input: Seq<char>) -> (Seq<char>, bool) {
    let t = text::trim(input);
    match vector_prefix(text::lower_all(t)) {
        None => (t, false),
        Some(p) => {
            let after = t.subrange(p.len() as int, t.len() as int);
            let a = text::trim(after);
            if a.len() >= 2 && a[0] == '(' && a[a.len() - 1] == ')' {
                (a.subrange(1, a.len() - 1), true)
            } else {
                (after, true)
            }
        },
    }
}

/// The numbers in `input`: the maximal runs of digits, `.`, `-`, `+`, `e`
/// and `E` that read as numbers.
pub open spec fn numbers_in(input: Seq<char>) -> Seq<Seq<char>> {
    text::span_texts(input, text::runs(input, CharClass::Numeric)).filter(
        |w: Seq<char>| number::number_text(w),
    )
}

/// Plain or vector input read: exactly three numbers, or at least three in a
/// vector (the first three count).
pub open spec fn numeric_coordinates(input: Seq<char>) -> Result<TextTriple, CoordinateErrorModel> {
    let (content, is_vector) = strip_vector(input);
    let ns = numbers_in(content);
    if ns.len() == 3 || (is_vector && ns.len() >= 3) {
        Ok(TextTriple { x: ns[0], y: ns[1], z: ns[2] })
    } else {
        Err(CoordinateErrorModel::Unrecognized)
    }
}

/// Wraps a text result.
pub open spec fn as_input(r: Result<TextTriple, CoordinateErrorModel>) -> Result<
    InputModel,
    CoordinateErrorModel,
> {
    match r {
        Ok(t) => Ok(InputModel::Text(t)),
        Err(e) => Err(e),
    }
}

/// The coordinate that the words give: JSON first, then `key=value` input
/// (when the joined words hold a `=`), then plain or vector numbers.
pub open spec fn coordinates_of(words: Seq<Seq<char>>) -> Result<InputModel, CoordinateErrorModel> {
    if words.len() == 0 {
        Err(CoordinateErrorModel::Missing)
    } else {
        let input = join_words(words);
        match json_text(input) {
            Some(t) => Ok(InputModel::Json(t)),
            None => if input.contains('=') {
                as_input(key_value_coordinates(input))
            } else {
                as_input(numeric_coordinates(input))
            },
        }
    }
}

/// The index after the leading `(` and `[` of `s` from `i`.
pub open spec fn skip_brackets(s: Seq<char>, i: int) -> int
    decreases s.len() - i,
{
    if 0 <= i < s.len() && (s[i] == '(' || s[i] == '[') {
        skip_brackets(s, i + 1)
    } else {
        i
    }
}

/// A word that starts like a negative number: after any leading `(` and
/// `[`, a `-` followed by a digit or `.`.
pub open spec fn coordinate_like(s: Seq<char>) -> bool {
    let t = s.subrange(skip_brackets(s, 0), s.len() as int);
    t.len() >= 2 && t[0] == '-' && (number::is_digit(t[1]) || t[1] == '.')
}

// ---------------------------------------------------------------------------
// Lemmas
// ---------------------------------------------------------------------------

proof fn lemma_first_index(s: Seq<char>, c: char, i: int)
    requires
        0 <= i <= s.len(),
    ensures
        i <= first_index(s, c, i) <= s.len(),
        forall|k: int| i <= k < first_index(s, c, i) ==> #[trigger] s[k] != c,
        first_index(s, c, i) < s.len() ==> s[first_index(s, c, i)] == c,
    decreases s.len() - i,
{
    if i < s.len() && s[i] != c {
        lemma_first_index(s, c, i + 1);
    }
}

// ---------------------------------------------------------------------------
// Implementation
// ---------------------------------------------------------------------------

/// Whether a word that starts with `-` is rather a coordinate than an
/// option: after any leading `(` and `[`, a `-` followed by a digit or `.`.
pub fn looks_like_coordinate_token(value: &str) -> (r: bool)
    ensures
        r == coordinate_like(value@),
{
    let s = text::chars_of(value);
    let mut i: usize = 0;
    while i < s.len() && (s[i] == '(' || s[i] == '[')
        invariant
            i <= s@.len(),
            skip_brackets(s@, i as int) == skip_brackets(s@, 0),
        decreases s@.len() - i,
    {
        i += 1;
    }
    let ghost t = s@.subrange(i as int, s@.len() as int);
    if i < s.len() && s.len() - i >= 2 && s[i] == '-' {
        assert(t[0] == s@[i as int] && t[1] == s@[i + 1]);
        number::is_digit_char(s[i + 1]) || s[i + 1] == '.'
    } else {
        false
    }
}

/// The words joined with single spaces.
fn join_with_spaces(words: &[String]) -> (r: Vec<char>)
    ensures
        r@ == join_words(strings_view(words@)),
{
    let ghost w = strings_view(words@);
    let mut r: Vec<char> = Vec::new();
    let mut i: usize = 0;
    while i < words.len()
        invariant
            i <= words@.len(),
            w == strings_view(words@),
            r@ == join_words(w.subrange(0, i as int)),
        decreases words@.len() - i,
    {
        if i > 0 {
            r.push(' ');
        }
        text::push_str(&mut r, words[i].as_str());
        proof {
            let pre = w.subrange(0, i as int);
            let post = w.subrange(0, i + 1);
            assert(post.drop_last() =~= pre);
            assert(post.last() == words@[i as int]@);
            if i == 0 {
                assert(r@ =~= post[0]);
            } else {
                assert(r@ =~= join_words(pre) + seq![' '] + post.last());
            }
        }
        i += 1;
    }
    assert(w.subrange(0, words@.len() as int) =~= w);
    r
}

/// The trimmed input when it starts like JSON (`{` or `[`); such input is
/// read as JSON by the caller.
fn json_text_of(input: &[char]) -> (r: Option<Vec<char>>)
    ensures
        match r {
            Some(t) => json_text(input@) == Some(t@),
            None => json_text(input@) is None,
        },
{
    let t = text::trimmed(input);
    if t.len() > 0 && (t[0] == '{' || t[0] == '[') {
        Some(t)
    } else {
        None
    }
}

/// Records `value` for `key`: the value must read as a number (whatever the
/// key), and is kept when the key is `x`, `y` or `z`; an invalid value
/// leaves all three slots as they were.
fn assign_value(
    key: &[char],
    value: &[char],
    x: &mut Option<String>,
    y: &mut Option<String>,
    z: &mut Option<String>,
) -> (r: Result<(), CoordinateError>)
    ensures
        ({
            let st = KeyValueState { x: opt_view(*old(x)), y: opt_view(*old(y)), z: opt_view(*old(z)) };
            match assign(key@, value@, st) {
                Ok(s2) => r is Ok && opt_view(*final(x)) == s2.x && opt_view(*final(y)) == s2.y
                    && opt_view(*final(z)) == s2.z,
                Err(e) => r matches Err(e2) && e2@ == e && *final(x) == *old(x) && *final(y)
                    == *old(y) && *final(z) == *old(z),
            }
        }),
{
    if !number::is_number_text(value) {
        return Err(
            CoordinateError::InvalidValue { key: text::string_of(key), value: text::string_of(value) },
        );
    }
    if text::chars_are(key, "x") {
        *x = Some(text::string_of(value));
    } else if text::chars_are(key, "y") {
        *y = Some(text::string_of(value));
    } else if text::chars_are(key, "z") {
        *z = Some(text::string_of(value));
    }
    Ok(())
}

/// The position of the first `c` in `s`, or `s.len()`.
fn find_char(s: &[char], c: char) -> (r: usize)
    ensures
        r == first_index(s@, c, 0),
{
    let mut i: usize = 0;
    while i < s.len() && s[i] != c
        invariant
            i <= s@.len(),
            first_index(s@, c, i as int) == first_index(s@, c, 0),
        decreases s@.len() - i,
    {
        i += 1;
    }
    i
}

/// Reads `key=value` input; `None` when the input holds no `=`.
fn key_value_coordinates_of(input: &[char]) -> (r: Option<Result<CoordinateText, CoordinateError>>)
    ensures
        input@.contains('=') <==> r is Some,
        r matches Some(res) ==> match key_value_coordinates(input@) {
            Ok(t) => res matches Ok(c) && c@ == t,
            Err(e) => res matches Err(e2) && e2@ == e,
        },
{
    if !text::contains_char(input, '=') {
        return None;
    }
    let spans = text::find_runs(input, &CharClass::KeyValue);
    let ghost toks = key_value_tokens(input@);
    let mut tokens: Vec<Vec<char>> = Vec::new();
    let mut k: usize = 0;
    proof {
        text::lemma_runs_well_formed(input@, CharClass::KeyValue);
    }
    while k < spans.len()
        invariant
            k <= spans@.len(),
            text::spans_view(spans@) == text::runs(input@, CharClass::KeyValue),
            forall|j: int| 0 <= j < spans@.len() ==> #[trigger] spans@[j].0 < spans@[j].1 <= input@.len(),
            toks == key_value_tokens(input@),
            tokens@.len() == k,
            forall|j: int| 0 <= j < k ==> #[trigger] tokens@[j]@ == toks[j],
        decreases spans@.len() - k,
    {
        let (a, b) = spans[k];
        assert(text::spans_view(spans@)[k as int] == (a as int, b as int));
        tokens.push(text::copy_range(input, a, b));
        k += 1;
    }
    assert(toks.len() == tokens@.len());
    let mut x: Option<String> = None;
    let mut y: Option<String> = None;
    let mut z: Option<String> = None;
    let mut index: usize = 0;
    while index < tokens.len()
        invariant
            index <= tokens@.len(),
            toks == key_value_tokens(input@),
            toks.len() == tokens@.len(),
            input@.contains('='),
            forall|j: int| 0 <= j < toks.len() ==> #[trigger] tokens@[j]@ == toks[j],
            key_values_from(
                toks,
                index as int,
                KeyValueState { x: opt_view(x), y: opt_view(y), z: opt_view(z) },
            ) == key_value_coordinates(input@),
        decreases tokens@.len() - index,
    {
        let token = &tokens[index];
        let ghost tok = toks[index as int];
        assert(token@ == tok);
        let lower = text::lowered(token.as_slice());
        let p = find_char(token.as_slice(), '=');
        proof {
            lemma_first_index(tok, '=', 0);
        }
        let ghost st0 = KeyValueState { x: opt_view(x), y: opt_view(y), z: opt_view(z) };
        // How many tokens this step reads.
        let mut step: usize = 1;
        if p < token.len() {
            let key = text::copy_range(lower.as_slice(), 0, p);
            let token_value = text::copy_range(token.as_slice(), p + 1, token.len());
            let value: Vec<char> = if token_value.len() == 0 {
                step = 2;
                if index + 1 < tokens.len() {
                    tokens[index + 1].clone()
                } else {
                    Vec::new()
                }
            } else {
                token_value
            };
            match assign_value(key.as_slice(), value.as_slice(), &mut x, &mut y, &mut z) {
                Err(error) => {
                    return Some(Err(error));
                },
                Ok(()) => {},
            }
        } else if (text::chars_are(lower.as_slice(), "x") || text::chars_are(lower.as_slice(), "y")
            || text::chars_are(lower.as_slice(), "z")) && index + 1 < tokens.len()
            && text::chars_are(tokens[index + 1].as_slice(), "=") {
            let value: Vec<char> = if tokens.len() - index > 2 {
                tokens[index + 2].clone()
            } else {
                Vec::new()
            };
            match assign_value(lower.as_slice(), value.as_slice(), &mut x, &mut y, &mut z) {
                Err(error) => {
                    return Some(Err(error));
                },
                Ok(()) => {},
            }
            step = 3;
        }
        proof {
            let st1 = KeyValueState { x: opt_view(x), y: opt_view(y), z: opt_view(z) };
            assert(key_values_from(toks, index as int, st0) == key_values_from(
                toks,
                index + step,
                st1,
            ));
            if index + step >= toks.len() {
                assert(key_values_from(toks, index + step, st1) == finish(st1));
                assert(key_values_from(toks, toks.len() as int, st1) == finish(st1));
            }
        }
        index = if tokens.len() - index > step {
            index + step
        } else {
            tokens.len()
        };
    }
    match (x, y, z) {
        (Some(x), Some(y), Some(z)) => Some(Ok(CoordinateText { x, y, z })),
        _ => Some(Err(CoordinateError::IncompleteKeyValue)),
    }
}

/// Removes a vector wrapper (`vector4`, `vector3`, `vec4`, `vec3` or `vec`,
/// in any case, with or without parentheses) and tells whether there was one.
fn strip_vector_of(input: &[char]) -> (r: (Vec<char>, bool))
    ensures
        (r.0@, r.1) == strip_vector(input@),
{
    let t = text::trimmed(input);
    let l = text::lowered(t.as_slice());
    let prefixes: [&str; 5] = ["vector4", "vector3", "vec4", "vec3", "vec"];
    let ghost pv: Seq<Seq<char>> = seq!["vector4"@, "vector3"@, "vec4"@, "vec3"@, "vec"@];
    let mut k: usize = 0;
    while k < 5
        invariant
            k <= 5,
            pv == seq!["vector4"@, "vector3"@, "vec4"@, "vec3"@, "vec"@],
            forall|j: int| 0 <= j < 5 ==> #[trigger] prefixes@[j]@ == pv[j],
            forall|j: int| 0 <= j < k ==> !text::starts_with(l@, #[trigger] pv[j]),
            t@ == text::trim(input@),
            l@ == text::lower_all(t@),
        decreases 5 - k,
    {
        let prefix = text::chars_of(prefixes[k]);
        if text::has_prefix(l.as_slice(), prefix.as_slice()) {
            assert(vector_prefix(l@) == Some(pv[k as int]));
            let after = text::copy_range(t.as_slice(), prefix.len(), t.len());
            let a = text::trimmed(after.as_slice());
            if a.len() >= 2 && a[0] == '(' && a[a.len() - 1] == ')' {
                let content = text::copy_range(a.as_slice(), 1, a.len() - 1);
                return (content, true);
            }
            return (after, true);
        }
        k += 1;
    }
    assert(vector_prefix(l@) is None);
    (t, false)
}

/// The numbers in `input`, as text: the maximal runs of digits, `.`, `-`,
/// `+`, `e` and `E` that read as numbers.
fn numbers_of(input: &[char]) -> (r: Vec<Vec<char>>)
    ensures
        r@.len() == numbers_in(input@).len(),
        forall|j: int| 0 <= j < r@.len() ==> #[trigger] r@[j]@ == numbers_in(input@)[j],
{
    let spans = text::find_runs(input, &CharClass::Numeric);
    let ghost words = text::span_texts(input@, text::runs(input@, CharClass::Numeric));
    let ghost pred = |w: Seq<char>| number::number_text(w);
    let mut r: Vec<Vec<char>> = Vec::new();
    let mut k: usize = 0;
    while k < spans.len()
        invariant
            k <= spans@.len(),
            text::spans_view(spans@) == text::runs(input@, CharClass::Numeric),
            forall|j: int| 0 <= j < spans@.len() ==> #[trigger] spans@[j].0 < spans@[j].1 <= input@.len(),
            words == text::span_texts(input@, text::runs(input@, CharClass::Numeric)),
            pred == (|w: Seq<char>| number::number_text(w)),
            r@.len() == words.take(k as int).filter(pred).len(),
            forall|j: int| 0 <= j < r@.len() ==> #[trigger] r@[j]@ == words.take(k as int).filter(pred)[j],
        decreases spans@.len() - k,
    {
        let (a, b) = spans[k];
        assert(text::spans_view(spans@)[k as int] == (a as int, b as int));
        let w = text::copy_range(input, a, b);
        assert(w@ == words[k as int]);
        assert(words.take(k + 1).drop_last() =~= words.take(k as int));
        assert(words.take(k + 1).last() == words[k as int]);
        proof {
            reveal(Seq::filter);
        }
        if number::is_number_text(w.as_slice()) {
            r.push(w);
        }
        k += 1;
    }
    assert(words.take(spans@.len() as int) =~= words);
    r
}

/// Reads plain or vector input: exactly three numbers, or at least three in
/// a vector, of which the first three count.
fn numeric_coordinates_of(input: &[char]) -> (r: Result<CoordinateText, CoordinateError>)
    ensures
        match numeric_coordinates(input@) {
            Ok(t) => r matches Ok(c) && c@ == t,
            Err(e) => r matches Err(e2) && e2@ == e,
        },
{
    let (content, is_vector) = strip_vector_of(input);
    let numbers = numbers_of(content.as_slice());
    if numbers.len() == 3 || (is_vector && numbers.len() >= 3) {
        return Ok(
            CoordinateText {
                x: text::string_of(numbers[0].as_slice()),
                y: text::string_of(numbers[1].as_slice()),
                z: text::string_of(numbers[2].as_slice()),
            },
        );
    }
    Err(CoordinateError::Unrecognized)
}

/// The trimmed input when it starts like JSON (`{` or `[`); such input is
/// read as JSON by the caller.
pub fn json_coordinates_text(input: &str) -> (r: Option<String>)
    ensures
        match r {
            Some(t) => json_text(input@) == Some(t@),
            None => json_text(input@) is None,
        },
{
    let v = text::chars_of(input);
    match json_text_of(v.as_slice()) {
        Some(t) => Some(text::string_of(t.as_slice())),
        None => None,
    }
}

/// Records `value` for `key`: the value must read as a number (whatever the
/// key), and is kept when the key is `x`, `y` or `z`; an invalid value
/// leaves all three slots as they were.
pub fn set_coordinate_value(
    key: &str,
    value: &str,
    x: &mut Option<String>,
    y: &mut Option<String>,
    z: &mut Option<String>,
) -> (r: Result<(), CoordinateError>)
    ensures
        ({
            let st = KeyValueState { x: opt_view(*old(x)), y: opt_view(*old(y)), z: opt_view(*old(z)) };
            match assign(key@, value@, st) {
                Ok(s2) => r is Ok && opt_view(*final(x)) == s2.x && opt_view(*final(y)) == s2.y
                    && opt_view(*final(z)) == s2.z,
                Err(e) => r matches Err(e2) && e2@ == e && *final(x) == *old(x) && *final(y)
                    == *old(y) && *final(z) == *old(z),
            }
        }),
{
    let k = text::chars_of(key);
    let v = text::chars_of(value);
    assign_value(k.as_slice(), v.as_slice(), x, y, z)
}

/// Reads `key=value` input; `None` when the input holds no `=`.
pub fn parse_key_value_coordinates(input: &str) -> (r: Option<Result<CoordinateText, CoordinateError>>)
    ensures
        input@.contains('=') <==> r is Some,
        r matches Some(res) ==> match key_value_coordinates(input@) {
            Ok(t) => res matches Ok(c) && c@ == t,
            Err(e) => res matches Err(e2) && e2@ == e,
        },
{
    let v = text::chars_of(input);
    key_value_coordinates_of(v.as_slice())
}

/// Removes a vector wrapper (`vector4`, `vector3`, `vec4`, `vec3` or `vec`,
/// in any case, with or without parentheses) and tells whether there was one.
pub fn strip_vector_wrapper(input: &str) -> (r: (String, bool))
    ensures
        (r.0@, r.1) == strip_vector(input@),
{
    let v = text::chars_of(input);
    let (content, is_vector) = strip_vector_of(v.as_slice());
    (text::string_of(content.as_slice()), is_vector)
}

/// The numbers in `input`, as text: the maximal runs of digits, `.`, `-`,
/// `+`, `e` and `E` that read as numbers.
pub fn extract_numbers(input: &str) -> (r: Vec<String>)
    ensures
        strings_view(r@) == numbers_in(input@),
{
    let v = text::chars_of(input);
    let numbers = numbers_of(v.as_slice());
    let mut r: Vec<String> = Vec::new();
    let mut k: usize = 0;
    while k < numbers.len()
        invariant
            k <= numbers@.len(),
            numbers@.len() == numbers_in(input@).len(),
            forall|j: int| 0 <= j < numbers@.len() ==> #[trigger] numbers@[j]@ == numbers_in(input@)[j],
            r@.len() == k,
            forall|j: int| 0 <= j < k ==> #[trigger] r@[j]@ == numbers_in(input@)[j],
        decreases numbers@.len() - k,
    {
        r.push(text::string_of(numbers[k].as_slice()));
        k += 1;
    }
    assert(strings_view(r@) =~= numbers_in(input@));
    r
}

/// Reads plain or vector input: exactly three numbers, or at least three in
/// a vector, of which the first three count.
pub fn parse_numeric_coordinates(input: &str) -> (r: Result<CoordinateText, CoordinateError>)
    ensures
        match numeric_coordinates(input@) {
            Ok(t) => r matches Ok(c) && c@ == t,
            Err(e) => r matches Err(e2) && e2@ == e,
        },
{
    let v = text::chars_of(input);
    numeric_coordinates_of(v.as_slice())
}

/// Reads the coordinate from the coordinate words of the command line.
pub fn parse_coordinates(args: &[String]) -> (r: Result<CoordinateInput, CoordinateError>)
    ensures
        match coordinates_of(strings_view(args@)) {
            Ok(m) => r matches Ok(c) && c@ == m,
            Err(e) => r matches Err(e2) && e2@ == e,
        },
{
    if args.len() == 0 {
        return Err(CoordinateError::Missing);
    }
    let input = join_with_spaces(args);
    match json_text_of(input.as_slice()) {
        Some(t) => {
            return Ok(CoordinateInput::Json(text::string_of(t.as_slice())));
        },
        None => {},
    }
    match key_value_coordinates_of(input.as_slice()) {
        Some(result) => {
            return match result {
                Ok(t) => Ok(CoordinateInput::Text(t)),
                Err(e) => Err(e),
            };
        },
        None => {},
    }
    match numeric_coordinates_of(input.as_slice()) {
        Ok(t) => Ok(CoordinateInput::Text(t)),
        Err(e) => Err(e),
    }
}

// ---------------------------------------------------------------------------
// Laws
// ---------------------------------------------------------------------------

/// A number found in the input is a non-empty piece of it, made only of
/// digits and `.`, `-`, `+`, `e`, `E`, that reads as a number.
pub proof fn law_numbers_are_numeric_pieces(input: Seq<char>, j: int)
    requires
        0 <= j < numbers_in(input).len(),
    ensures
        number::number_text(numbers_in(input)[j]),
        numbers_in(input)[j].len() > 0,
        forall|q: int|
            0 <= q < numbers_in(input)[j].len() ==> {
                let c = #[trigger] numbers_in(input)[j][q];
                ('0' <= c && c <= '9') || c == '.' || c == '-' || c == '+' || c == 'e' || c == 'E'
            },
        exists|lo: int, hi: int|
            0 <= lo < hi <= input.len() && #[trigger] input.subrange(lo, hi) == numbers_in(input)[j],
{
    let spans = text::runs(input, CharClass::Numeric);
    let texts = text::span_texts(input, spans);
    let pred = |w: Seq<char>| number::number_text(w);
    let w = numbers_in(input)[j];
    texts.lemma_filter_pred(pred, j);
    assert(texts.filter(pred).contains(w));
    texts.lemma_filter_contains_rev(pred, w);
    let i = choose|i: int| 0 <= i < texts.len() && texts[i] == w;
    text::lemma_runs_in_class(input, CharClass::Numeric, i);
    let p = spans[i];
    assert(w == input.subrange(p.0, p.1));
    assert forall|q: int| 0 <= q < w.len() implies {
        let c = #[trigger] w[q];
        ('0' <= c && c <= '9') || c == '.' || c == '-' || c == '+' || c == 'e' || c == 'E'
    } by {
        assert(w[q] == input[p.0 + q]);
        assert(text::in_class(input[p.0 + q], CharClass::Numeric));
    }
}

/// The coordinates read from plain or vector input are numbers found in it.
pub proof fn law_numeric_coordinates_are_numbers(input: Seq<char>)
    ensures
        numeric_coordinates(input) matches Ok(t) ==> number::number_text(t.x) && number::number_text(
            t.y,
        ) && number::number_text(t.z),
{
    let content = strip_vector(input).0;
    if numeric_coordinates(input) is Ok {
        law_numbers_are_numeric_pieces(content, 0);
        law_numbers_are_numeric_pieces(content, 1);
        law_numbers_are_numeric_pieces(content, 2);
    }
}

/// Every value the `key=value` state holds reads as a number.
pub open spec fn values_are_numbers(st: KeyValueState) -> bool {
    &&& st.x matches Some(x) ==> number::number_text(x)
    &&& st.y matches Some(y) ==> number::number_text(y)
    &&& st.z matches Some(z) ==> number::number_text(z)
}

proof fn lemma_key_values_numbers(toks: Seq<Seq<char>>, i: int, st: KeyValueState)
    requires
        values_are_numbers(st),
    ensures
        key_values_from(toks, i, st) matches Ok(t) ==> number::number_text(t.x)
            && number::number_text(t.y) && number::number_text(t.z),
        key_values_from(toks, i, st) matches Err(CoordinateErrorModel::InvalidValue { key, value })
            ==> !number::number_text(value),
        !(key_values_from(toks, i, st) matches Err(CoordinateErrorModel::Missing)) && !(key_values_from(toks, i, st) matches Err(
            CoordinateErrorModel::Unrecognized,
        )),
    decreases toks.len() + 3 - i,
{
    if 0 <= i < toks.len() {
        let tok = toks[i];
        let low = text::lower_all(tok);
        let p = first_index(tok, '=', 0);
        if p < tok.len() {
            let key = low.subrange(0, p);
            let v0 = tok.subrange(p + 1, tok.len() as int);
            let next = if v0.len() == 0 {
                i + 1
            } else {
                i
            };
            let value = if v0.len() == 0 {
                if i + 1 < toks.len() {
                    toks[i + 1]
                } else {
                    seq![]
                }
            } else {
                v0
            };
            if let Ok(s2) = assign(key, value, st) {
                lemma_key_values_numbers(toks, next + 1, s2);
            }
        } else if (low == "x"@ || low == "y"@ || low == "z"@) && i + 1 < toks.len() && toks[i + 1]
            == "="@ {
            let value = if i + 2 < toks.len() {
                toks[i + 2]
            } else {
                seq![]
            };
            if let Ok(s2) = assign(low, value, st) {
                lemma_key_values_numbers(toks, i + 3, s2);
            }
        } else {
            lemma_key_values_numbers(toks, i + 1, st);
        }
    }
}

/// `key=value` input gives coordinates that read as numbers; it is refused
/// only for a value that does not read as a number, or for a missing `x`,
/// `y` or `z` (never as missing or unrecognised input).
pub proof fn law_key_value_coordinates_are_numbers(input: Seq<char>)
    ensures
        key_value_coordinates(input) matches Ok(t) ==> number::number_text(t.x)
            && number::number_text(t.y) && number::number_text(t.z),
        key_value_coordinates(input) matches Err(CoordinateErrorModel::InvalidValue { key, value })
            ==> !number::number_text(value),
        !(key_value_coordinates(input) matches Err(CoordinateErrorModel::Missing)) && !(key_value_coordinates(input) matches Err(
            CoordinateErrorModel::Unrecognized,
        )),
{
    lemma_key_values_numbers(
        key_value_tokens(input),
        0,
        KeyValueState { x: None, y: None, z: None },
    );
}

} // verus!
