//! USDA documents: values, attributes, prims and the stage.
//!
//! The grammar is read over the characters of the text, by position. A
//! number that is not an integer is kept as the literal that was written.

use vstd::prelude::*;
use crate::formats::step::p21::{
    chars_range, digits_end, digits_end_exec, digits_u64, lemma_skip_bounds,
};
use crate::formats::usd::usda::{
    delimited_at, double_quoted_at, double_quoted_string, identifier, identifier_at,
    prim_specifier, prim_specifier_at, single_quoted_string, word_at, PrimSpecifier,
    Variability,
};
use crate::text::{
    chars_of, find_from, is_digit, multispace_end, occurs_at, occurs_at_exec, skip_multispace,
};

verus! {

// ---------------------------------------------------------------------------
// Values
// ---------------------------------------------------------------------------

/// A USD value as read from USDA text.
#[derive(Debug)]
pub enum UsdValue {
    /// `true`, `false`, `True`, `False`.
    Bool(bool),
    /// An integer literal (0 when it does not fit in 64 bits).
    Int(i64),
    /// Any other number (with a fraction, an exponent, `inf` or `nan`), as
    /// written.
    Real(String),
    /// A double-quoted string.
    String(String),
    /// A single-quoted token.
    Token(String),
    /// An asset path `@...@`.
    Asset(String),
    /// An array `[...]` or a tuple `(...)`.
    Array(Vec<UsdValue>),
    /// A dictionary `{...}`.
    Dictionary(Vec<(String, UsdValue)>),
    /// A path reference.
    Reference(String),
    /// `None`: a blocked value.
    NoneValue,
}

/// The content of a [`UsdValue`].
pub enum ValueModel {
    Bool(bool),
    Int(int),
    Real(Seq<char>),
    Str(Seq<char>),
    Token(Seq<char>),
    Asset(Seq<char>),
    Array(Seq<ValueModel>),
    Dictionary(Seq<(Seq<char>, ValueModel)>),
    Reference(Seq<char>),
    NoneValue,
}

/// The contents of a sequence of values.
pub open spec fn models_of(items: Seq<UsdValue>) -> Seq<ValueModel>
    decreases items,
{
    if items.len() == 0 {
        Seq::empty()
    } else {
        models_of(items.subrange(0, items.len() - 1)).push(items[items.len() - 1].model())
    }
}

/// The contents of a sequence of dictionary entries.
pub open spec fn entry_models(items: Seq<(String, UsdValue)>) -> Seq<(Seq<char>, ValueModel)>
    decreases items,
{
    if items.len() == 0 {
        Seq::empty()
    } else {
        entry_models(items.subrange(0, items.len() - 1)).push(
            (items[items.len() - 1].0@, items[items.len() - 1].1.model()),
        )
    }
}

impl UsdValue {
    /// The content of this value.
    pub open spec fn model(self) -> ValueModel
        decreases self,
    {
        match self {
            UsdValue::Bool(b) => ValueModel::Bool(b),
            UsdValue::Int(i) => ValueModel::Int(i as int),
            UsdValue::Real(t) => ValueModel::Real(t@),
            UsdValue::String(t) => ValueModel::Str(t@),
            UsdValue::Token(t) => ValueModel::Token(t@),
            UsdValue::Asset(t) => ValueModel::Asset(t@),
            UsdValue::Array(items) => ValueModel::Array(models_of(items@)),
            UsdValue::Dictionary(items) => ValueModel::Dictionary(entry_models(items@)),
            UsdValue::Reference(t) => ValueModel::Reference(t@),
            UsdValue::NoneValue => ValueModel::NoneValue,
        }
    }
}

impl UsdValue {
    /// The text of a string, token or asset path.
    pub fn as_string(&self) -> (r: Option<&str>)
        ensures
            match self.model() {
                ValueModel::Str(t) => r matches Some(x) && x@ == t,
                ValueModel::Token(t) => r matches Some(x) && x@ == t,
                ValueModel::Asset(t) => r matches Some(x) && x@ == t,
                _ => r is None,
            },
    {
        match self {
            UsdValue::String(t) => Some(t.as_str()),
            UsdValue::Token(t) => Some(t.as_str()),
            UsdValue::Asset(t) => Some(t.as_str()),
            _ => None,
        }
    }

    /// The items of an array.
    pub fn as_array(&self) -> (r: Option<&[UsdValue]>)
        ensures
            match self {
                UsdValue::Array(items) => r matches Some(x) && x@ == items@,
                _ => r is None,
            },
    {
        match self {
            UsdValue::Array(items) => Some(items.as_slice()),
            _ => None,
        }
    }

    /// The value of an integer.
    pub fn as_int(&self) -> (r: Option<i64>)
        ensures
            match self.model() {
                ValueModel::Int(i) => r matches Some(x) && x as int == i,
                _ => r is None,
            },
    {
        match self {
            UsdValue::Int(i) => Some(*i),
            _ => None,
        }
    }

    /// The value of a boolean.
    pub fn as_bool(&self) -> (r: Option<bool>)
        ensures
            match self.model() {
                ValueModel::Bool(b) => r == Some(b),
                _ => r is None,
            },
    {
        match self {
            UsdValue::Bool(b) => Some(*b),
            _ => None,
        }
    }
}

/// Pushing a value pushes its content.
pub proof fn lemma_models_of_push(items: Seq<UsdValue>, v: UsdValue)
    ensures
        models_of(items.push(v)) == models_of(items).push(v.model()),
{
    assert(items.push(v).subrange(0, items.len() as int) =~= items);
}

/// Pushing an entry pushes its content.
pub proof fn lemma_entry_models_push(items: Seq<(String, UsdValue)>, k: String, v: UsdValue)
    ensures
        entry_models(items.push((k, v))) == entry_models(items).push((k@, v.model())),
{
    assert(items.push((k, v)).subrange(0, items.len() as int) =~= items);
}

// ---------------------------------------------------------------------------
// Whitespace and comments
// ---------------------------------------------------------------------------

/// The first occurrence of `needle` at or after `from`.
pub open spec fn first_from(s: Seq<char>, needle: Seq<char>, from: int) -> Option<int> {
    if exists|k: int| from <= k && occurs_at(s, needle, k) {
        Some(
            choose|k: int|
                from <= k && occurs_at(s, needle, k) && forall|m: int|
                    from <= m < k ==> !occurs_at(s, needle, m),
        )
    } else {
        None
    }
}

/// Position after whitespace, `#` line comments and `/* */` comments at
/// `i`. A `#` comment without a newline runs to the end; a `/*` without a
/// `*/` (searched from the `/*` itself) is not skipped.
#[verifier::opaque]
pub open spec fn spec_ws(s: Seq<char>, i: int) -> int
    decreases s.len() - i,
{
    let j = multispace_end(s, i);
    if 0 <= i <= j < s.len() && s[j] == '#' {
        match first_from(s, seq!['\n'], j) {
            Some(nl) => if j < nl < s.len() {
                spec_ws(s, nl + 1)
            } else {
                j
            },
            None => s.len() as int,
        }
    } else if 0 <= i <= j && word_at(s, j, seq!['/', '*']) {
        match first_from(s, seq!['*', '/'], j) {
            Some(e) => if j < e && e + 2 <= s.len() {
                spec_ws(s, e + 2)
            } else {
                j
            },
            None => j,
        }
    } else {
        j
    }
}

/// The first occurrence found by `find_from` is the one `first_from` names.
proof fn lemma_first_from(s: Seq<char>, needle: Seq<char>, from: int, k: int)
    requires
        from <= k,
        occurs_at(s, needle, k),
        forall|m: int| from <= m < k ==> !occurs_at(s, needle, m),
    ensures
        first_from(s, needle, from) == Some(k),
{
    let c = choose|c: int|
        from <= c && occurs_at(s, needle, c) && forall|m: int| from <= m < c ==> !occurs_at(s, needle, m);
    assert(from <= c && occurs_at(s, needle, c) && forall|m: int|
        from <= m < c ==> !occurs_at(s, needle, m));
    if c < k {
        assert(!occurs_at(s, needle, c));
    }
    if c > k {
        assert(!occurs_at(s, needle, k));
    }
}

/// Skip whitespace and comments (see `spec_ws`).
pub fn ws_at(s: &[char], i: usize) -> (r: usize)
    requires
        i <= s@.len(),
    ensures
        r as int == spec_ws(s@, i as int),
        i <= r <= s@.len(),
    decreases s@.len() - i,
{
    reveal(spec_ws);
    let j = skip_multispace(s, i);
    let nl = chars_of("\n");
    let open = chars_of("/*");
    let close = chars_of("*/");
    proof {
        reveal_strlit("\n");
        reveal_strlit("/*");
        reveal_strlit("*/");
        assert(nl@ == seq!['\n']);
        assert(open@ == seq!['/', '*']);
        assert(close@ == seq!['*', '/']);
    }
    if j < s.len() && s[j] == '#' {
        match find_from(s, &nl, j) {
            Some(k) => {
                proof {
                    lemma_first_from(s@, nl@, j as int, k as int);
                }
                if j < k && k < s.len() {
                    ws_at(s, k + 1)
                } else {
                    j
                }
            },
            None => {
                proof {
                    assert(!(exists|k: int| j <= k && occurs_at(s@, nl@, k)));
                }
                s.len()
            },
        }
    } else if occurs_at_exec(s, &open, j) {
        match find_from(s, &close, j) {
            Some(e) => {
                proof {
                    lemma_first_from(s@, close@, j as int, e as int);
                }
                if j < e && e + 2 <= s.len() {
                    ws_at(s, e + 2)
                } else {
                    j
                }
            },
            None => {
                proof {
                    assert(!(exists|k: int| j <= k && occurs_at(s@, close@, k)));
                }
                j
            },
        }
    } else {
        j
    }
}

// ---------------------------------------------------------------------------
// Names
// ---------------------------------------------------------------------------

/// The end of a `:`-separated run of identifiers at `i` (`i` itself when
/// there is none).
pub open spec fn namespaced_end(s: Seq<char>, i: int) -> int
    decreases s.len() - i,
{
    match identifier_at(s, i) {
        None => i,
        Some(e) => namespaced_tail(s, e),
    }
}

/// The end of further `:identifier` parts from `e`.
pub open spec fn namespaced_tail(s: Seq<char>, e: int) -> int
    decreases s.len() - e,
{
    if 0 <= e < s.len() && s[e] == ':' {
        match identifier_at(s, e + 1) {
            Some(f) => if e < f <= s.len() {
                namespaced_tail(s, f)
            } else {
                e
            },
            None => e,
        }
    } else {
        e
    }
}

/// The end of a namespaced identifier (see `namespaced_end`).
pub fn namespaced_identifier(s: &[char], i: usize) -> (r: usize)
    requires
        i <= s@.len(),
    ensures
        r as int == namespaced_end(s@, i as int),
        i <= r <= s@.len(),
{
    match identifier(s, i) {
        None => i,
        Some(e0) => {
            let mut e = e0;
            loop
                invariant
                    i < e <= s@.len(),
                    namespaced_end(s@, i as int) == namespaced_tail(s@, e as int),
                ensures
                    i < e <= s@.len(),
                    namespaced_end(s@, i as int) == e,
                decreases s@.len() - e,
            {
                if e >= s.len() || s[e] != ':' {
                    break;
                }
                match identifier(s, e + 1) {
                    Some(f) => {
                        e = f;
                    },
                    None => {
                        break;
                    },
                }
            }
            e
        },
    }
}

/// A type name: an identifier, with `[]` after it for an array type.
pub open spec fn type_name_at(s: Seq<char>, i: int) -> Option<(Seq<char>, int)> {
    match identifier_at(s, i) {
        Some(e) => if word_at(s, e, seq!['[', ']']) {
            Some((s.subrange(i, e + 2), e + 2))
        } else {
            Some((s.subrange(i, e), e))
        },
        None => None,
    }
}

/// Parse an attribute's type name at `i`.
pub fn attribute_type(s: &[char], i: usize) -> (r: Option<(String, usize)>)
    requires
        i <= s@.len(),
    ensures
        match type_name_at(s@, i as int) {
            Some((t, e)) => r matches Some((rt, re)) && rt@ == t && re as int == e && i < e
                <= s@.len(),
            None => r is None,
        },
{
    let slen: usize = s.len();
    assert(slen == s@.len());
    match identifier(s, i) {
        Some(e) => {
            let marker = chars_of("[]");
            proof {
                reveal_strlit("[]");
                assert(marker@ == seq!['[', ']']);
            }
            if occurs_at_exec(s, &marker, e) {
                let t = chars_range(s, i, e + 2);
                Some((crate::text::string_from_chars(&t), e + 2))
            } else {
                let t = chars_range(s, i, e);
                Some((crate::text::string_from_chars(&t), e))
            }
        },
        None => None,
    }
}

// ---------------------------------------------------------------------------
// Numbers
// ---------------------------------------------------------------------------

/// Position after an optional `+` or `-` at `i`.
pub open spec fn after_sign(s: Seq<char>, i: int) -> int {
    if 0 <= i < s.len() && (s[i] == '+' || s[i] == '-') {
        i + 1
    } else {
        i
    }
}

/// Position after an optional fraction (`.` and digits) at `d`.
pub open spec fn after_fraction(s: Seq<char>, d: int) -> int {
    if 0 <= d < s.len() && s[d] == '.' {
        digits_end(s, d + 1)
    } else {
        d
    }
}

/// Position after an optional exponent at `c`; an `e` without digits is
/// not part of the number.
pub open spec fn after_exponent(s: Seq<char>, c: int) -> int {
    if 0 <= c < s.len() && (s[c] == 'e' || s[c] == 'E') {
        let m = after_sign(s, c + 1);
        let m2 = digits_end(s, m);
        if m2 > m {
            m2
        } else {
            c
        }
    } else {
        c
    }
}

/// The value of an integer literal with optional sign, or 0 when it does
/// not fit in 64 bits.
pub open spec fn int_literal_value(neg: bool, digits: nat) -> int {
    if neg {
        if digits <= 0x8000_0000_0000_0000 {
            -(digits as int)
        } else {
            0
        }
    } else {
        if digits <= 0x7FFF_FFFF_FFFF_FFFF {
            digits as int
        } else {
            0
        }
    }
}

/// A number at `i`: an optional sign, then `inf`/`infinity`, `nan`, or
/// digits with optional fraction and exponent. Digits alone are an
/// integer; anything else is kept as written.
pub open spec fn number_at(s: Seq<char>, i: int) -> Option<(ValueModel, int)> {
    if i < 0 || i > s.len() {
        None
    } else {
        let a = after_sign(s, i);
        if word_at(s, a, "inf"@) {
            let e = if word_at(s, a + 3, "inity"@) {
                a + 8
            } else {
                a + 3
            };
            Some((ValueModel::Real(s.subrange(i, e)), e))
        } else if word_at(s, a, "nan"@) {
            Some((ValueModel::Real(s.subrange(i, a + 3)), a + 3))
        } else {
            let d = digits_end(s, a);
            if d == a {
                None
            } else {
                let c = after_fraction(s, d);
                let e = after_exponent(s, c);
                if e == d {
                    Some(
                        (
                            ValueModel::Int(
                                int_literal_value(
                                    a > i && s[i] == '-',
                                    crate::text::digits_value(s.subrange(a, d)),
                                ),
                            ),
                            d,
                        ),
                    )
                } else {
                    Some((ValueModel::Real(s.subrange(i, e)), e))
                }
            }
        }
    }
}

/// A number that is not an integer keeps the whole text it was read from,
/// its sign included, and the text read is never empty.
pub proof fn lemma_number_text_kept(s: Seq<char>, i: int)
    ensures
        number_at(s, i) matches Some((v, e)) ==> i < e <= s.len() && (v matches ValueModel::Real(t)
            ==> t == s.subrange(i, e)),
{
    reveal_strlit("inf");
    reveal_strlit("inity");
    reveal_strlit("nan");
    if let Some((v, e)) = number_at(s, i) {
        let a = after_sign(s, i);
        if !word_at(s, a, "inf"@) && !word_at(s, a, "nan"@) {
            lemma_skip_bounds(s, a, |c: char| is_digit(c));
            let d = digits_end(s, a);
            if d < s.len() && s[d] == '.' {
                lemma_skip_bounds(s, d + 1, |c: char| is_digit(c));
            }
            let c = after_fraction(s, d);
            if 0 <= c < s.len() && (s[c] == 'e' || s[c] == 'E') {
                lemma_skip_bounds(s, after_sign(s, c + 1), |c: char| is_digit(c));
            }
        }
    }
}

/// Skipping over characters after a one-character prefix ends one position
/// later than skipping over the same characters without it.
proof fn lemma_skip_after_prefix(x: Seq<char>, k: int, p: spec_fn(char) -> bool)
    requires
        0 <= k,
    ensures
        crate::text::skip_while_from(seq!['-'] + x, k + 1, p) == crate::text::skip_while_from(x, k, p) + 1,
    decreases x.len() - k,
{
    let y = seq!['-'] + x;
    if k < x.len() {
        assert(y[k + 1] == x[k]);
        lemma_skip_after_prefix(x, k + 1, p);
    }
}

/// A word occurs after a one-character prefix where it occurs without it.
proof fn lemma_word_after_prefix(x: Seq<char>, k: int, w: Seq<char>)
    requires
        0 <= k,
    ensures
        word_at(seq!['-'] + x, k + 1, w) == word_at(x, k, w),
{
    let y = seq!['-'] + x;
    if 0 <= k && k + w.len() <= x.len() {
        assert(y.subrange(k + 1, k + 1 + w.len()) =~= x.subrange(k, k + w.len()));
    }
}

/// A minus sign in front of an unsigned number negates it: a number kept
/// as text gains the `-`, and a non-zero integer changes sign (an integer
/// read with a minus sign is never positive). The sign takes one more
/// character.
pub proof fn lemma_number_negated(x: Seq<char>)
    requires
        !(x.len() > 0 && (x[0] == '+' || x[0] == '-')),
    ensures
        match number_at(x, 0) {
            Some((ValueModel::Real(t), e)) => number_at(seq!['-'] + x, 0) == Some(
                (ValueModel::Real(seq!['-'] + t), e + 1),
            ),
            Some((ValueModel::Int(v), e)) => number_at(seq!['-'] + x, 0) matches Some(
                (ValueModel::Int(w), f),
            ) && f == e + 1 && w <= 0 && (v != 0 ==> w == -v),
            Some(_) => false,
            None => number_at(seq!['-'] + x, 0) is None,
        },
{
    let y = seq!['-'] + x;
    let digit = |c: char| is_digit(c);
    lemma_number_text_kept(x, 0);
    assert(after_sign(y, 0) == 1);
    assert(after_sign(x, 0) == 0);
    lemma_word_after_prefix(x, 0, "inf"@);
    lemma_word_after_prefix(x, 3, "inity"@);
    lemma_word_after_prefix(x, 0, "nan"@);
    lemma_skip_after_prefix(x, 0, digit);
    let d = digits_end(x, 0);
    lemma_skip_bounds(x, 0, digit);
    assert(digits_end(y, 1) == d + 1);
    if d < x.len() && x[d] == '.' {
        assert(y[d + 1] == x[d]);
        lemma_skip_after_prefix(x, d + 1, digit);
    } else if d + 1 < y.len() {
        assert(y[d + 1] == x[d]);
    }
    let c = after_fraction(x, d);
    assert(after_fraction(y, d + 1) == c + 1);
    if 0 <= c < x.len() {
        assert(y[c + 1] == x[c]);
        if c + 1 < x.len() {
            assert(y[c + 2] == x[c + 1]);
        }
        assert(after_sign(y, c + 2) == after_sign(x, c + 1) + 1);
        lemma_skip_after_prefix(x, after_sign(x, c + 1), digit);
    }
    assert(after_exponent(y, c + 1) == after_exponent(x, c) + 1);
    if let Some((v, e)) = number_at(x, 0) {
        assert(y.subrange(0, e + 1) =~= seq!['-'] + x.subrange(0, e));
        assert(y.subrange(1, d + 1) =~= x.subrange(0, d));
        if word_at(x, 0, "inf"@) {
            if word_at(x, 3, "inity"@) {
                assert(y.subrange(0, 9) =~= seq!['-'] + x.subrange(0, 8));
            } else {
                assert(y.subrange(0, 4) =~= seq!['-'] + x.subrange(0, 3));
            }
        } else if word_at(x, 0, "nan"@) {
            assert(y.subrange(0, 4) =~= seq!['-'] + x.subrange(0, 3));
        }
    }
}

/// Parse a number at `i` (see `number_at`).
pub fn number(s: &[char], i: usize) -> (r: Option<(UsdValue, usize)>)
    requires
        i <= s@.len(),
    ensures
        match number_at(s@, i as int) {
            Some((m, e)) => r matches Some((v, re)) && v.model() == m && re as int == e && i
                < e <= s@.len(),
            None => r is None,
        },
{
    proof {
        reveal_strlit("inf");
        reveal_strlit("inity");
        reveal_strlit("nan");
    }
    let n = s.len();
    let a = if i < n && (s[i] == '+' || s[i] == '-') {
        i + 1
    } else {
        i
    };
    let inf = chars_of("inf");
    let inity = chars_of("inity");
    let nan = chars_of("nan");
    if occurs_at_exec(s, &inf, a) {
        let e = if occurs_at_exec(s, &inity, a + 3) {
            a + 8
        } else {
            a + 3
        };
        let t = chars_range(s, i, e);
        return Some((UsdValue::Real(crate::text::string_from_chars(&t)), e));
    }
    if occurs_at_exec(s, &nan, a) {
        let t = chars_range(s, i, a + 3);
        return Some((UsdValue::Real(crate::text::string_from_chars(&t)), a + 3));
    }
    let d = digits_end_exec(s, a);
    if d == a {
        return None;
    }
    proof {
        lemma_skip_bounds(s@, a as int, |c: char| is_digit(c));
    }
    let c = if d < n && s[d] == '.' {
        digits_end_exec(s, d + 1)
    } else {
        d
    };
    let e = if c < n && (s[c] == 'e' || s[c] == 'E') {
        let m = if c + 1 < n && (s[c + 1] == '+' || s[c + 1] == '-') {
            c + 2
        } else {
            c + 1
        };
        let m2 = digits_end_exec(s, m);
        if m2 > m {
            m2
        } else {
            c
        }
    } else {
        c
    };
    if e == d {
        let neg = a > i && s[i] == '-';
        let v: i64 = match digits_u64(s, a, d) {
            Some(u) => if neg {
                if u <= 0x8000_0000_0000_0000u64 {
                    if u == 0x8000_0000_0000_0000u64 {
                        i64::MIN
                    } else {
                        -(u as i64)
                    }
                } else {
                    0
                }
            } else {
                if u <= 0x7FFF_FFFF_FFFF_FFFFu64 {
                    u as i64
                } else {
                    0
                }
            },
            None => 0,
        };
        Some((UsdValue::Int(v), d))
    } else {
        let t = chars_range(s, i, e);
        Some((UsdValue::Real(crate::text::string_from_chars(&t)), e))
    }
}

// ---------------------------------------------------------------------------
// Value grammar
// ---------------------------------------------------------------------------

/// A value at `i`, after whitespace and comments: `None`, a boolean, an
/// asset path, a string, a token, a dictionary, an array, a tuple (read as
/// an array) or a number.
pub open spec fn value_at(s: Seq<char>, i: int) -> Option<(ValueModel, int)>
    decreases s.len() - i, 2int,
{
    if i < 0 || i > s.len() {
        None
    } else {
        let j = spec_ws(s, i);
        if j < i || j >= s.len() {
            None
        } else {
            let c = s[j];
            if c == 'N' {
                if word_at(s, j, "None"@) {
                    Some((ValueModel::NoneValue, j + 4))
                } else {
                    None
                }
            } else if c == 't' {
                if word_at(s, j, "true"@) {
                    Some((ValueModel::Bool(true), j + 4))
                } else {
                    None
                }
            } else if c == 'f' {
                if word_at(s, j, "false"@) {
                    Some((ValueModel::Bool(false), j + 5))
                } else {
                    None
                }
            } else if c == 'T' {
                if word_at(s, j, "True"@) {
                    Some((ValueModel::Bool(true), j + 4))
                } else {
                    None
                }
            } else if c == 'F' {
                if word_at(s, j, "False"@) {
                    Some((ValueModel::Bool(false), j + 5))
                } else {
                    None
                }
            } else if c == '@' {
                match delimited_at(s, j, '@') {
                    Some((e, t)) => Some((ValueModel::Asset(t), e)),
                    None => None,
                }
            } else if c == '"' {
                match double_quoted_at(s, j) {
                    Some((e, t)) => Some((ValueModel::Str(t), e)),
                    None => None,
                }
            } else if c == '\'' {
                match delimited_at(s, j, '\'') {
                    Some((e, t)) => Some((ValueModel::Token(t), e)),
                    None => None,
                }
            } else if c == '{' {
                dict_at(s, j)
            } else if c == '[' {
                array_at(s, j)
            } else if c == '(' {
                tuple_at(s, j)
            } else {
                number_at(s, j)
            }
        }
    }
}

/// A tuple `( values )` at `j`, read as an array.
pub open spec fn tuple_at(s: Seq<char>, j: int) -> Option<(ValueModel, int)>
    decreases s.len() - j, 1int,
{
    if 0 <= j < s.len() && s[j] == '(' {
        let b = spec_ws(s, j + 1);
        if b <= j || b > s.len() {
            None
        } else {
            let (vals, e) = list_items(s, b);
            let d = spec_ws(s, e);
            if 0 <= d < s.len() && s[d] == ')' {
                Some((ValueModel::Array(vals), d + 1))
            } else {
                None
            }
        }
    } else {
        None
    }
}

/// An array `[ values ]` at `j`, with an optional trailing comma.
pub open spec fn array_at(s: Seq<char>, j: int) -> Option<(ValueModel, int)>
    decreases s.len() - j, 1int,
{
    if 0 <= j < s.len() && s[j] == '[' {
        let b = spec_ws(s, j + 1);
        if b <= j || b > s.len() {
            None
        } else if b < s.len() && s[b] == ']' {
            Some((ValueModel::Array(Seq::empty()), b + 1))
        } else {
            let (vals, e) = list_items(s, b);
            let c = spec_ws(s, e);
            let c2 = if 0 <= c < s.len() && s[c] == ',' {
                c + 1
            } else {
                c
            };
            let d = spec_ws(s, c2);
            if 0 <= d < s.len() && s[d] == ']' {
                Some((ValueModel::Array(vals), d + 1))
            } else {
                None
            }
        }
    } else {
        None
    }
}

/// A comma-separated list of values (possibly empty) at `i`, and the
/// position after its last value.
pub open spec fn list_items(s: Seq<char>, i: int) -> (Seq<ValueModel>, int)
    decreases s.len() - i, 3int,
{
    if i < 0 || i > s.len() {
        (Seq::empty(), i)
    } else {
        match value_at(s, i) {
            Some((v, p)) => if i < p && p <= s.len() {
                let (rest, q) = list_tail(s, p);
                (seq![v] + rest, q)
            } else {
                (Seq::empty(), i)
            },
            None => (Seq::empty(), i),
        }
    }
}

/// The further `, value` items of a list from `p` on.
pub open spec fn list_tail(s: Seq<char>, p: int) -> (Seq<ValueModel>, int)
    decreases s.len() - p, 0int,
{
    if p < 0 || p > s.len() {
        (Seq::empty(), p)
    } else {
        let a = spec_ws(s, p);
        if p <= a && a < s.len() && s[a] == ',' {
            let b = spec_ws(s, a + 1);
            if b <= p || b > s.len() {
                (Seq::empty(), p)
            } else {
                match value_at(s, b) {
                    Some((v, c)) => if b < c && c <= s.len() {
                        let (rest, q) = list_tail(s, c);
                        (seq![v] + rest, q)
                    } else {
                        (Seq::empty(), p)
                    },
                    None => (Seq::empty(), p),
                }
            }
        } else {
            (Seq::empty(), p)
        }
    }
}

/// A dictionary `{ [type] key = value, ... }` at `j`.
pub open spec fn dict_at(s: Seq<char>, j: int) -> Option<(ValueModel, int)>
    decreases s.len() - j, 1int,
{
    if 0 <= j < s.len() && s[j] == '{' {
        let b = spec_ws(s, j + 1);
        if b <= j || b > s.len() {
            None
        } else if b < s.len() && s[b] == '}' {
            Some((ValueModel::Dictionary(Seq::empty()), b + 1))
        } else {
            match dict_entries(s, b) {
                Some((entries, r)) => {
                    let d = spec_ws(s, r);
                    if 0 <= d < s.len() && s[d] == '}' {
                        Some((ValueModel::Dictionary(entries), d + 1))
                    } else {
                        None
                    }
                },
                None => None,
            }
        }
    } else {
        None
    }
}

/// The key of a dictionary entry at `r`: an identifier, or a type
/// identifier followed by the key identifier; the key and where its `=`
/// is looked for.
pub open spec fn dict_key_at(s: Seq<char>, r: int) -> Option<(Seq<char>, int)> {
    match identifier_at(s, r) {
        None => None,
        Some(e1) => {
            let r2 = spec_ws(s, e1);
            if 0 <= r2 < s.len() && s[r2] == '=' {
                Some((s.subrange(r, e1), r2))
            } else {
                match identifier_at(s, r2) {
                    Some(e2) => Some((s.subrange(r2, e2), e2)),
                    None => None,
                }
            }
        },
    }
}

/// The entries of a dictionary from `pos` on, and the position where its
/// closing `}` is looked for.
pub open spec fn dict_entries(s: Seq<char>, pos: int) -> Option<
    (Seq<(Seq<char>, ValueModel)>, int),
>
    decreases s.len() - pos, 0int,
{
    if pos < 0 || pos > s.len() {
        None
    } else {
        let r = spec_ws(s, pos);
        if r < pos || r > s.len() {
            None
        } else if r < s.len() && s[r] == '}' {
            Some((Seq::empty(), r))
        } else {
            match dict_key_at(s, r) {
                None => None,
                Some((key, r3)) => {
                    let r4 = spec_ws(s, r3);
                    if !(pos <= r4 < s.len() && s[r4] == '=') {
                        None
                    } else {
                        let r5 = spec_ws(s, r4 + 1);
                        if r5 <= pos || r5 > s.len() {
                            None
                        } else {
                            match value_at(s, r5) {
                                None => None,
                                Some((v, e)) => {
                                    let r6 = spec_ws(s, e);
                                    if r5 < e && e <= r6 && r6 < s.len() && s[r6] == ',' {
                                        match dict_entries(s, r6 + 1) {
                                            Some((rest, q)) => Some((seq![(key, v)] + rest, q)),
                                            None => None,
                                        }
                                    } else {
                                        Some((seq![(key, v)], r6))
                                    }
                                },
                            }
                        }
                    }
                },
            }
        }
    }
}

// ---------------------------------------------------------------------------
// Value parser
// ---------------------------------------------------------------------------

/// Whether `word` occurs in `s` at `i`.
fn word_at_exec(s: &[char], i: usize, word: &str) -> (r: bool)
    ensures
        r == word_at(s@, i as int, word@),
{
    let w = chars_of(word);
    occurs_at_exec(s, &w, i)
}

/// Parse a value at `i` (see `value_at`).
pub fn value_exec(s: &[char], i: usize) -> (r: Option<(UsdValue, usize)>)
    requires
        i <= s@.len(),
    ensures
        match value_at(s@, i as int) {
            Some((m, e)) => r matches Some((v, re)) && v.model() == m && re as int == e && i < e
                <= s@.len(),
            None => r is None,
        },
    decreases s@.len() - i, 2int,
{
    proof {
        reveal_strlit("None");
        reveal_strlit("true");
        reveal_strlit("false");
        reveal_strlit("True");
        reveal_strlit("False");
    }
    let n = s.len();
    let j = ws_at(s, i);
    if j >= n {
        return None;
    }
    let c = s[j];
    if c == 'N' {
        if word_at_exec(s, j, "None") {
            Some((UsdValue::NoneValue, j + 4))
        } else {
            None
        }
    } else if c == 't' {
        if word_at_exec(s, j, "true") {
            Some((UsdValue::Bool(true), j + 4))
        } else {
            None
        }
    } else if c == 'f' {
        if word_at_exec(s, j, "false") {
            Some((UsdValue::Bool(false), j + 5))
        } else {
            None
        }
    } else if c == 'T' {
        if word_at_exec(s, j, "True") {
            Some((UsdValue::Bool(true), j + 4))
        } else {
            None
        }
    } else if c == 'F' {
        if word_at_exec(s, j, "False") {
            Some((UsdValue::Bool(false), j + 5))
        } else {
            None
        }
    } else if c == '@' {
        match crate::formats::usd::usda::asset_path(s, j) {
            Some((e, t)) => Some((UsdValue::Asset(crate::text::string_from_chars(&t)), e)),
            None => None,
        }
    } else if c == '"' {
        match double_quoted_string(s, j) {
            Some((e, t)) => Some((UsdValue::String(crate::text::string_from_chars(&t)), e)),
            None => None,
        }
    } else if c == '\'' {
        match single_quoted_string(s, j) {
            Some((e, t)) => Some((UsdValue::Token(crate::text::string_from_chars(&t)), e)),
            None => None,
        }
    } else if c == '{' {
        dict_exec(s, j)
    } else if c == '[' {
        array_exec(s, j)
    } else if c == '(' {
        tuple_exec(s, j)
    } else {
        number(s, j)
    }
}

/// Parse a tuple at `j` (see `tuple_at`).
fn tuple_exec(s: &[char], j: usize) -> (r: Option<(UsdValue, usize)>)
    requires
        j < s@.len(),
        s@[j as int] == '(',
    ensures
        match tuple_at(s@, j as int) {
            Some((m, e)) => r matches Some((v, re)) && v.model() == m && re as int == e && j < e
                <= s@.len(),
            None => r is None,
        },
    decreases s@.len() - j, 1int,
{
    let n = s.len();
    let b = ws_at(s, j + 1);
    let (vals, e) = list_items_exec(s, b);
    let d = ws_at(s, e);
    if d < n && s[d] == ')' {
        Some((UsdValue::Array(vals), d + 1))
    } else {
        None
    }
}

/// Parse an array at `j` (see `array_at`).
fn array_exec(s: &[char], j: usize) -> (r: Option<(UsdValue, usize)>)
    requires
        j < s@.len(),
        s@[j as int] == '[',
    ensures
        match array_at(s@, j as int) {
            Some((m, e)) => r matches Some((v, re)) && v.model() == m && re as int == e && j < e
                <= s@.len(),
            None => r is None,
        },
    decreases s@.len() - j, 1int,
{
    let n = s.len();
    let b = ws_at(s, j + 1);
    if b < n && s[b] == ']' {
        let empty: Vec<UsdValue> = Vec::new();
        proof {
            assert(models_of(empty@) =~= Seq::<ValueModel>::empty());
        }
        return Some((UsdValue::Array(empty), b + 1));
    }
    let (vals, e) = list_items_exec(s, b);
    let c = ws_at(s, e);
    let c2 = if c < n && s[c] == ',' {
        c + 1
    } else {
        c
    };
    let d = ws_at(s, c2);
    if d < n && s[d] == ']' {
        Some((UsdValue::Array(vals), d + 1))
    } else {
        None
    }
}

/// Parse a comma-separated list of values at `i` (see `list_items`).
fn list_items_exec(s: &[char], i: usize) -> (r: (Vec<UsdValue>, usize))
    requires
        i <= s@.len(),
    ensures
        models_of(r.0@) == list_items(s@, i as int).0,
        r.1 as int == list_items(s@, i as int).1,
        i <= r.1 <= s@.len(),
    decreases s@.len() - i, 3int,
{
    let n = s.len();
    let mut items: Vec<UsdValue> = Vec::new();
    match value_exec(s, i) {
        None => {
            proof {
                assert(models_of(items@) =~= Seq::<ValueModel>::empty());
            }
            (items, i)
        },
        Some((v, p)) => {
            proof {
                lemma_models_of_push(items@, v);
                assert(models_of(Seq::<UsdValue>::empty()) =~= Seq::<ValueModel>::empty());
            }
            items.push(v);
            let mut pos = p;
            loop
                invariant_except_break
                    list_items(s@, i as int) == (
                        models_of(items@) + list_tail(s@, pos as int).0,
                        list_tail(s@, pos as int).1,
                    ),
                invariant
                    n == s@.len(),
                    i < pos <= n,
                ensures
                    i < pos <= n,
                    list_items(s@, i as int) == (models_of(items@), pos as int),
                decreases n - pos,
            {
                let a = ws_at(s, pos);
                if a < n && s[a] == ',' {
                    let b = ws_at(s, a + 1);
                    match value_exec(s, b) {
                        Some((w, c)) => {
                            let ghost tail = list_tail(s@, c as int);
                            proof {
                                lemma_models_of_push(items@, w);
                                assert(models_of(items@).push(w.model()) + tail.0 =~= models_of(
                                    items@,
                                ) + (seq![w.model()] + tail.0));
                            }
                            items.push(w);
                            pos = c;
                        },
                        None => {
                            proof {
                                assert(models_of(items@) + Seq::<ValueModel>::empty() =~= models_of(
                                    items@,
                                ));
                            }
                            break;
                        },
                    }
                } else {
                    proof {
                        assert(models_of(items@) + Seq::<ValueModel>::empty() =~= models_of(items@));
                    }
                    break;
                }
            }
            (items, pos)
        },
    }
}

/// Parse a dictionary at `j` (see `dict_at`).
fn dict_exec(s: &[char], j: usize) -> (r: Option<(UsdValue, usize)>)
    requires
        j < s@.len(),
        s@[j as int] == '{',
    ensures
        match dict_at(s@, j as int) {
            Some((m, e)) => r matches Some((v, re)) && v.model() == m && re as int == e && j < e
                <= s@.len(),
            None => r is None,
        },
    decreases s@.len() - j, 1int,
{
    let n = s.len();
    let b = ws_at(s, j + 1);
    if b < n && s[b] == '}' {
        let empty: Vec<(String, UsdValue)> = Vec::new();
        proof {
            assert(entry_models(empty@) =~= Seq::<(Seq<char>, ValueModel)>::empty());
        }
        return Some((UsdValue::Dictionary(empty), b + 1));
    }
    let mut entries: Vec<(String, UsdValue)> = Vec::new();
    let mut pos = b;
    proof {
        assert(entry_models(entries@) =~= Seq::<(Seq<char>, ValueModel)>::empty());
        match dict_entries(s@, b as int) {
            Some((rest, q)) => {
                assert(entry_models(entries@) + rest =~= rest);
            },
            None => {},
        }
    }
    loop
        invariant
            n == s@.len(),
            j < b <= pos <= n,
            s@[j as int] == '{',
            b == spec_ws(s@, j + 1),
            !(b < n && s@[b as int] == '}'),
            dict_entries(s@, b as int) == match dict_entries(s@, pos as int) {
                Some((rest, q)) => Some((entry_models(entries@) + rest, q)),
                None => None,
            },
        decreases n - pos,
    {
        let r = ws_at(s, pos);
        if r < n && s[r] == '}' {
            proof {
                assert(entry_models(entries@) + Seq::<(Seq<char>, ValueModel)>::empty()
                    =~= entry_models(entries@));
            }
            let d = ws_at(s, r);
            if d < n && s[d] == '}' {
                return Some((UsdValue::Dictionary(entries), d + 1));
            } else {
                return None;
            }
        }
        let e1 = match identifier(s, r) {
            Some(e) => e,
            None => {
                return None;
            },
        };
        let r2 = ws_at(s, e1);
        let (key, r3) = if r2 < n && s[r2] == '=' {
            let k = chars_range(s, r, e1);
            (crate::text::string_from_chars(&k), r2)
        } else {
            match identifier(s, r2) {
                Some(e2) => {
                    let k = chars_range(s, r2, e2);
                    (crate::text::string_from_chars(&k), e2)
                },
                None => {
                    return None;
                },
            }
        };
        let r4 = ws_at(s, r3);
        if !(r4 < n && s[r4] == '=') {
            return None;
        }
        let r5 = ws_at(s, r4 + 1);
        match value_exec(s, r5) {
            None => {
                return None;
            },
            Some((v, e)) => {
                let r6 = ws_at(s, e);
                let ghost k = key@;
                let ghost m = v.model();
                let ghost before = entry_models(entries@);
                proof {
                    lemma_entry_models_push(entries@, key, v);
                }
                entries.push((key, v));
                if r6 < n && s[r6] == ',' {
                    proof {
                        match dict_entries(s@, r6 + 1) {
                            Some((rest, q)) => {
                                assert(before.push((k, m)) + rest =~= before + (seq![(k, m)] + rest));
                            },
                            None => {},
                        }
                    }
                    pos = r6 + 1;
                } else {
                    proof {
                        assert(before.push((k, m)) =~= before + seq![(k, m)]);
                    }
                    let d = ws_at(s, r6);
                    if d < n && s[d] == '}' {
                        return Some((UsdValue::Dictionary(entries), d + 1));
                    } else {
                        return None;
                    }
                }
            },
        }
    }
}


/// Parse a value at the start of `input` (see `value_at`): the value and
/// the number of characters it takes, leading whitespace and comments
/// included.
pub fn usd_value(input: &str) -> (r: Option<(UsdValue, usize)>)
    ensures
        match value_at(input@, 0) {
            Some((m, e)) => r matches Some((v, re)) && v.model() == m && re as int == e,
            None => r is None,
        },
{
    let s = chars_of(input);
    value_exec(&s, 0)
}

// ---------------------------------------------------------------------------
// Metadata blocks
// ---------------------------------------------------------------------------

/// The text of `s` from `a` to `b`, as a `String`.
fn text_range(s: &[char], a: usize, b: usize) -> (r: String)
    requires
        a <= b <= s@.len(),
    ensures
        r@ == s@.subrange(a as int, b as int),
{
    let t = chars_range(s, a, b);
    crate::text::string_from_chars(&t)
}

/// The `key = value` entries of a metadata block from `pos` on, and the
/// position after its closing `)`.
pub open spec fn metadata_entries(s: Seq<char>, pos: int) -> Option<
    (Seq<(Seq<char>, ValueModel)>, int),
>
    decreases s.len() - pos,
{
    if pos < 0 || pos > s.len() {
        None
    } else {
        let r = spec_ws(s, pos);
        if r < s.len() && s[r] == ')' {
            Some((Seq::empty(), r + 1))
        } else {
            let k = namespaced_end(s, r);
            let r2 = spec_ws(s, k);
            if !(0 <= r2 < s.len() && s[r2] == '=') {
                None
            } else {
                match value_at(s, spec_ws(s, r2 + 1)) {
                    Some((v, e)) => if pos < e <= s.len() {
                        match metadata_entries(s, e) {
                            Some((rest, q)) => Some((seq![(s.subrange(r, k), v)] + rest, q)),
                            None => None,
                        }
                    } else {
                        None
                    },
                    None => None,
                }
            }
        }
    }
}

/// A metadata block `( key = value ... )` at `i`.
#[verifier::opaque]
pub open spec fn metadata_at(s: Seq<char>, i: int) -> Option<(Seq<(Seq<char>, ValueModel)>, int)> {
    if 0 <= i < s.len() && s[i] == '(' {
        metadata_entries(s, spec_ws(s, i + 1))
    } else {
        None
    }
}

/// Parse a metadata block at `i` (see `metadata_at`).
pub fn metadata_block(s: &[char], i: usize) -> (r: Option<(Vec<(String, UsdValue)>, usize)>)
    requires
        i <= s@.len(),
    ensures
        match metadata_at(s@, i as int) {
            Some((m, e)) => r matches Some((v, re)) && entry_models(v@) == m && re as int == e
                && i < e <= s@.len(),
            None => r is None,
        },
{
    reveal(metadata_at);
    let n = s.len();
    if !(i < n && s[i] == '(') {
        return None;
    }
    let start = ws_at(s, i + 1);
    let mut entries: Vec<(String, UsdValue)> = Vec::new();
    let mut pos = start;
    proof {
        assert(entry_models(entries@) =~= Seq::<(Seq<char>, ValueModel)>::empty());
        match metadata_entries(s@, start as int) {
            Some((rest, q)) => {
                assert(entry_models(entries@) + rest =~= rest);
            },
            None => {},
        }
    }
    loop
        invariant
            n == s@.len(),
            i < start <= pos <= n,
            metadata_at(s@, i as int) == metadata_entries(s@, start as int),
            metadata_entries(s@, start as int) == match metadata_entries(s@, pos as int) {
                Some((rest, q)) => Some((entry_models(entries@) + rest, q)),
                None => None,
            },
        decreases n - pos,
    {
        let r = ws_at(s, pos);
        if r < n && s[r] == ')' {
            proof {
                assert(entry_models(entries@) + Seq::<(Seq<char>, ValueModel)>::empty()
                    =~= entry_models(entries@));
            }
            return Some((entries, r + 1));
        }
        let k = namespaced_identifier(s, r);
        let r2 = ws_at(s, k);
        if !(r2 < n && s[r2] == '=') {
            return None;
        }
        let r3 = ws_at(s, r2 + 1);
        match value_exec(s, r3) {
            None => {
                return None;
            },
            Some((v, e)) => {
                let key = text_range(s, r, k);
                let ghost km = key@;
                let ghost m = v.model();
                let ghost before = entry_models(entries@);
                proof {
                    lemma_entry_models_push(entries@, key, v);
                    match metadata_entries(s@, e as int) {
                        Some((rest, q)) => {
                            assert(before.push((km, m)) + rest =~= before + (seq![(km, m)] + rest));
                        },
                        None => {},
                    }
                }
                entries.push((key, v));
                pos = e;
            },
        }
    }
}


// ---------------------------------------------------------------------------
// Attributes
// ---------------------------------------------------------------------------

/// A USD attribute as declared in a prim body.
#[derive(Debug)]
pub struct UsdAttribute {
    /// Attribute name, namespaces included (`primvars:st`).
    pub name: String,
    /// Declared type (`float3[]`, `token`, ...).
    pub type_label: String,
    /// The value after `=`, if any.
    pub default: Option<UsdValue>,
    /// `.timeSamples` entries: the time (a number) and the value.
    pub time_samples: Vec<(UsdValue, UsdValue)>,
    /// `uniform` or varying.
    pub variability: Variability,
    /// Declared `custom`.
    pub custom: bool,
}

/// The content of a [`UsdAttribute`].
pub struct AttributeModel {
    pub name: Seq<char>,
    pub type_label: Seq<char>,
    pub default: Option<ValueModel>,
    pub time_samples: Seq<(ValueModel, ValueModel)>,
    pub variability: Variability,
    pub custom: bool,
}

/// The contents of a sequence of time samples.
pub open spec fn sample_models(items: Seq<(UsdValue, UsdValue)>) -> Seq<(ValueModel, ValueModel)>
    decreases items.len(),
{
    if items.len() == 0 {
        Seq::empty()
    } else {
        sample_models(items.drop_last()).push(
            (items.last().0.model(), items.last().1.model()),
        )
    }
}

/// The content of an optional value.
pub open spec fn option_model(v: Option<UsdValue>) -> Option<ValueModel> {
    match v {
        Some(x) => Some(x.model()),
        None => None,
    }
}

impl UsdAttribute {
    /// The content of this attribute.
    pub open spec fn model(self) -> AttributeModel {
        AttributeModel {
            name: self.name@,
            type_label: self.type_label@,
            default: option_model(self.default),
            time_samples: sample_models(self.time_samples@),
            variability: self.variability,
            custom: self.custom,
        }
    }
}

/// Pushing a sample pushes its content.
proof fn lemma_sample_models_push(items: Seq<(UsdValue, UsdValue)>, t: UsdValue, v: UsdValue)
    ensures
        sample_models(items.push((t, v))) == sample_models(items).push((t.model(), v.model())),
{
    assert(items.push((t, v)).drop_last() =~= items);
}

/// The `time: value` entries of a `.timeSamples` block from `pos` on, each
/// optionally followed by a comma, and the position after the closing `}`.
pub open spec fn samples_from(s: Seq<char>, pos: int) -> Option<
    (Seq<(ValueModel, ValueModel)>, int),
>
    decreases s.len() - pos,
{
    if pos < 0 || pos > s.len() {
        None
    } else {
        let r = spec_ws(s, pos);
        if r < s.len() && s[r] == '}' {
            Some((Seq::empty(), r + 1))
        } else {
            match number_at(s, r) {
                None => None,
                Some((t, e)) => {
                    let e2 = spec_ws(s, e);
                    if !(0 <= e2 < s.len() && s[e2] == ':') {
                        None
                    } else {
                        match value_at(s, spec_ws(s, e2 + 1)) {
                            None => None,
                            Some((v, f)) => {
                                let f2 = spec_ws(s, f);
                                let f3 = if 0 <= f2 < s.len() && s[f2] == ',' {
                                    f2 + 1
                                } else {
                                    f2
                                };
                                if pos < f3 <= s.len() {
                                    match samples_from(s, f3) {
                                        Some((rest, q)) => Some((seq![(t, v)] + rest, q)),
                                        None => None,
                                    }
                                } else {
                                    None
                                }
                            },
                        }
                    }
                },
            }
        }
    }
}

/// An attribute declaration at `i`: optional `custom` and `uniform`, a
/// type name, the attribute name, then `= value`, a `.timeSamples = {..}`
/// block, or nothing.
#[verifier::opaque]
pub open spec fn attribute_at(s: Seq<char>, i: int) -> Option<(AttributeModel, int)> {
    if i < 0 || i > s.len() {
        None
    } else {
        let a = spec_ws(s, i);
        let custom = word_at(s, a, "custom"@);
        let b = if custom {
            spec_ws(s, a + 6)
        } else {
            a
        };
        let uniform = word_at(s, b, "uniform"@);
        let c = if uniform {
            spec_ws(s, b + 7)
        } else {
            b
        };
        match type_name_at(s, c) {
            None => None,
            Some((t, d)) => {
                let e = spec_ws(s, d);
                let f = namespaced_end(s, e);
                let g = spec_ws(s, f);
                let variability = if uniform {
                    Variability::Uniform
                } else {
                    Variability::Varying
                };
                if 0 <= g < s.len() && s[g] == '=' {
                    match value_at(s, spec_ws(s, g + 1)) {
                        Some((v, h)) => Some(
                            (
                                AttributeModel {
                                    name: s.subrange(e, f),
                                    type_label: t,
                                    default: Some(v),
                                    time_samples: Seq::empty(),
                                    variability,
                                    custom,
                                },
                                h,
                            ),
                        ),
                        None => None,
                    }
                } else if word_at(s, g, ".timeSamples"@) {
                    let h1 = spec_ws(s, g + 12);
                    if !(0 <= h1 < s.len() && s[h1] == '=') {
                        None
                    } else {
                        let h2 = spec_ws(s, h1 + 1);
                        if !(0 <= h2 < s.len() && s[h2] == '{') {
                            None
                        } else {
                            match samples_from(s, spec_ws(s, h2 + 1)) {
                                Some((ts, q)) => Some(
                                    (
                                        AttributeModel {
                                            name: s.subrange(e, f),
                                            type_label: t,
                                            default: None,
                                            time_samples: ts,
                                            variability,
                                            custom,
                                        },
                                        q,
                                    ),
                                ),
                                None => None,
                            }
                        }
                    }
                } else {
                    Some(
                        (
                            AttributeModel {
                                name: s.subrange(e, f),
                                type_label: t,
                                default: None,
                                time_samples: Seq::empty(),
                                variability,
                                custom,
                            },
                            g,
                        ),
                    )
                }
            },
        }
    }
}

/// Parse the entries of a `.timeSamples` block from `pos` (see
/// `samples_from`).
fn time_samples(s: &[char], pos: usize) -> (r: Option<(Vec<(UsdValue, UsdValue)>, usize)>)
    requires
        pos <= s@.len(),
    ensures
        match samples_from(s@, pos as int) {
            Some((m, e)) => r matches Some((v, re)) && sample_models(v@) == m && re as int == e
                && pos < e <= s@.len(),
            None => r is None,
        },
{
    let n = s.len();
    let mut samples: Vec<(UsdValue, UsdValue)> = Vec::new();
    let mut at = pos;
    proof {
        assert(sample_models(samples@) =~= Seq::<(ValueModel, ValueModel)>::empty());
        match samples_from(s@, pos as int) {
            Some((rest, q)) => {
                assert(sample_models(samples@) + rest =~= rest);
            },
            None => {},
        }
    }
    loop
        invariant
            n == s@.len(),
            pos <= at <= n,
            samples_from(s@, pos as int) == match samples_from(s@, at as int) {
                Some((rest, q)) => Some((sample_models(samples@) + rest, q)),
                None => None,
            },
        decreases n - at,
    {
        let r = ws_at(s, at);
        if r < n && s[r] == '}' {
            proof {
                assert(sample_models(samples@) + Seq::<(ValueModel, ValueModel)>::empty()
                    =~= sample_models(samples@));
            }
            return Some((samples, r + 1));
        }
        let (t, e) = match number(s, r) {
            Some(x) => x,
            None => {
                return None;
            },
        };
        let e2 = ws_at(s, e);
        if !(e2 < n && s[e2] == ':') {
            return None;
        }
        let e3 = ws_at(s, e2 + 1);
        let (v, f) = match value_exec(s, e3) {
            Some(x) => x,
            None => {
                return None;
            },
        };
        let f2 = ws_at(s, f);
        let f3 = if f2 < n && s[f2] == ',' {
            f2 + 1
        } else {
            f2
        };
        let ghost before = sample_models(samples@);
        let ghost item = (t.model(), v.model());
        proof {
            lemma_sample_models_push(samples@, t, v);
            match samples_from(s@, f3 as int) {
                Some((rest, q)) => {
                    assert(before.push(item) + rest =~= before + (seq![item] + rest));
                },
                None => {},
            }
        }
        samples.push((t, v));
        at = f3;
    }
}

/// Parse an attribute declaration at `i` (see `attribute_at`).
pub fn attribute_def(s: &[char], i: usize) -> (r: Option<(UsdAttribute, usize)>)
    requires
        i <= s@.len(),
    ensures
        match attribute_at(s@, i as int) {
            Some((m, e)) => r matches Some((a, re)) && a.model() == m && re as int == e && i < e
                <= s@.len(),
            None => r is None,
        },
{
    reveal(attribute_at);
    proof {
        reveal_strlit("custom");
        reveal_strlit("uniform");
        reveal_strlit(".timeSamples");
    }
    let n = s.len();
    let a = ws_at(s, i);
    let custom = word_at_exec(s, a, "custom");
    let b = if custom {
        ws_at(s, a + 6)
    } else {
        a
    };
    let uniform = word_at_exec(s, b, "uniform");
    let c = if uniform {
        ws_at(s, b + 7)
    } else {
        b
    };
    let (type_label, d) = match attribute_type(s, c) {
        Some(x) => x,
        None => {
            return None;
        },
    };
    let e = ws_at(s, d);
    let f = namespaced_identifier(s, e);
    let g = ws_at(s, f);
    let name = text_range(s, e, f);
    let variability = if uniform {
        Variability::Uniform
    } else {
        Variability::Varying
    };
    if g < n && s[g] == '=' {
        let g2 = ws_at(s, g + 1);
        match value_exec(s, g2) {
            Some((v, h)) => {
                let attr = UsdAttribute {
                    name,
                    type_label,
                    default: Some(v),
                    time_samples: Vec::new(),
                    variability,
                    custom,
                };
                proof {
                    assert(sample_models(attr.time_samples@) =~= Seq::<(ValueModel, ValueModel)>::empty());
                }
                Some((attr, h))
            },
            None => None,
        }
    } else if word_at_exec(s, g, ".timeSamples") {
        let h1 = ws_at(s, g + 12);
        if !(h1 < n && s[h1] == '=') {
            return None;
        }
        let h2 = ws_at(s, h1 + 1);
        if !(h2 < n && s[h2] == '{') {
            return None;
        }
        let h3 = ws_at(s, h2 + 1);
        match time_samples(s, h3) {
            Some((ts, q)) => Some(
                (UsdAttribute { name, type_label, default: None, time_samples: ts, variability, custom }, q),
            ),
            None => None,
        }
    } else {
        let attr = UsdAttribute {
            name,
            type_label,
            default: None,
            time_samples: Vec::new(),
            variability,
            custom,
        };
        proof {
            assert(sample_models(attr.time_samples@) =~= Seq::<(ValueModel, ValueModel)>::empty());
        }
        Some((attr, g))
    }
}


// ---------------------------------------------------------------------------
// Relationships
// ---------------------------------------------------------------------------

/// The contents of a sequence of strings.
pub open spec fn strings_model(v: Seq<String>) -> Seq<Seq<char>> {
    v.map_values(|x: String| x@)
}

/// A relationship target `<path>` at `i`: the path and the position after
/// the first `>`.
#[verifier::opaque]
pub open spec fn target_at(s: Seq<char>, i: int) -> Option<(int, Seq<char>)> {
    if 0 <= i < s.len() && s[i] == '<' && exists|j: int| i < j < s.len() && s[j] == '>' {
        let j = choose|j: int| i < j < s.len() && s[j] == '>' && forall|k: int| i < k < j ==> s[k] != '>';
        Some((j + 1, s.subrange(i + 1, j)))
    } else {
        None
    }
}

/// Parse a relationship target at `pos` (see `target_at`).
fn target(s: &[char], pos: usize) -> (r: Option<(usize, String)>)
    ensures
        match target_at(s@, pos as int) {
            Some((e, t)) => r matches Some((re, rt)) && re == e && rt@ == t && pos < e <= s@.len(),
            None => r is None,
        },
{
    reveal(target_at);
    if pos >= s.len() || s[pos] != '<' {
        return None;
    }
    let mut j = pos + 1;
    while j < s.len() && s[j] != '>'
        invariant
            pos + 1 <= j <= s@.len(),
            s@[pos as int] == '<',
            forall|k: int| pos < k < j ==> s@[k] != '>',
        decreases s@.len() - j,
    {
        j += 1;
    }
    if j == s.len() {
        return None;
    }
    proof {
        let c = choose|c: int| pos < c < s@.len() && s@[c] == '>' && forall|k: int| pos < k < c ==> s@[k] != '>';
        assert(pos < c < s@.len() && s@[c] == '>' && forall|k: int| pos < k < c ==> s@[k] != '>');
        if c < j {
            assert(s@[c] != '>');
        }
        if c > j {
            assert(s@[j as int] != '>');
        }
    }
    Some((j + 1, text_range(s, pos + 1, j)))
}

/// Further `, <target>` items of a target list from `p` on.
pub open spec fn targets_tail(s: Seq<char>, p: int) -> (Seq<Seq<char>>, int)
    decreases s.len() - p,
{
    if p < 0 || p > s.len() {
        (Seq::empty(), p)
    } else {
        let a = spec_ws(s, p);
        if p <= a < s.len() && s[a] == ',' {
            match target_at(s, spec_ws(s, a + 1)) {
                Some((c, t)) => if p < c <= s.len() {
                    let (rest, q) = targets_tail(s, c);
                    (seq![t] + rest, q)
                } else {
                    (Seq::empty(), p)
                },
                None => (Seq::empty(), p),
            }
        } else {
            (Seq::empty(), p)
        }
    }
}

/// A comma-separated (possibly empty) list of targets at `f`.
pub open spec fn target_list(s: Seq<char>, f: int) -> (Seq<Seq<char>>, int) {
    match target_at(s, f) {
        Some((c, t)) => if f < c <= s.len() {
            let (rest, q) = targets_tail(s, c);
            (seq![t] + rest, q)
        } else {
            (Seq::empty(), f)
        },
        None => (Seq::empty(), f),
    }
}

/// A relationship declaration at `i`: `rel`, its name, then optionally
/// `=` and a target or a bracketed list of targets.
#[verifier::opaque]
pub open spec fn relationship_at(s: Seq<char>, i: int) -> Option<(Seq<char>, Seq<Seq<char>>, int)> {
    if i < 0 || i > s.len() {
        None
    } else {
        let a = spec_ws(s, i);
        if !word_at(s, a, "rel"@) {
            None
        } else {
            let b = spec_ws(s, a + 3);
            let c = namespaced_end(s, b);
            let d = spec_ws(s, c);
            let name = s.subrange(b, c);
            if !(0 <= d < s.len() && s[d] == '=') {
                Some((name, Seq::empty(), d))
            } else {
                let e = spec_ws(s, d + 1);
                let listed = if 0 <= e < s.len() && s[e] == '[' {
                    let (ts, g) = target_list(s, spec_ws(s, e + 1));
                    let h = spec_ws(s, g);
                    if 0 <= h < s.len() && s[h] == ']' {
                        Some((ts, h + 1))
                    } else {
                        None
                    }
                } else {
                    None
                };
                match listed {
                    Some((ts, q)) => Some((name, ts, q)),
                    None => match target_at(s, e) {
                        Some((q, t)) => Some((name, seq![t], q)),
                        None => None,
                    },
                }
            }
        }
    }
}

/// Parse a list of targets at `f` (see `target_list`).
fn targets(s: &[char], f: usize) -> (r: (Vec<String>, usize))
    requires
        f <= s@.len(),
    ensures
        strings_model(r.0@) == target_list(s@, f as int).0,
        r.1 as int == target_list(s@, f as int).1,
        f <= r.1 <= s@.len(),
{
    let n = s.len();
    let mut items: Vec<String> = Vec::new();
    match target(s, f) {
        None => {
            proof {
                assert(strings_model(items@) =~= Seq::<Seq<char>>::empty());
            }
            (items, f)
        },
        Some((c, t)) => {
            proof {
                assert(strings_model(items@.push(t)) =~= seq![t@]);
            }
            items.push(t);
            let mut pos = c;
            loop
                invariant_except_break
                    target_list(s@, f as int) == (
                        strings_model(items@) + targets_tail(s@, pos as int).0,
                        targets_tail(s@, pos as int).1,
                    ),
                invariant
                    n == s@.len(),
                    f < pos <= n,
                ensures
                    f < pos <= n,
                    target_list(s@, f as int) == (strings_model(items@), pos as int),
                decreases n - pos,
            {
                let a = ws_at(s, pos);
                if a < n && s[a] == ',' {
                    let b = ws_at(s, a + 1);
                    match target(s, b) {
                        Some((c2, t2)) => {
                            let ghost tail = targets_tail(s@, c2 as int);
                            proof {
                                assert(strings_model(items@.push(t2)) =~= strings_model(items@).push(t2@));
                                assert(strings_model(items@).push(t2@) + tail.0 =~= strings_model(
                                    items@,
                                ) + (seq![t2@] + tail.0));
                            }
                            items.push(t2);
                            pos = c2;
                        },
                        None => {
                            proof {
                                assert(strings_model(items@) + Seq::<Seq<char>>::empty() =~= strings_model(items@));
                            }
                            break;
                        },
                    }
                } else {
                    proof {
                        assert(strings_model(items@) + Seq::<Seq<char>>::empty() =~= strings_model(items@));
                    }
                    break;
                }
            }
            (items, pos)
        },
    }
}

/// Parse a relationship declaration at `i` (see `relationship_at`): its
/// name, its targets and the position after it.
pub fn relationship_def(s: &[char], i: usize) -> (r: Option<(String, Vec<String>, usize)>)
    requires
        i <= s@.len(),
    ensures
        match relationship_at(s@, i as int) {
            Some((name, ts, e)) => r matches Some((rn, rt, re)) && rn@ == name && strings_model(rt@)
                == ts && re as int == e && i < e <= s@.len(),
            None => r is None,
        },
{
    reveal(relationship_at);
    proof {
        reveal_strlit("rel");
    }
    let n = s.len();
    let a = ws_at(s, i);
    if !word_at_exec(s, a, "rel") {
        return None;
    }
    let b = ws_at(s, a + 3);
    let c = namespaced_identifier(s, b);
    let d = ws_at(s, c);
    let name = text_range(s, b, c);
    if !(d < n && s[d] == '=') {
        let none: Vec<String> = Vec::new();
        proof {
            assert(strings_model(none@) =~= Seq::<Seq<char>>::empty());
        }
        return Some((name, none, d));
    }
    let e = ws_at(s, d + 1);
    if e < n && s[e] == '[' {
        let f = ws_at(s, e + 1);
        let (ts, g) = targets(s, f);
        let h = ws_at(s, g);
        if h < n && s[h] == ']' {
            return Some((name, ts, h + 1));
        }
    }
    match target(s, e) {
        Some((q, t)) => {
            let mut one: Vec<String> = Vec::new();
            one.push(t);
            proof {
                assert(strings_model(one@) =~= seq![t@]);
            }
            Some((name, one, q))
        },
        None => None,
    }
}

// ---------------------------------------------------------------------------
// Balanced braces
// ---------------------------------------------------------------------------

/// Where a scan for the end of a brace block stands after position `i`
/// with `depth` blocks open, outside any string.
pub open spec fn brace_scan(s: Seq<char>, i: int, depth: int) -> int
    decreases s.len() + 2 - i, 0int,
{
    if i < 0 || i >= s.len() || depth <= 0 {
        i
    } else if s[i] == '{' {
        brace_scan(s, i + 1, depth + 1)
    } else if s[i] == '}' {
        brace_scan(s, i + 1, depth - 1)
    } else if s[i] == '"' {
        brace_scan_string(s, i + 1, depth)
    } else {
        brace_scan(s, i + 1, depth)
    }
}

/// The same scan at position `k` inside a string: a backslash skips the
/// next character, and the closing quote ends the string.
pub open spec fn brace_scan_string(s: Seq<char>, k: int, depth: int) -> int
    decreases s.len() + 2 - k, 1int,
{
    if k < 0 || k > s.len() + 1 {
        k
    } else if k < s.len() && s[k] != '"' {
        if s[k] == '\\' {
            brace_scan_string(s, k + 2, depth)
        } else {
            brace_scan_string(s, k + 1, depth)
        }
    } else {
        brace_scan(s, k + 1, depth)
    }
}

/// The end of a brace block opened at `i`: the position after its
/// matching `}`, or the end of the text when it is not closed. `None` when
/// the text ends inside a string.
#[verifier::opaque]
pub open spec fn brace_block_end(s: Seq<char>, i: int) -> Option<int> {
    if 0 <= i < s.len() && s[i] == '{' {
        let e = brace_scan(s, i + 1, 1);
        if e <= s.len() {
            Some(e)
        } else {
            None
        }
    } else {
        None
    }
}

/// Skip a brace block at `i` (see `brace_block_end`).
pub fn skip_braces(s: &[char], i: usize) -> (r: Option<usize>)
    requires
        i <= s@.len(),
    ensures
        match brace_block_end(s@, i as int) {
            Some(e) => r matches Some(re) && re as int == e && i < e <= s@.len(),
            None => r is None,
        },
{
    reveal(brace_block_end);
    let n = s.len();
    if !(i < n && s[i] == '{') {
        return None;
    }
    let mut p = i + 1;
    let mut depth: usize = 1;
    while p < n && depth > 0
        invariant
            n == s@.len(),
            i < p <= n,
            depth <= p,
            brace_scan(s@, i + 1, 1) == brace_scan(s@, p as int, depth as int),
        decreases n - p,
    {
        reveal(brace_block_end);
        let c = s[p];
        if c == '{' {
            depth = depth + 1;
            p = p + 1;
        } else if c == '}' {
            depth = depth - 1;
            p = p + 1;
        } else if c == '"' {
            let mut k = p + 1;
            while k < n && s[k] != '"'
                invariant
                    n == s@.len(),
                    i < p < k <= n,
                    depth <= p,
                    brace_scan(s@, i + 1, 1) == brace_scan_string(s@, k as int, depth as int),
                decreases n - k,
            {
                reveal(brace_block_end);
                if s[k] == '\\' {
                    if k + 1 >= n {
                        proof {
                            assert(brace_scan_string(s@, k + 2, depth as int) == brace_scan(
                                s@,
                                k + 3,
                                depth as int,
                            ));
                        }
                        return None;
                    }
                    k = k + 2;
                } else {
                    k = k + 1;
                }
            }
            if k >= n {
                proof {
                    assert(brace_scan_string(s@, k as int, depth as int) == brace_scan(
                        s@,
                        k + 1,
                        depth as int,
                    ));
                    assert(brace_scan(s@, k + 1, depth as int) == k + 1);
                }
                return None;
            }
            p = k + 1;
        } else {
            p = p + 1;
        }
    }
    Some(p)
}


// ---------------------------------------------------------------------------
// Prims
// ---------------------------------------------------------------------------

/// A USD prim with its attributes and child prims.
#[derive(Debug)]
pub struct UsdPrim {
    /// Prim type (`Xform`, `Mesh`, ...), empty when none is declared.
    pub type_label: String,
    /// Prim path (`/World/MyMesh`).
    pub path: String,
    /// `def`, `over` or `class`.
    pub specifier: PrimSpecifier,
    /// Attributes, in order of declaration.
    pub attributes: Vec<UsdAttribute>,
    /// Child prims, in order of declaration.
    pub children: Vec<UsdPrim>,
    /// Metadata entries, in order.
    pub metadata: Vec<(String, UsdValue)>,
    /// Asset paths of the `references` metadata.
    pub references: Vec<String>,
    /// Paths of the `inherits` metadata.
    pub inherits: Vec<String>,
    /// Variant selections.
    pub variants: Vec<(String, String)>,
}

/// The content of a [`UsdPrim`].
pub struct PrimModel {
    pub type_label: Seq<char>,
    pub path: Seq<char>,
    pub specifier: PrimSpecifier,
    pub attributes: Seq<AttributeModel>,
    pub children: Seq<PrimModel>,
    pub metadata: Seq<(Seq<char>, ValueModel)>,
    pub references: Seq<Seq<char>>,
    pub inherits: Seq<Seq<char>>,
    pub variants: Seq<(Seq<char>, Seq<char>)>,
}

/// The contents of a sequence of attributes.
pub open spec fn attribute_models(items: Seq<UsdAttribute>) -> Seq<AttributeModel> {
    items.map_values(|a: UsdAttribute| a.model())
}

/// The contents of a sequence of prims.
pub open spec fn prim_models(items: Seq<UsdPrim>) -> Seq<PrimModel>
    decreases items,
{
    if items.len() == 0 {
        Seq::empty()
    } else {
        prim_models(items.subrange(0, items.len() - 1)).push(items[items.len() - 1].model())
    }
}

impl UsdPrim {
    /// The content of this prim.
    pub open spec fn model(self) -> PrimModel
        decreases self,
    {
        PrimModel {
            type_label: self.type_label@,
            path: self.path@,
            specifier: self.specifier,
            attributes: attribute_models(self.attributes@),
            children: prim_models(self.children@),
            metadata: entry_models(self.metadata@),
            references: strings_model(self.references@),
            inherits: strings_model(self.inherits@),
            variants: self.variants@.map_values(|p: (String, String)| (p.0@, p.1@)),
        }
    }
}

/// Pushing a prim pushes its content.
proof fn lemma_prim_models_push(items: Seq<UsdPrim>, p: UsdPrim)
    ensures
        prim_models(items.push(p)) == prim_models(items).push(p.model()),
{
    assert(items.push(p).subrange(0, items.len() as int) =~= items);
}

/// The path of a child prim named `name` under `parent`: `/name` at the
/// root, `parent/name` below it.
pub open spec fn prim_path(parent: Seq<char>, name: Seq<char>) -> Seq<char> {
    if parent.len() == 0 || parent == seq!['/'] {
        seq!['/'] + name
    } else {
        parent + seq!['/'] + name
    }
}

/// The asset paths among a sequence of values.
pub open spec fn assets_of(items: Seq<ValueModel>) -> Seq<Seq<char>>
    decreases items.len(),
{
    if items.len() == 0 {
        Seq::empty()
    } else {
        assets_of(items.drop_last()) + match items.last() {
            ValueModel::Asset(p) => seq![p],
            _ => Seq::empty(),
        }
    }
}

/// The path references among a sequence of values.
pub open spec fn path_refs_of(items: Seq<ValueModel>) -> Seq<Seq<char>>
    decreases items.len(),
{
    if items.len() == 0 {
        Seq::empty()
    } else {
        path_refs_of(items.drop_last()) + match items.last() {
            ValueModel::Reference(p) => seq![p],
            _ => Seq::empty(),
        }
    }
}

/// The referenced assets a metadata entry contributes: those of a
/// `references` array, or a single `references` asset.
pub open spec fn entry_references(e: (Seq<char>, ValueModel)) -> Seq<Seq<char>> {
    if e.0 == "references"@ {
        match e.1 {
            ValueModel::Array(items) => assets_of(items),
            ValueModel::Asset(p) => seq![p],
            _ => Seq::empty(),
        }
    } else {
        Seq::empty()
    }
}

/// The inherited paths a metadata entry contributes: those of an
/// `inherits` array.
pub open spec fn entry_inherits(e: (Seq<char>, ValueModel)) -> Seq<Seq<char>> {
    if e.0 == "inherits"@ {
        match e.1 {
            ValueModel::Array(items) => path_refs_of(items),
            _ => Seq::empty(),
        }
    } else {
        Seq::empty()
    }
}

/// All referenced assets of a prim's metadata, in order.
pub open spec fn references_of(md: Seq<(Seq<char>, ValueModel)>) -> Seq<Seq<char>>
    decreases md.len(),
{
    if md.len() == 0 {
        Seq::empty()
    } else {
        references_of(md.drop_last()) + entry_references(md.last())
    }
}

/// All inherited paths of a prim's metadata, in order.
pub open spec fn inherits_of(md: Seq<(Seq<char>, ValueModel)>) -> Seq<Seq<char>>
    decreases md.len(),
{
    if md.len() == 0 {
        Seq::empty()
    } else {
        inherits_of(md.drop_last()) + entry_inherits(md.last())
    }
}

/// Whether a child prim starts at `r`.
pub open spec fn starts_prim(s: Seq<char>, r: int) -> bool {
    word_at(s, r, "def "@) || word_at(s, r, "over "@) || word_at(s, r, "class "@)
}

/// A double- or single-quoted string at `i`.
pub open spec fn string_literal_at(s: Seq<char>, i: int) -> Option<(int, Seq<char>)> {
    match double_quoted_at(s, i) {
        Some(x) => Some(x),
        None => delimited_at(s, i, '\''),
    }
}

/// A prim at `i` under the prim path `parent`: specifier, optional type,
/// quoted name, optional metadata block, then its body in braces.
pub open spec fn prim_at(s: Seq<char>, i: int, parent: Seq<char>) -> Option<(PrimModel, int)>
    decreases s.len() - i, 0int,
{
    if i < 0 || i > s.len() {
        None
    } else {
        match prim_specifier_at(s, spec_ws(s, i)) {
            None => None,
            Some((b, specifier)) => {
                let c = spec_ws(s, b);
                let (label, d) = match identifier_at(s, c) {
                    Some(e) => (s.subrange(c, e), e),
                    None => (Seq::empty(), c),
                };
                match string_literal_at(s, spec_ws(s, d)) {
                    None => None,
                    Some((e, name)) => {
                        let f = spec_ws(s, e);
                        let opened = if 0 <= f < s.len() && s[f] == '(' {
                            match metadata_at(s, f) {
                                Some((md, g0)) => Some((md, spec_ws(s, spec_ws(s, g0)))),
                                None => None,
                            }
                        } else {
                            Some((Seq::empty(), f))
                        };
                        match opened {
                            None => None,
                            Some((md, g)) => if 0 <= g < s.len() && s[g] == '{' {
                                let h = spec_ws(s, g + 1);
                                if i < h <= s.len() {
                                    let path = prim_path(parent, name);
                                    match body_at(s, h, path) {
                                        Some((attrs, children, q)) => Some(
                                            (
                                                PrimModel {
                                                    type_label: label,
                                                    path,
                                                    specifier,
                                                    attributes: attrs,
                                                    children,
                                                    metadata: md,
                                                    references: references_of(md),
                                                    inherits: inherits_of(md),
                                                    variants: Seq::empty(),
                                                },
                                                q,
                                            ),
                                        ),
                                        None => None,
                                    }
                                } else {
                                    None
                                }
                            } else {
                                None
                            },
                        }
                    },
                }
            },
        }
    }
}

/// The items of a prim body from `pos` to its closing `}`: attributes and
/// child prims in order, relationships and variant sets skipped, and
/// lines that are none of these skipped; the position after the `}`.
pub open spec fn body_at(s: Seq<char>, pos: int, path: Seq<char>) -> Option<
    (Seq<AttributeModel>, Seq<PrimModel>, int),
>
    decreases s.len() - pos, 1int,
{
    if pos < 0 || pos > s.len() {
        None
    } else {
        let r = spec_ws(s, pos);
        if !(pos <= r <= s.len()) {
            None
        } else if r < s.len() && s[r] == '}' {
            Some((Seq::empty(), Seq::empty(), r + 1))
        } else if starts_prim(s, r) {
            match prim_at(s, r, path) {
                Some((child, e)) => if r < e <= s.len() {
                    match body_at(s, e, path) {
                        Some((a, c, q)) => Some((a, seq![child] + c, q)),
                        None => None,
                    }
                } else {
                    None
                },
                None => None,
            }
        } else if word_at(s, r, "rel "@) {
            match relationship_at(s, r) {
                Some((_, _, e)) => if r < e <= s.len() {
                    body_at(s, e, path)
                } else {
                    None
                },
                None => None,
            }
        } else if word_at(s, r, "variantSet"@) {
            match string_literal_at(s, spec_ws(s, r + 10)) {
                None => None,
                Some((b, _)) => {
                    let c = spec_ws(s, b);
                    if 0 <= c < s.len() && s[c] == '=' {
                        match brace_block_end(s, spec_ws(s, c + 1)) {
                            Some(e) => if r < e <= s.len() {
                                body_at(s, e, path)
                            } else {
                                None
                            },
                            None => None,
                        }
                    } else {
                        None
                    }
                },
            }
        } else {
            match attribute_at(s, r) {
                Some((at, e)) => if r < e <= s.len() {
                    match body_at(s, e, path) {
                        Some((a, c, q)) => Some((seq![at] + a, c, q)),
                        None => None,
                    }
                } else {
                    None
                },
                None => match first_from(s, seq!['\n'], r) {
                    Some(k) => if r <= k < s.len() {
                        body_at(s, k + 1, path)
                    } else {
                        None
                    },
                    None => None,
                },
            }
        }
    }
}


/// Parse a double- or single-quoted string at `i` (see `string_literal_at`).
fn string_literal(s: &[char], i: usize) -> (r: Option<(usize, String)>)
    ensures
        match string_literal_at(s@, i as int) {
            Some((e, t)) => r matches Some((re, rt)) && re == e && rt@ == t && i < e <= s@.len(),
            None => r is None,
        },
{
    match double_quoted_string(s, i) {
        Some((e, t)) => Some((e, crate::text::string_from_chars(&t))),
        None => match single_quoted_string(s, i) {
            Some((e, t)) => Some((e, crate::text::string_from_chars(&t))),
            None => None,
        },
    }
}

/// The asset paths (`assets`) or the path references among `items`.
fn collect_paths(items: &Vec<UsdValue>, assets: bool) -> (r: Vec<String>)
    ensures
        strings_model(r@) == if assets {
            assets_of(models_of(items@))
        } else {
            path_refs_of(models_of(items@))
        },
{
    let mut out: Vec<String> = Vec::new();
    let mut j: usize = 0;
    proof {
        assert(items@.take(0) =~= Seq::<UsdValue>::empty());
        assert(strings_model(out@) =~= Seq::<Seq<char>>::empty());
    }
    while j < items.len()
        invariant
            j <= items@.len(),
            strings_model(out@) == if assets {
                assets_of(models_of(items@.take(j as int)))
            } else {
                path_refs_of(models_of(items@.take(j as int)))
            },
        decreases items@.len() - j,
    {
        let ghost before = models_of(items@.take(j as int));
        let ghost m = items@[j as int].model();
        proof {
            assert(items@.take(j + 1).subrange(0, j as int) =~= items@.take(j as int));
            assert(models_of(items@.take(j + 1)) == before.push(m));
            assert(before.push(m).drop_last() =~= before);
        }
        match &items[j] {
            UsdValue::Asset(p) => {
                if assets {
                    let c = p.clone();
                    proof {
                        assert(strings_model(out@.push(c)) =~= strings_model(out@) + seq![p@]);
                    }
                    out.push(c);
                } else {
                    proof {
                        assert(strings_model(out@) + Seq::<Seq<char>>::empty() =~= strings_model(out@));
                    }
                }
            },
            UsdValue::Reference(p) => {
                if !assets {
                    let c = p.clone();
                    proof {
                        assert(strings_model(out@.push(c)) =~= strings_model(out@) + seq![p@]);
                    }
                    out.push(c);
                } else {
                    proof {
                        assert(strings_model(out@) + Seq::<Seq<char>>::empty() =~= strings_model(out@));
                    }
                }
            },
            _ => {
                proof {
                    assert(strings_model(out@) + Seq::<Seq<char>>::empty() =~= strings_model(out@));
                }
            },
        }
        j += 1;
    }
    proof {
        assert(items@.take(items@.len() as int) =~= items@);
    }
    out
}

/// The referenced assets and inherited paths named in a prim's metadata.
fn metadata_links(md: &Vec<(String, UsdValue)>) -> (r: (Vec<String>, Vec<String>))
    ensures
        strings_model(r.0@) == references_of(entry_models(md@)),
        strings_model(r.1@) == inherits_of(entry_models(md@)),
{
    proof {
        reveal_strlit("references");
        reveal_strlit("inherits");
    }
    let mut refs: Vec<String> = Vec::new();
    let mut inh: Vec<String> = Vec::new();
    let mut k: usize = 0;
    proof {
        assert(md@.take(0) =~= Seq::<(String, UsdValue)>::empty());
        assert(strings_model(refs@) =~= Seq::<Seq<char>>::empty());
        assert(strings_model(inh@) =~= Seq::<Seq<char>>::empty());
    }
    while k < md.len()
        invariant
            k <= md@.len(),
            strings_model(refs@) == references_of(entry_models(md@.take(k as int))),
            strings_model(inh@) == inherits_of(entry_models(md@.take(k as int))),
        decreases md@.len() - k,
    {
        let ghost before = entry_models(md@.take(k as int));
        let ghost e = (md@[k as int].0@, md@[k as int].1.model());
        proof {
            assert(md@.take(k + 1).subrange(0, k as int) =~= md@.take(k as int));
            assert(entry_models(md@.take(k + 1)) == before.push(e));
            assert(before.push(e).drop_last() =~= before);
        }
        let key = md[k].0.as_str();
        let is_refs = crate::text::str_eq(key, "references");
        let is_inh = crate::text::str_eq(key, "inherits");
        let mut add_refs: Vec<String> = Vec::new();
        let mut add_inh: Vec<String> = Vec::new();
        proof {
            assert(strings_model(add_refs@) =~= Seq::<Seq<char>>::empty());
            assert(strings_model(add_inh@) =~= Seq::<Seq<char>>::empty());
        }
        if is_refs {
            match &md[k].1 {
                UsdValue::Array(arr) => {
                    add_refs = collect_paths(arr, true);
                },
                UsdValue::Asset(p) => {
                    add_refs.push(p.clone());
                    proof {
                        assert(strings_model(add_refs@) =~= seq![p@]);
                    }
                },
                _ => {},
            }
        }
        if is_inh {
            match &md[k].1 {
                UsdValue::Array(arr) => {
                    add_inh = collect_paths(arr, false);
                },
                _ => {},
            }
        }
        proof {
            assert(strings_model(add_refs@) == entry_references(e));
            assert(strings_model(add_inh@) == entry_inherits(e));
            assert(strings_model(refs@ + add_refs@) =~= strings_model(refs@) + strings_model(add_refs@));
            assert(strings_model(inh@ + add_inh@) =~= strings_model(inh@) + strings_model(add_inh@));
        }
        refs.append(&mut add_refs);
        inh.append(&mut add_inh);
        k += 1;
    }
    proof {
        assert(md@.take(md@.len() as int) =~= md@);
    }
    (refs, inh)
}


/// The path of a child prim named `name` under `parent` (see `prim_path`).
fn child_path(parent: &str, name: &str) -> (r: String)
    ensures
        r@ == prim_path(parent@, name@),
{
    proof {
        reveal_strlit("");
        reveal_strlit("/");
        assert(""@ =~= Seq::<char>::empty());
        assert("/"@ =~= seq!['/']);
    }
    if crate::text::str_eq(parent, "") || crate::text::str_eq(parent, "/") {
        crate::text::concat_str("/", name)
    } else {
        let p = crate::text::concat_str(parent, "/");
        crate::text::concat_str(p.as_str(), name)
    }
}

/// Parse a prim at `i` under the prim path `parent` (see `prim_at`).
#[verifier::rlimit(60)]
pub fn parse_prim(s: &[char], i: usize, parent: &str) -> (r: Option<(UsdPrim, usize)>)
    requires
        i <= s@.len(),
    ensures
        match prim_at(s@, i as int, parent@) {
            Some((m, e)) => r matches Some((p, re)) && p.model() == m && re as int == e && i < e
                <= s@.len(),
            None => r is None,
        },
    decreases s@.len() - i, 0int,
{
    proof {
        reveal(body_result);
        reveal_strlit("def");
        reveal_strlit("over");
        reveal_strlit("class");
    }
    let n = s.len();
    let a = ws_at(s, i);
    let (b, specifier) = match prim_specifier(s, a) {
        Some(x) => x,
        None => {
            return None;
        },
    };
    let c = ws_at(s, b);
    let (label, d) = match identifier(s, c) {
        Some(e) => (text_range(s, c, e), e),
        None => {
            let empty = String::new();
            proof {
                assert(empty@ =~= s@.subrange(c as int, c as int));
            }
            (empty, c)
        },
    };
    let d2 = ws_at(s, d);
    let (e, name) = match string_literal(s, d2) {
        Some(x) => x,
        None => {
            return None;
        },
    };
    let f = ws_at(s, e);
    let mut metadata: Vec<(String, UsdValue)> = Vec::new();
    let mut g = f;
    proof {
        assert(entry_models(metadata@) =~= Seq::<(Seq<char>, ValueModel)>::empty());
    }
    if f < n && s[f] == '(' {
        match metadata_block(s, f) {
            Some((md, g0)) => {
                metadata = md;
                let g1 = ws_at(s, g0);
                g = ws_at(s, g1);
            },
            None => {
                return None;
            },
        }
    }
    if !(g < n && s[g] == '{') {
        return None;
    }
    let h = ws_at(s, g + 1);
    let path = child_path(parent, name.as_str());
    let (attributes, children, q) = match parse_prim_body(s, h, path.as_str()) {
        Some(x) => x,
        None => {
            return None;
        },
    };
    let (references, inherits) = metadata_links(&metadata);
    let variants: Vec<(String, String)> = Vec::new();
    let prim = UsdPrim {
        type_label: label,
        path,
        specifier,
        attributes,
        children,
        metadata,
        references,
        inherits,
        variants,
    };
    proof {
        assert(prim.variants@.map_values(|p: (String, String)| (p.0@, p.1@)) =~= Seq::<
            (Seq<char>, Seq<char>),
        >::empty());
    }
    Some((prim, q))
}

/// The result of reading a prim body from `pos` (see `body_at`).
#[verifier::opaque]
pub open spec fn body_result(s: Seq<char>, pos: int, path: Seq<char>) -> Option<
    (Seq<AttributeModel>, Seq<PrimModel>, int),
> {
    body_at(s, pos, path)
}

/// One step through a prim body.
enum BodyItem {
    /// The closing `}`; the position after it.
    Close(usize),
    /// A child prim, and the position after it.
    Child(UsdPrim, usize),
    /// An attribute, and the position after it.
    Attr(UsdAttribute, usize),
    /// Something skipped (a relationship, a variant set, an unknown line);
    /// the position after it.
    Skip(usize),
    /// No valid body from here.
    Fail,
}

/// Read the next item of the body of the prim at `path` from `at`.
#[verifier::rlimit(60)]
fn parse_body_item(s: &[char], at: usize, path: &str) -> (r: BodyItem)
    requires
        at <= s@.len(),
    ensures
        match r {
            BodyItem::Close(e) => body_result(s@, at as int, path@) == Some(
                (Seq::<AttributeModel>::empty(), Seq::<PrimModel>::empty(), e as int),
            ) && at < e <= s@.len(),
            BodyItem::Child(p, e) => at < e <= s@.len() && body_result(s@, at as int, path@)
                == match body_result(s@, e as int, path@) {
                Some((a, c, q)) => Some((a, seq![p.model()] + c, q)),
                None => None,
            },
            BodyItem::Attr(x, e) => at < e <= s@.len() && body_result(s@, at as int, path@)
                == match body_result(s@, e as int, path@) {
                Some((a, c, q)) => Some((seq![x.model()] + a, c, q)),
                None => None,
            },
            BodyItem::Skip(e) => at < e <= s@.len() && body_result(s@, at as int, path@) == body_result(
                s@,
                e as int,
                path@,
            ),
            BodyItem::Fail => body_result(s@, at as int, path@) is None,
        },
    decreases s@.len() - at, 1int,
{
    proof {
        reveal(body_result);
        reveal_strlit("def ");
        reveal_strlit("over ");
        reveal_strlit("class ");
        reveal_strlit("rel ");
        reveal_strlit("variantSet");
        reveal_strlit("\n");
    }
    let n = s.len();
    let r = ws_at(s, at);
    if r < n && s[r] == '}' {
        return BodyItem::Close(r + 1);
    }
    if word_at_exec(s, r, "def ") || word_at_exec(s, r, "over ") || word_at_exec(s, r, "class ") {
        match parse_prim(s, r, path) {
            Some((child, e)) => BodyItem::Child(child, e),
            None => BodyItem::Fail,
        }
    } else if word_at_exec(s, r, "rel ") {
        match relationship_def(s, r) {
            Some((_, _, e)) => BodyItem::Skip(e),
            None => BodyItem::Fail,
        }
    } else if word_at_exec(s, r, "variantSet") {
        let b0 = ws_at(s, r + 10);
        let b = match string_literal(s, b0) {
            Some((b, _)) => b,
            None => {
                return BodyItem::Fail;
            },
        };
        let c = ws_at(s, b);
        if !(c < n && s[c] == '=') {
            return BodyItem::Fail;
        }
        let d = ws_at(s, c + 1);
        match skip_braces(s, d) {
            Some(e) => BodyItem::Skip(e),
            None => BodyItem::Fail,
        }
    } else {
        match attribute_def(s, r) {
            Some((attr, e)) => BodyItem::Attr(attr, e),
            None => {
                let nl = crate::text::chars_of("\n");
                proof {
                    assert(nl@ == seq!['\n']);
                }
                match find_from(s, &nl, r) {
                    Some(k) => {
                        proof {
                            lemma_first_from(s@, nl@, r as int, k as int);
                        }
                        if k >= n {
                            BodyItem::Fail
                        } else {
                            BodyItem::Skip(k + 1)
                        }
                    },
                    None => {
                        proof {
                            assert(!(exists|k: int| r <= k && occurs_at(s@, nl@, k)));
                        }
                        BodyItem::Fail
                    },
                }
            },
        }
    }
}

/// Parse the body of the prim at `path` from `pos` to its closing `}`
/// (see `body_at`): its attributes, its child prims, and the position
/// after the `}`.
pub fn parse_prim_body(s: &[char], pos: usize, path: &str) -> (r: Option<
    (Vec<UsdAttribute>, Vec<UsdPrim>, usize),
>)
    requires
        pos <= s@.len(),
    ensures
        match body_result(s@, pos as int, path@) {
            Some((a, c, e)) => r matches Some((ra, rc, re)) && attribute_models(ra@) == a
                && prim_models(rc@) == c && re as int == e && pos < e <= s@.len(),
            None => r is None,
        },
    decreases s@.len() - pos, 2int,
{
    let n = s.len();
    let mut attributes: Vec<UsdAttribute> = Vec::new();
    let mut children: Vec<UsdPrim> = Vec::new();
    let mut at = pos;
    proof {
        assert(attribute_models(attributes@) =~= Seq::<AttributeModel>::empty());
        assert(prim_models(children@) =~= Seq::<PrimModel>::empty());
        match body_result(s@, pos as int, path@) {
            Some((a, c, q)) => {
                assert(attribute_models(attributes@) + a =~= a);
                assert(prim_models(children@) + c =~= c);
            },
            None => {},
        }
    }
    loop
        invariant
            n == s@.len(),
            pos <= at <= n,
            body_result(s@, pos as int, path@) == match body_result(s@, at as int, path@) {
                Some((a, c, q)) => Some(
                    (attribute_models(attributes@) + a, prim_models(children@) + c, q),
                ),
                None => None,
            },
        decreases n - at,
    {
        match parse_body_item(s, at, path) {
            BodyItem::Close(e) => {
                proof {
                    assert(attribute_models(attributes@) + Seq::<AttributeModel>::empty()
                        =~= attribute_models(attributes@));
                    assert(prim_models(children@) + Seq::<PrimModel>::empty() =~= prim_models(
                        children@,
                    ));
                }
                return Some((attributes, children, e));
            },
            BodyItem::Child(child, e) => {
                let ghost before = prim_models(children@);
                let ghost m = child.model();
                proof {
                    lemma_prim_models_push(children@, child);
                    match body_result(s@, e as int, path@) {
                        Some((a, c, q)) => {
                            assert(before.push(m) + c =~= before + (seq![m] + c));
                        },
                        None => {},
                    }
                }
                children.push(child);
                at = e;
            },
            BodyItem::Attr(attr, e) => {
                let ghost before = attribute_models(attributes@);
                let ghost m = attr.model();
                proof {
                    assert(attribute_models(attributes@.push(attr)) =~= before.push(m));
                    match body_result(s@, e as int, path@) {
                        Some((a, c, q)) => {
                            assert(before.push(m) + a =~= before + (seq![m] + a));
                        },
                        None => {},
                    }
                }
                attributes.push(attr);
                at = e;
            },
            BodyItem::Skip(e) => {
                at = e;
            },
            BodyItem::Fail => {
                return None;
            },
        }
    }
}


// ---------------------------------------------------------------------------
// The stage
// ---------------------------------------------------------------------------

/// A USDA document: its metadata, its root prims, and the stage settings
/// read from the metadata.
#[derive(Debug)]
pub struct UsdStage {
    /// Stage metadata entries, in order.
    pub metadata: Vec<(String, UsdValue)>,
    /// Root prims, in order.
    pub root_prims: Vec<UsdPrim>,
    /// `defaultPrim`, when given as a string.
    pub default_prim: Option<String>,
    /// `upAxis`, when given as a string or a token.
    pub up_axis: Option<String>,
    /// `metersPerUnit`, when given as a number.
    pub meters_per_unit: Option<UsdValue>,
}

/// The content of a [`UsdStage`].
pub struct StageModel {
    pub metadata: Seq<(Seq<char>, ValueModel)>,
    pub root_prims: Seq<PrimModel>,
    pub default_prim: Option<Seq<char>>,
    pub up_axis: Option<Seq<char>>,
    pub meters_per_unit: Option<ValueModel>,
}

/// The content of an optional string.
pub open spec fn option_string_model(v: Option<String>) -> Option<Seq<char>> {
    match v {
        Some(x) => Some(x@),
        None => None,
    }
}

impl UsdStage {
    /// The content of this stage.
    pub open spec fn model(self) -> StageModel {
        StageModel {
            metadata: entry_models(self.metadata@),
            root_prims: prim_models(self.root_prims@),
            default_prim: option_string_model(self.default_prim),
            up_axis: option_string_model(self.up_axis),
            meters_per_unit: option_model(self.meters_per_unit),
        }
    }
}

/// The last `defaultPrim` entry whose value is a string.
pub open spec fn default_prim_of(md: Seq<(Seq<char>, ValueModel)>) -> Option<Seq<char>>
    decreases md.len(),
{
    if md.len() == 0 {
        None
    } else if md.last().0 == "defaultPrim"@ {
        match md.last().1 {
            ValueModel::Str(t) => Some(t),
            _ => default_prim_of(md.drop_last()),
        }
    } else {
        default_prim_of(md.drop_last())
    }
}

/// The last `upAxis` entry whose value is a string or a token.
pub open spec fn up_axis_of(md: Seq<(Seq<char>, ValueModel)>) -> Option<Seq<char>>
    decreases md.len(),
{
    if md.len() == 0 {
        None
    } else if md.last().0 == "upAxis"@ {
        match md.last().1 {
            ValueModel::Str(t) => Some(t),
            ValueModel::Token(t) => Some(t),
            _ => up_axis_of(md.drop_last()),
        }
    } else {
        up_axis_of(md.drop_last())
    }
}

/// The last `metersPerUnit` entry whose value is a number.
pub open spec fn meters_per_unit_of(md: Seq<(Seq<char>, ValueModel)>) -> Option<ValueModel>
    decreases md.len(),
{
    if md.len() == 0 {
        None
    } else if md.last().0 == "metersPerUnit"@ {
        match md.last().1 {
            ValueModel::Int(v) => Some(ValueModel::Int(v)),
            ValueModel::Real(t) => Some(ValueModel::Real(t)),
            _ => meters_per_unit_of(md.drop_last()),
        }
    } else {
        meters_per_unit_of(md.drop_last())
    }
}

/// The root prims from `pos` to the end of the text; anything that does
/// not start a prim is skipped up to the next line.
pub open spec fn roots_at(s: Seq<char>, pos: int) -> Option<Seq<PrimModel>>
    decreases s.len() - pos,
{
    if pos < 0 || pos > s.len() {
        None
    } else {
        let r = spec_ws(s, pos);
        if !(pos <= r <= s.len()) {
            None
        } else if r == s.len() {
            Some(Seq::empty())
        } else if starts_prim(s, r) {
            match prim_at(s, r, Seq::empty()) {
                Some((p, e)) => if r < e <= s.len() {
                    match roots_at(s, e) {
                        Some(rest) => Some(seq![p] + rest),
                        None => None,
                    }
                } else {
                    None
                },
                None => None,
            }
        } else {
            match first_from(s, seq!['\n'], r) {
                Some(k) => if r <= k < s.len() {
                    roots_at(s, k + 1)
                } else {
                    None
                },
                None => Some(Seq::empty()),
            }
        }
    }
}

/// A USDA document: leading blank space, the `#usda` header line, an
/// optional stage metadata block, then the root prims.
pub open spec fn stage_at(s: Seq<char>) -> Option<StageModel> {
    let a = multispace_end(s, 0);
    if !word_at(s, a, "#usda"@) {
        None
    } else {
        let c = match first_from(s, seq!['\n'], a + 5) {
            Some(k) => k + 1,
            None => a + 5,
        };
        let d = spec_ws(s, c);
        if 0 <= d < s.len() && s[d] == '(' {
            match metadata_at(s, d) {
                None => None,
                Some((md, e)) => match roots_at(s, spec_ws(s, e)) {
                    Some(roots) => Some(
                        StageModel {
                            metadata: md,
                            root_prims: roots,
                            default_prim: default_prim_of(md),
                            up_axis: up_axis_of(md),
                            meters_per_unit: meters_per_unit_of(md),
                        },
                    ),
                    None => None,
                },
            }
        } else {
            match roots_at(s, d) {
                Some(roots) => Some(
                    StageModel {
                        metadata: Seq::empty(),
                        root_prims: roots,
                        default_prim: None,
                        up_axis: None,
                        meters_per_unit: None,
                    },
                ),
                None => None,
            }
        }
    }
}

/// The result of reading the root prims from `pos` (see `roots_at`).
#[verifier::opaque]
pub open spec fn roots_result(s: Seq<char>, pos: int) -> Option<Seq<PrimModel>> {
    roots_at(s, pos)
}

/// One step through the root prims.
enum RootItem {
    /// The end of the text.
    End,
    /// A root prim, and the position after it.
    Prim(UsdPrim, usize),
    /// A skipped line; the position after it.
    Skip(usize),
    /// No valid document from here.
    Fail,
}

/// Read the next root item from `at`.
fn parse_root_item(s: &[char], at: usize) -> (r: RootItem)
    requires
        at <= s@.len(),
    ensures
        match r {
            RootItem::End => roots_result(s@, at as int) == Some(Seq::<PrimModel>::empty()),
            RootItem::Prim(p, e) => at < e <= s@.len() && roots_result(s@, at as int) == match roots_result(
                s@,
                e as int,
            ) {
                Some(rest) => Some(seq![p.model()] + rest),
                None => None,
            },
            RootItem::Skip(e) => at < e <= s@.len() && roots_result(s@, at as int) == roots_result(
                s@,
                e as int,
            ),
            RootItem::Fail => roots_result(s@, at as int) is None,
        },
{
    proof {
        reveal(roots_result);
        reveal_strlit("def ");
        reveal_strlit("over ");
        reveal_strlit("class ");
        reveal_strlit("");
        reveal_strlit("\n");
        assert(""@ =~= Seq::<char>::empty());
    }
    let n = s.len();
    let r = ws_at(s, at);
    if r == n {
        return RootItem::End;
    }
    if word_at_exec(s, r, "def ") || word_at_exec(s, r, "over ") || word_at_exec(s, r, "class ") {
        match parse_prim(s, r, "") {
            Some((p, e)) => RootItem::Prim(p, e),
            None => RootItem::Fail,
        }
    } else {
        let nl = crate::text::chars_of("\n");
        proof {
            assert(nl@ == seq!['\n']);
        }
        match find_from(s, &nl, r) {
            Some(k) => {
                proof {
                    lemma_first_from(s@, nl@, r as int, k as int);
                }
                if k >= n {
                    RootItem::Fail
                } else {
                    RootItem::Skip(k + 1)
                }
            },
            None => {
                proof {
                    assert(!(exists|k: int| r <= k && occurs_at(s@, nl@, k)));
                }
                RootItem::End
            },
        }
    }
}

/// Parse the root prims from `pos` (see `roots_at`).
fn parse_roots(s: &[char], pos: usize) -> (r: Option<Vec<UsdPrim>>)
    requires
        pos <= s@.len(),
    ensures
        match roots_result(s@, pos as int) {
            Some(m) => r matches Some(v) && prim_models(v@) == m,
            None => r is None,
        },
{
    let n = s.len();
    let mut roots: Vec<UsdPrim> = Vec::new();
    let mut at = pos;
    proof {
        assert(prim_models(roots@) =~= Seq::<PrimModel>::empty());
        match roots_result(s@, pos as int) {
            Some(m) => {
                assert(prim_models(roots@) + m =~= m);
            },
            None => {},
        }
    }
    loop
        invariant
            n == s@.len(),
            pos <= at <= n,
            roots_result(s@, pos as int) == match roots_result(s@, at as int) {
                Some(m) => Some(prim_models(roots@) + m),
                None => None,
            },
        decreases n - at,
    {
        match parse_root_item(s, at) {
            RootItem::End => {
                proof {
                    assert(prim_models(roots@) + Seq::<PrimModel>::empty() =~= prim_models(roots@));
                }
                return Some(roots);
            },
            RootItem::Prim(p, e) => {
                let ghost before = prim_models(roots@);
                let ghost m = p.model();
                proof {
                    lemma_prim_models_push(roots@, p);
                    match roots_result(s@, e as int) {
                        Some(rest) => {
                            assert(before.push(m) + rest =~= before + (seq![m] + rest));
                        },
                        None => {},
                    }
                }
                roots.push(p);
                at = e;
            },
            RootItem::Skip(e) => {
                at = e;
            },
            RootItem::Fail => {
                return None;
            },
        }
    }
}

/// A number value, copied.
fn copy_number(v: &UsdValue) -> (r: Option<UsdValue>)
    ensures
        match v.model() {
            ValueModel::Int(i) => r matches Some(c) && c.model() == ValueModel::Int(i),
            ValueModel::Real(t) => r matches Some(c) && c.model() == ValueModel::Real(t),
            _ => r is None,
        },
{
    match v {
        UsdValue::Int(i) => Some(UsdValue::Int(*i)),
        UsdValue::Real(t) => Some(UsdValue::Real(t.clone())),
        _ => None,
    }
}

/// The stage settings named in the stage metadata: `defaultPrim`,
/// `upAxis` and `metersPerUnit`, the last usable entry of each.
fn stage_settings(md: &Vec<(String, UsdValue)>) -> (r: (Option<String>, Option<String>, Option<UsdValue>))
    ensures
        option_string_model(r.0) == default_prim_of(entry_models(md@)),
        option_string_model(r.1) == up_axis_of(entry_models(md@)),
        option_model(r.2) == meters_per_unit_of(entry_models(md@)),
{
    proof {
        reveal_strlit("defaultPrim");
        reveal_strlit("upAxis");
        reveal_strlit("metersPerUnit");
    }
    let mut default_prim: Option<String> = None;
    let mut up_axis: Option<String> = None;
    let mut meters: Option<UsdValue> = None;
    let mut k: usize = 0;
    proof {
        assert(md@.take(0) =~= Seq::<(String, UsdValue)>::empty());
    }
    while k < md.len()
        invariant
            k <= md@.len(),
            option_string_model(default_prim) == default_prim_of(entry_models(md@.take(k as int))),
            option_string_model(up_axis) == up_axis_of(entry_models(md@.take(k as int))),
            option_model(meters) == meters_per_unit_of(entry_models(md@.take(k as int))),
        decreases md@.len() - k,
    {
        let ghost before = entry_models(md@.take(k as int));
        let ghost e = (md@[k as int].0@, md@[k as int].1.model());
        proof {
            assert(md@.take(k + 1).subrange(0, k as int) =~= md@.take(k as int));
            assert(entry_models(md@.take(k + 1)) == before.push(e));
            assert(before.push(e).drop_last() =~= before);
        }
        let key = md[k].0.as_str();
        if crate::text::str_eq(key, "defaultPrim") {
            match &md[k].1 {
                UsdValue::String(t) => {
                    default_prim = Some(t.clone());
                },
                _ => {},
            }
        }
        if crate::text::str_eq(key, "upAxis") {
            match &md[k].1 {
                UsdValue::String(t) => {
                    up_axis = Some(t.clone());
                },
                UsdValue::Token(t) => {
                    up_axis = Some(t.clone());
                },
                _ => {},
            }
        }
        if crate::text::str_eq(key, "metersPerUnit") {
            match copy_number(&md[k].1) {
                Some(v) => {
                    meters = Some(v);
                },
                None => {},
            }
        }
        k += 1;
    }
    proof {
        assert(md@.take(md@.len() as int) =~= md@);
    }
    (default_prim, up_axis, meters)
}

/// Parse a USDA document (see `stage_at`).
pub fn parse_stage(input: &str) -> (r: Option<UsdStage>)
    ensures
        match stage_at(input@) {
            Some(m) => r matches Some(st) && st.model() == m,
            None => r is None,
        },
{
    proof {
        reveal(roots_result);
        reveal_strlit("#usda");
        reveal_strlit("\n");
    }
    let s = chars_of(input);
    let n = s.len();
    let a = skip_multispace(&s, 0);
    if !word_at_exec(&s, a, "#usda") {
        return None;
    }
    let nl = chars_of("\n");
    proof {
        assert(nl@ == seq!['\n']);
    }
    let c = match find_from(&s, &nl, a + 5) {
        Some(k) => {
            proof {
                lemma_first_from(s@, nl@, a + 5, k as int);
            }
            k + 1
        },
        None => {
            proof {
                assert(!(exists|k: int| a + 5 <= k && occurs_at(s@, nl@, k)));
            }
            a + 5
        },
    };
    let d = ws_at(&s, c);
    if d < n && s[d] == '(' {
        let (metadata, e) = match metadata_block(&s, d) {
            Some(x) => x,
            None => {
                return None;
            },
        };
        let f = ws_at(&s, e);
        let root_prims = match parse_roots(&s, f) {
            Some(v) => v,
            None => {
                return None;
            },
        };
        let (default_prim, up_axis, meters_per_unit) = stage_settings(&metadata);
        Some(UsdStage { metadata, root_prims, default_prim, up_axis, meters_per_unit })
    } else {
        let root_prims = match parse_roots(&s, d) {
            Some(v) => v,
            None => {
                return None;
            },
        };
        let metadata: Vec<(String, UsdValue)> = Vec::new();
        proof {
            assert(entry_models(metadata@) =~= Seq::<(Seq<char>, ValueModel)>::empty());
        }
        Some(UsdStage { metadata, root_prims, default_prim: None, up_axis: None, meters_per_unit: None })
    }
}


/// The integers among a sequence of values, in order.
pub open spec fn ints_in(items: Seq<ValueModel>) -> Seq<int>
    decreases items.len(),
{
    if items.len() == 0 {
        Seq::empty()
    } else {
        ints_in(items.drop_last()) + match items.last() {
            ValueModel::Int(i) => seq![i],
            _ => Seq::empty(),
        }
    }
}

/// The integers of an array value, in order; empty for any other value.
pub fn array_to_int_array(val: &UsdValue) -> (r: Vec<i64>)
    ensures
        r@.map_values(|x: i64| x as int) == match val.model() {
            ValueModel::Array(items) => ints_in(items),
            _ => Seq::empty(),
        },
{
    let mut out: Vec<i64> = Vec::new();
    proof {
        assert(out@.map_values(|x: i64| x as int) =~= Seq::<int>::empty());
    }
    match val {
        UsdValue::Array(items) => {
            let mut j: usize = 0;
            proof {
                assert(items@.take(0) =~= Seq::<UsdValue>::empty());
            }
            while j < items.len()
                invariant
                    j <= items@.len(),
                    out@.map_values(|x: i64| x as int) == ints_in(models_of(items@.take(j as int))),
                decreases items@.len() - j,
            {
                let ghost before = models_of(items@.take(j as int));
                let ghost m = items@[j as int].model();
                proof {
                    assert(items@.take(j + 1).subrange(0, j as int) =~= items@.take(j as int));
                    assert(models_of(items@.take(j + 1)) == before.push(m));
                    assert(before.push(m).drop_last() =~= before);
                }
                match &items[j] {
                    UsdValue::Int(v) => {
                        proof {
                            assert(out@.push(*v).map_values(|x: i64| x as int) =~= out@.map_values(
                                |x: i64| x as int,
                            ) + seq![*v as int]);
                        }
                        out.push(*v);
                    },
                    _ => {
                        proof {
                            assert(out@.map_values(|x: i64| x as int) + Seq::<int>::empty()
                                =~= out@.map_values(|x: i64| x as int));
                        }
                    },
                }
                j += 1;
            }
            proof {
                assert(items@.take(items@.len() as int) =~= items@);
            }
            out
        },
        _ => out,
    }
}


/// Whether every prim of a tree sits below its parent: each child's path
/// is its parent's path followed by `/` and a name.
pub open spec fn paths_nested(p: PrimModel) -> bool
    decreases p,
{
    all_below(p.path, p.children)
}

/// Whether each prim of `cs` is named below `path` and has its own
/// children nested below it.
pub open spec fn all_below(path: Seq<char>, cs: Seq<PrimModel>) -> bool
    decreases cs,
{
    if cs.len() == 0 {
        true
    } else {
        &&& all_below(path, cs.drop_last())
        &&& exists|name: Seq<char>| cs.last().path == prim_path(path, name)
        &&& paths_nested(cs.last())
    }
}

/// Whether every prim of `cs` is a child of the prim at `path` and has its
/// own children nested below it.
pub open spec fn children_below(path: Seq<char>, cs: Seq<PrimModel>) -> bool {
    forall|k: int|
        #![trigger cs[k]]
        0 <= k < cs.len() ==> (exists|name: Seq<char>| cs[k].path == prim_path(path, name))
            && paths_nested(cs[k])
}

/// `all_below` holds exactly when each prim satisfies it on its own.
proof fn lemma_all_below(path: Seq<char>, cs: Seq<PrimModel>)
    ensures
        all_below(path, cs) <==> children_below(path, cs),
    decreases cs.len(),
{
    if cs.len() > 0 {
        let init = cs.drop_last();
        lemma_all_below(path, init);
        if children_below(path, cs) {
            assert forall|k: int| #![trigger init[k]] 0 <= k < init.len() implies (exists|
                name: Seq<char>,
            | init[k].path == prim_path(path, name)) && paths_nested(init[k]) by {
                assert(init[k] == cs[k]);
            }
            assert(cs.last() == cs[cs.len() - 1]);
        }
        if all_below(path, cs) {
            assert forall|k: int| #![trigger cs[k]] 0 <= k < cs.len() implies (exists|
                name: Seq<char>,
            | cs[k].path == prim_path(path, name)) && paths_nested(cs[k]) by {
                if k < cs.len() - 1 {
                    assert(init[k] == cs[k]);
                } else {
                    assert(cs.last() == cs[k]);
                }
            }
        }
    }
}

/// A prim read under `parent` is named below it, and its tree is nested.
#[verifier::rlimit(60)]
proof fn lemma_prim_nested(s: Seq<char>, i: int, parent: Seq<char>)
    requires
        prim_at(s, i, parent) is Some,
    ensures
        paths_nested(prim_at(s, i, parent).unwrap().0),
        exists|name: Seq<char>| prim_at(s, i, parent).unwrap().0.path == prim_path(parent, name),
    decreases s.len() - i, 0int,
{
    let a = spec_ws(s, i);
    let (b, specifier) = prim_specifier_at(s, a).unwrap();
    let c = spec_ws(s, b);
    let d = match identifier_at(s, c) {
        Some(e) => e,
        None => c,
    };
    let (e, name) = string_literal_at(s, spec_ws(s, d)).unwrap();
    let f = spec_ws(s, e);
    let opened = if 0 <= f < s.len() && s[f] == '(' {
        match metadata_at(s, f) {
            Some((md, g0)) => Some((md, spec_ws(s, spec_ws(s, g0)))),
            None => None,
        }
    } else {
        Some((Seq::<(Seq<char>, ValueModel)>::empty(), f))
    };
    let (md, g) = opened.unwrap();
    let h = spec_ws(s, g + 1);
    let path = prim_path(parent, name);
    lemma_body_nested(s, h, path);
    let m = prim_at(s, i, parent).unwrap().0;
    assert(m.path == path);
    assert(m.children == body_at(s, h, path).unwrap().1);
    assert(m.path == prim_path(parent, name));
    lemma_all_below(path, m.children);
}

/// The child prims of a body read below `path` are named below it, and
/// their trees are nested.
proof fn lemma_body_nested(s: Seq<char>, pos: int, path: Seq<char>)
    requires
        body_at(s, pos, path) is Some,
    ensures
        children_below(path, body_at(s, pos, path).unwrap().1),
    decreases s.len() - pos, 1int,
{
    let r = spec_ws(s, pos);
    let cs = body_at(s, pos, path).unwrap().1;
    if r < s.len() && s[r] == '}' {
    } else if starts_prim(s, r) {
        let (child, e) = prim_at(s, r, path).unwrap();
        lemma_prim_nested(s, r, path);
        lemma_body_nested(s, e, path);
        let rest = body_at(s, e, path).unwrap().1;
        assert(cs == seq![child] + rest);
        assert forall|k: int| #![trigger cs[k]] 0 <= k < cs.len() implies (exists|name: Seq<char>|
            cs[k].path == prim_path(path, name)) && paths_nested(cs[k]) by {
            if k > 0 {
                assert(cs[k] == rest[k - 1]);
            } else {
                assert(cs[k] == child);
            }
        }
    } else if word_at(s, r, "rel "@) {
        let e = relationship_at(s, r).unwrap().2;
        lemma_body_nested(s, e, path);
    } else if word_at(s, r, "variantSet"@) {
        let b = string_literal_at(s, spec_ws(s, r + 10)).unwrap().0;
        let c = spec_ws(s, b);
        let e = brace_block_end(s, spec_ws(s, c + 1)).unwrap();
        lemma_body_nested(s, e, path);
    } else {
        match attribute_at(s, r) {
            Some((at, e)) => {
                lemma_body_nested(s, e, path);
            },
            None => {
                let k = first_from(s, seq!['\n'], r).unwrap();
                lemma_body_nested(s, k + 1, path);
            },
        }
    }
}

/// The root prims read from `pos` are each named below the root, and
/// their trees are nested.
proof fn lemma_roots_nested(s: Seq<char>, pos: int)
    requires
        roots_at(s, pos) is Some,
    ensures
        forall|k: int|
            #![trigger roots_at(s, pos).unwrap()[k]]
            0 <= k < roots_at(s, pos).unwrap().len() ==> paths_nested(roots_at(s, pos).unwrap()[k])
                && exists|name: Seq<char>| roots_at(s, pos).unwrap()[k].path == seq!['/'] + name,
    decreases s.len() - pos,
{
    let r = spec_ws(s, pos);
    let roots = roots_at(s, pos).unwrap();
    if r == s.len() {
    } else if starts_prim(s, r) {
        let (p, e) = prim_at(s, r, Seq::empty()).unwrap();
        lemma_prim_nested(s, r, Seq::empty());
        lemma_roots_nested(s, e);
        let rest = roots_at(s, e).unwrap();
        assert(roots == seq![p] + rest);
        let name = choose|name: Seq<char>| p.path == prim_path(Seq::empty(), name);
        assert(p.path == seq!['/'] + name);
        assert forall|k: int| #![trigger roots[k]] 0 <= k < roots.len() implies paths_nested(roots[k])
            && exists|name: Seq<char>| roots[k].path == seq!['/'] + name by {
            if k > 0 {
                assert(roots[k] == rest[k - 1]);
            } else {
                assert(roots[k] == p);
            }
        }
    } else {
        match first_from(s, seq!['\n'], r) {
            Some(k) => {
                lemma_roots_nested(s, k + 1);
            },
            None => {},
        }
    }
}

/// Prim paths follow the prim tree: in a parsed stage, every root prim's
/// path is `/` followed by its name, and every child prim's path is its
/// parent's path followed by `/` and its name.
pub proof fn lemma_stage_paths_nested(s: Seq<char>)
    requires
        stage_at(s) is Some,
    ensures
        forall|k: int|
            #![trigger stage_at(s).unwrap().root_prims[k]]
            0 <= k < stage_at(s).unwrap().root_prims.len() ==> paths_nested(
                stage_at(s).unwrap().root_prims[k],
            ) && exists|name: Seq<char>| stage_at(s).unwrap().root_prims[k].path == seq!['/'] + name,
{
    let a = multispace_end(s, 0);
    let c = match first_from(s, seq!['\n'], a + 5) {
        Some(k) => k + 1,
        None => a + 5,
    };
    let d = spec_ws(s, c);
    if 0 <= d < s.len() && s[d] == '(' {
        let e = metadata_at(s, d).unwrap().1;
        lemma_roots_nested(s, spec_ws(s, e));
    } else {
        lemma_roots_nested(s, d);
    }
}

} // verus!
