//! Part 21 (ISO 10303-21) physical file format parser.
//!
//! The grammar is stated as spec functions over the character sequence of
//! the input, each taking a position and giving back what was read and the
//! position after it; the parser functions are proved to compute exactly
//! those results.

use vstd::prelude::*;
use crate::text::{
    hex_digit, hex_digit_value, char_from_u32, string_from_chars, chars_of, skip_while_from,
    multispace_end, is_digit, digits_value, char_is_alphanumeric, is_alphanumeric, skip_multispace,
    str_to_uppercase, to_uppercase, occurs_at, find_from, occurs_at_exec,
};

verus! {

// ---------------------------------------------------------------------------
// String escapes: \X2\HHHH...\X0\ and \X\HH
// ---------------------------------------------------------------------------

/// `p`, or `len` when `p` lies beyond it.
pub open spec fn clamp(p: int, len: nat) -> int {
    if p <= len { p } else { len as int }
}

/// Number of bytes of the UTF-8 encoding of `c`.
pub open spec fn utf8_len(c: char) -> nat {
    let u = c as u32;
    if u < 0x80 { 1 } else if u < 0x800 { 2 } else if u < 0x10000 { 3 } else { 4 }
}

/// The bytes of `h` as seen by a hexadecimal reader: ASCII characters stay,
/// and each other character stands as `utf8_len` non-digit markers.
pub open spec fn hex_bytes(h: Seq<char>) -> Seq<char>
    decreases h.len(),
{
    if h.len() == 0 {
        Seq::empty()
    } else {
        let c = h.last();
        hex_bytes(h.drop_last()) + if (c as u32) < 0x80 {
            seq![c]
        } else {
            Seq::new(utf8_len(c), |k: int| '\u{80}')
        }
    }
}

/// Value of a run of hexadecimal digits; `None` when one is not a digit.
pub open spec fn hex_run_value(d: Seq<char>) -> Option<nat>
    decreases d.len(),
{
    if d.len() == 0 {
        Some(0)
    } else {
        match (hex_run_value(d.drop_last()), hex_digit_value(d.last())) {
            (Some(a), Some(b)) => Some(a * 16 + b),
            _ => None,
        }
    }
}

/// `from_str_radix(g, 16)` for an unsigned target wide enough: an optional
/// leading `+`, then at least one hexadecimal digit.
pub open spec fn radix16(g: Seq<char>) -> Option<nat> {
    let d = if g.len() > 0 && g[0] == '+' { g.drop_first() } else { g };
    if d.len() == 0 { None } else { hex_run_value(d) }
}

/// Whether `code` is a Unicode scalar value.
pub open spec fn is_scalar_code(code: nat) -> bool {
    code < 0xD800 || (0xE000 <= code && code <= 0x10FFFF)
}

/// Decode the four-byte groups of an `\X2\` segment from byte `i` on; a
/// group that is not a hexadecimal code of a scalar value is dropped.
pub open spec fn decode_groups(b: Seq<char>, i: int) -> Seq<char>
    decreases b.len() - i,
{
    if 0 <= i && i + 4 <= b.len() {
        let rest = decode_groups(b, i + 4);
        match radix16(b.subrange(i, i + 4)) {
            Some(code) => if is_scalar_code(code) {
                seq![(code as u32) as char] + rest
            } else {
                rest
            },
            None => rest,
        }
    } else {
        Seq::empty()
    }
}

/// The hexadecimal characters of an `\X2\` segment starting at `j`, up to
/// and including its `\X0\` terminator, and the position after it. A
/// backslash not followed by `X0` is dropped, as is an `X` after it.
pub open spec fn hex_segment(s: Seq<char>, j: int) -> (Seq<char>, int)
    decreases s.len() - j,
{
    if j < 0 || j >= s.len() {
        (Seq::empty(), j)
    } else if s[j] == '\\' {
        if j + 1 < s.len() && s[j + 1] == 'X' {
            if j + 2 < s.len() && s[j + 2] == '0' {
                (Seq::empty(), clamp(j + 4, s.len()))
            } else {
                hex_segment(s, j + 2)
            }
        } else {
            hex_segment(s, j + 1)
        }
    } else {
        let (h, e) = hex_segment(s, j + 1);
        (seq![s[j]] + h, e)
    }
}

/// The character of an `\X\HH` escape, `h1 h2` read as `from_str_radix(.., 16)` into a byte.
pub open spec fn latin1_escape(h1: char, h2: char) -> Seq<char> {
    match radix16(hex_bytes(seq![h1, h2])) {
        Some(v) => if v < 256 { seq![(v as u8) as char] } else { Seq::empty() },
        None => Seq::empty(),
    }
}

/// The character at `k`, or `'0'` past the end.
pub open spec fn char_or_zero(s: Seq<char>, k: int) -> char {
    if 0 <= k < s.len() { s[k] } else { '0' }
}

/// Decode STEP escape sequences in `s` from position `i` on.
pub open spec fn decode_from(s: Seq<char>, i: int) -> Seq<char>
    decreases s.len() - i,
{
    if i < 0 || i >= s.len() {
        Seq::empty()
    } else if s[i] != '\\' {
        seq![s[i]] + decode_from(s, i + 1)
    } else if i + 1 < s.len() && s[i + 1] == 'X' {
        if i + 2 < s.len() && s[i + 2] == '2' {
            if i + 3 < s.len() && s[i + 3] == '\\' {
                let (h, e) = hex_segment(s, i + 4);
                if i < e && e <= s.len() {
                    decode_groups(hex_bytes(h), 0) + decode_from(s, e)
                } else {
                    Seq::empty()
                }
            } else {
                decode_from(s, clamp(i + 4, s.len()))
            }
        } else if i + 2 < s.len() && s[i + 2] == '\\' {
            latin1_escape(char_or_zero(s, i + 3), char_or_zero(s, i + 4)) + decode_from(
                s,
                clamp(i + 5, s.len()),
            )
        } else {
            seq!['\\', 'X'] + decode_from(s, i + 2)
        }
    } else if i + 1 < s.len() {
        seq!['\\', s[i + 1]] + decode_from(s, i + 2)
    } else {
        seq!['\\']
    }
}


/// `16^k`.
pub open spec fn pow16(k: nat) -> nat
    decreases k,
{
    if k == 0 { 1 } else { 16 * pow16((k - 1) as nat) }
}

/// A run of hexadecimal digits has a value exactly when every character is a digit.
pub proof fn lemma_hex_run_some(d: Seq<char>)
    ensures
        hex_run_value(d) is Some <==> forall|i: int| 0 <= i < d.len() ==> (#[trigger] hex_digit_value(d[i])) is Some,
        hex_run_value(d) matches Some(v) ==> v < pow16(d.len()),
    decreases d.len(),
{
    if d.len() > 0 {
        lemma_hex_run_some(d.drop_last());
        assert forall|i: int| 0 <= i < d.len() - 1 implies d.drop_last()[i] == d[i] by {}
        if hex_run_value(d.drop_last()) is Some && hex_digit_value(d.last()) is Some {
            assert forall|i: int| 0 <= i < d.len() implies (#[trigger] hex_digit_value(d[i])) is Some by {
                if i < d.len() - 1 {
                    assert(hex_digit_value(d.drop_last()[i]) is Some);
                }
            }
        }
        if !(hex_run_value(d.drop_last()) is Some) {
            let i = choose|i: int| 0 <= i < d.len() - 1 && !(hex_digit_value(d.drop_last()[i]) is Some);
            assert(!(hex_digit_value(d[i]) is Some));
        }
    }
}

/// `from_str_radix(.., 16)` on at most eight characters.
pub fn radix16_exec(g: &[char]) -> (r: Option<u64>)
    requires
        g@.len() <= 8,
    ensures
        r is Some <==> radix16(g@) is Some,
        r matches Some(x) ==> radix16(g@) == Some(x as nat),
{
    let start: usize = if g.len() > 0 && g[0] == '+' { 1 } else { 0 };
    let ghost d = if g@.len() > 0 && g@[0] == '+' { g@.drop_first() } else { g@ };
    if start >= g.len() {
        return None;
    }
    let mut v: u64 = 0;
    let mut k: usize = start;
    proof {
        lemma_pow16_monotone(0, 8);
        assert(d.take(0) =~= Seq::<char>::empty());
    }
    while k < g.len()
        invariant
            start <= k <= g@.len() <= 8,
            d == g@.subrange(start as int, g@.len() as int),
            d == (if g@.len() > 0 && g@[0] == '+' { g@.drop_first() } else { g@ }),
            hex_run_value(d.take(k - start)) == Some(v as nat),
            v < pow16((k - start) as nat),
            pow16(8) == 0x1_0000_0000,
        decreases g@.len() - k,
    {
        proof {
            lemma_pow16_monotone((k - start) as nat, 7);
        }
        match hex_digit(g[k]) {
            Some(x) => {
                proof {
                    assert(d.take(k - start + 1).drop_last() =~= d.take(k - start));
                    assert(d.take(k - start + 1).last() == g@[k as int]);
                }
                v = v * 16 + x as u64;
                k += 1;
            },
            None => {
                proof {
                    lemma_hex_run_some(d);
                    assert(d[k - start] == g@[k as int]);
                    assert(!(hex_digit_value(d[k - start]) is Some));
                    assert(!(hex_run_value(d) is Some));
                    assert(d.len() > 0);
                    assert(radix16(g@) == hex_run_value(d));
                }
                return None;
            },
        }
    }
    proof {
        assert(d.take(k - start) =~= d);
    }
    Some(v)
}

/// A value read by `radix16` is below `16^len`.
pub proof fn lemma_radix16_bound(g: Seq<char>)
    ensures
        radix16(g) matches Some(v) ==> v < pow16(g.len()),
{
    let d = if g.len() > 0 && g[0] == '+' { g.drop_first() } else { g };
    lemma_hex_run_some(d);
    lemma_pow16_monotone(d.len(), g.len());
}

/// `pow16` grows with its argument.
pub proof fn lemma_pow16_monotone(a: nat, b: nat)
    requires
        a <= b,
    ensures
        pow16(a) <= pow16(b),
        pow16(8) == 0x1_0000_0000,
    decreases b,
{
    reveal_with_fuel(pow16, 9);
    if a < b {
        lemma_pow16_monotone(a, (b - 1) as nat);
    }
}


/// Executable form of [`utf8_len`].
fn utf8_len_exec(c: char) -> (n: usize)
    ensures
        n as nat == utf8_len(c),
{
    let u = c as u32;
    if u < 0x80 { 1 } else if u < 0x800 { 2 } else if u < 0x10000 { 3 } else { 4 }
}

/// `hex_bytes` grows by at most four per character.
pub proof fn lemma_hex_bytes_len(h: Seq<char>)
    ensures
        hex_bytes(h).len() <= 4 * h.len(),
    decreases h.len(),
{
    if h.len() > 0 {
        lemma_hex_bytes_len(h.drop_last());
    }
}

/// Executable form of [`hex_bytes`].
fn hex_bytes_exec(h: &[char]) -> (r: Vec<char>)
    ensures
        r@ == hex_bytes(h@),
{
    let mut r: Vec<char> = Vec::new();
    let mut i: usize = 0;
    while i < h.len()
        invariant
            i <= h@.len(),
            r@ == hex_bytes(h@.take(i as int)),
        decreases h@.len() - i,
    {
        let c = h[i];
        proof {
            assert(h@.take(i as int + 1).drop_last() =~= h@.take(i as int));
            assert(h@.take(i as int + 1).last() == c);
        }
        if (c as u32) < 0x80 {
            r.push(c);
        } else {
            let n = utf8_len_exec(c);
            let ghost before = r@;
            let mut k: usize = 0;
            while k < n
                invariant
                    k <= n,
                    n as nat == utf8_len(c),
                    r@ == before + Seq::new(k as nat, |j: int| '\u{80}'),
                decreases n - k,
            {
                r.push('\u{80}');
                proof {
                    assert(before + Seq::new((k + 1) as nat, |j: int| '\u{80}') =~= (before
                        + Seq::new(k as nat, |j: int| '\u{80}')).push('\u{80}'));
                }
                k += 1;
            }
        }
        i += 1;
    }
    proof {
        assert(h@.take(h@.len() as int) =~= h@);
    }
    r
}

/// Executable form of [`decode_groups`] from the start.
fn decode_groups_exec(b: &[char]) -> (r: Vec<char>)
    ensures
        r@ == decode_groups(b@, 0),
{
    let mut r: Vec<char> = Vec::new();
    let mut i: usize = 0;
    while i <= b.len() && b.len() - i >= 4
        invariant
            0 <= i,
            r@ + decode_groups(b@, i as int) == decode_groups(b@, 0),
        decreases b@.len() - i,
    {
        let g: [char; 4] = [b[i], b[i + 1], b[i + 2], b[i + 3]];
        proof {
            assert(g@ =~= b@.subrange(i as int, i + 4));
        }
        let ghost rest = decode_groups(b@, i + 4);
        match radix16_exec(&g) {
            Some(code) => {
                proof {
                    lemma_radix16_bound(g@);
                    reveal_with_fuel(pow16, 5);
                    assert(code < 65536);
                }
                match char_from_u32(code as u32) {
                    Some(c) => {
                        proof {
                            assert(is_scalar_code(code as nat));
                            assert(decode_groups(b@, i as int) == seq![c] + rest);
                            assert(r@.push(c) + rest =~= r@ + (seq![c] + rest));
                        }
                        r.push(c);
                    },
                    None => {
                        proof {
                            assert(!is_scalar_code(code as nat));
                            assert(decode_groups(b@, i as int) == rest);
                        }
                    },
                }
            },
            None => {
                proof {
                    assert(decode_groups(b@, i as int) == rest);
                }
            },
        }
        i += 4;
    }
    proof {
        assert(r@ + decode_groups(b@, i as int) =~= r@);
    }
    r
}

/// `hex_segment` ends at or after its start and not past the end.
pub proof fn lemma_hex_segment_bounds(s: Seq<char>, j: int)
    requires
        0 <= j <= s.len(),
    ensures
        j <= hex_segment(s, j).1 <= s.len(),
    decreases s.len() - j,
{
    if j < s.len() {
        if s[j] == '\\' {
            if j + 1 < s.len() && s[j + 1] == 'X' {
                if !(j + 2 < s.len() && s[j + 2] == '0') {
                    lemma_hex_segment_bounds(s, j + 2);
                }
            } else {
                lemma_hex_segment_bounds(s, j + 1);
            }
        } else {
            lemma_hex_segment_bounds(s, j + 1);
        }
    }
}

/// Executable form of [`hex_segment`].
fn hex_segment_exec(s: &[char], j: usize) -> (r: (Vec<char>, usize))
    requires
        j <= s@.len(),
    ensures
        r.0@ == hex_segment(s@, j as int).0,
        r.1 as int == hex_segment(s@, j as int).1,
{
    let mut h: Vec<char> = Vec::new();
    let mut k = j;
    while k < s.len()
        invariant
            j <= k <= s@.len(),
            hex_segment(s@, j as int) == (h@ + hex_segment(s@, k as int).0, hex_segment(
                s@,
                k as int,
            ).1),
        decreases s@.len() - k,
    {
        if s[k] == '\\' {
            if k + 1 < s.len() && s[k + 1] == 'X' {
                if k + 2 < s.len() && s[k + 2] == '0' {
                    let e = if s.len() - k >= 4 { k + 4 } else { s.len() };
                    proof {
                        assert(h@ + Seq::<char>::empty() =~= h@);
                    }
                    return (h, e);
                } else {
                    k = k + 2;
                }
            } else {
                k = k + 1;
            }
        } else {
            let ghost tail = hex_segment(s@, k as int + 1);
            proof {
                assert(h@.push(s@[k as int]) + tail.0 =~= h@ + (seq![s@[k as int]] + tail.0));
            }
            h.push(s[k]);
            k = k + 1;
        }
    }
    proof {
        assert(h@ + Seq::<char>::empty() =~= h@);
    }
    (h, k)
}

/// Append `d` to `r`.
fn append_chars(r: &mut Vec<char>, d: &Vec<char>)
    ensures
        final(r)@ == old(r)@ + d@,
{
    let mut k: usize = 0;
    while k < d.len()
        invariant
            k <= d@.len(),
            r@ == old(r)@ + d@.take(k as int),
        decreases d@.len() - k,
    {
        proof {
            assert(d@.take(k as int + 1) =~= d@.take(k as int).push(d@[k as int]));
        }
        r.push(d[k]);
        k += 1;
    }
    proof {
        assert(d@.take(d@.len() as int) =~= d@);
    }
}

/// Executable form of [`latin1_escape`].
fn latin1_exec(h1: char, h2: char) -> (r: Vec<char>)
    ensures
        r@ == latin1_escape(h1, h2),
{
    let pair: [char; 2] = [h1, h2];
    proof {
        assert(pair@ =~= seq![h1, h2]);
        lemma_hex_bytes_len(pair@);
    }
    let b = hex_bytes_exec(&pair);
    let mut r: Vec<char> = Vec::new();
    match radix16_exec(&b) {
        Some(v) => {
            if v < 256 {
                let byte = v as u8;
                let c = byte as char;
                r.push(c);
                proof {
                    assert(radix16(hex_bytes(seq![h1, h2])) == Some(v as nat));
                    assert(byte as nat == v as nat);
                    assert(((v as nat) as u8) == byte);
                    assert(r@ =~= seq![c]);
                }
            }
        },
        None => {},
    }
    proof {
        if r@.len() == 0 {
            assert(r@ =~= Seq::<char>::empty());
        }
    }
    r
}

/// The characters an `\X2\` escape starting at `i` stands for, and the
/// position after it.
fn x2_segment_exec(s: &[char], j: usize) -> (r: (Vec<char>, usize))
    requires
        j <= s@.len(),
    ensures
        r.0@ == decode_groups(hex_bytes(hex_segment(s@, j as int).0), 0),
        r.1 as int == hex_segment(s@, j as int).1,
        j <= r.1 <= s@.len(),
{
    let (h, e) = hex_segment_exec(s, j);
    proof {
        lemma_hex_segment_bounds(s@, j as int);
    }
    let b = hex_bytes_exec(&h);
    let d = decode_groups_exec(&b);
    (d, e)
}

/// Decode STEP escape sequences (`\X2\HHHH...\X0\` and `\X\HH`) in `s`.
/// Where a four-byte group of an `\X2\` segment would split a multi-byte
/// character, the group is dropped.
pub fn decode_step_chars(s: &[char]) -> (r: Vec<char>)
    ensures
        r@ == decode_from(s@, 0),
{
    let mut r: Vec<char> = Vec::new();
    let mut i: usize = 0;
    let n = s.len();
    while i < n
        invariant
            n == s@.len(),
            i <= n,
            r@ + decode_from(s@, i as int) == decode_from(s@, 0),
        decreases n - i,
    {
        let ghost old_r = r@;
        let ghost old_i = i as int;
        if s[i] != '\\' {
            r.push(s[i]);
            i += 1;
            proof {
                assert(old_r.push(s@[old_i]) + decode_from(s@, i as int) =~= old_r + (seq![
                    s@[old_i],
                ] + decode_from(s@, i as int)));
            }
        } else if i + 1 < n && s[i + 1] == 'X' {
            if i + 2 < n && s[i + 2] == '2' {
                if i + 3 < n && s[i + 3] == '\\' {
                    let (d, e) = x2_segment_exec(s, i + 4);
                    append_chars(&mut r, &d);
                    proof {
                        assert(decode_from(s@, old_i) == d@ + decode_from(s@, e as int));
                        assert(old_r + (d@ + decode_from(s@, e as int)) =~= old_r + d@
                            + decode_from(s@, e as int));
                    }
                    i = e;
                } else {
                    proof {
                        assert(decode_from(s@, old_i) == decode_from(s@, clamp(old_i + 4, s@.len())));
                    }
                    i = if n - i >= 4 { i + 4 } else { n };
                }
            } else if i + 2 < n && s[i + 2] == '\\' {
                let h1 = if n - i > 3 { s[i + 3] } else { '0' };
                let h2 = if n - i > 4 { s[i + 4] } else { '0' };
                let d = latin1_exec(h1, h2);
                append_chars(&mut r, &d);
                i = if n - i >= 5 { i + 5 } else { n };
                proof {
                    assert(h1 == char_or_zero(s@, old_i + 3));
                    assert(h2 == char_or_zero(s@, old_i + 4));
                    assert(i as int == clamp(old_i + 5, s@.len()));
                    assert(decode_from(s@, old_i) == d@ + decode_from(s@, i as int));
                    assert(old_r + (d@ + decode_from(s@, i as int)) =~= old_r + d@
                        + decode_from(s@, i as int));
                }
            } else {
                r.push('\\');
                r.push('X');
                i += 2;
                proof {
                    assert(old_r.push('\\').push('X') + decode_from(s@, i as int) =~= old_r + (seq![
                        '\\',
                        'X',
                    ] + decode_from(s@, i as int)));
                }
            }
        } else if i + 1 < n {
            r.push('\\');
            r.push(s[i + 1]);
            i += 2;
            proof {
                assert(old_r.push('\\').push(s@[old_i + 1]) + decode_from(s@, i as int) =~= old_r + (seq![
                    '\\',
                    s@[old_i + 1],
                ] + decode_from(s@, i as int)));
            }
        } else {
            r.push('\\');
            i += 1;
            proof {
                assert(old_r.push('\\') + decode_from(s@, n as int) =~= old_r + seq!['\\']);
            }
        }
    }
    proof {
        assert(r@ + decode_from(s@, i as int) =~= r@);
    }
    r
}


// ---------------------------------------------------------------------------
// Values
// ---------------------------------------------------------------------------

/// A STEP value in a parameter list. A real is kept as the literal that
/// was written, so that no precision is lost in reading it.
#[derive(Debug)]
pub enum StepValue {
    /// Integer value
    Integer(i64),
    /// Real value, as written
    Real(String),
    /// String value
    String(String),
    /// Entity reference (#123)
    Reference(u64),
    /// Enumeration (.VALUE.)
    Enum(String),
    /// List of values
    List(Vec<StepValue>),
    /// Omitted/unset value ($)
    Omitted,
    /// Derived value (*)
    Derived,
    /// Typed value (TYPE(...))
    Typed { type_label: String, value: Box<StepValue> },
}

/// The mathematical content of a [`StepValue`].
pub enum ValueModel {
    Integer(int),
    Real(Seq<char>),
    Str(Seq<char>),
    Reference(nat),
    Enum(Seq<char>),
    List(Seq<ValueModel>),
    Omitted,
    Derived,
    Typed(Seq<char>, Box<ValueModel>),
}

/// The contents of a sequence of values.
pub open spec fn models_of(items: Seq<StepValue>) -> Seq<ValueModel>
    decreases items,
{
    if items.len() == 0 {
        Seq::empty()
    } else {
        models_of(items.subrange(0, items.len() - 1)).push(items[items.len() - 1].model())
    }
}

impl StepValue {
    /// The content of this value.
    pub open spec fn model(self) -> ValueModel
        decreases self,
    {
        match self {
            StepValue::Integer(i) => ValueModel::Integer(i as int),
            StepValue::Real(t) => ValueModel::Real(t@),
            StepValue::String(t) => ValueModel::Str(t@),
            StepValue::Reference(r) => ValueModel::Reference(r as nat),
            StepValue::Enum(t) => ValueModel::Enum(t@),
            StepValue::List(items) => ValueModel::List(models_of(items@)),
            StepValue::Omitted => ValueModel::Omitted,
            StepValue::Derived => ValueModel::Derived,
            StepValue::Typed { type_label, value } => ValueModel::Typed(
                type_label@,
                Box::new(value.model()),
            ),
        }
    }
}


// ---------------------------------------------------------------------------
// Grammar
// ---------------------------------------------------------------------------

/// Position after the ASCII whitespace (`multispace0`) at `i`.
pub open spec fn ws(s: Seq<char>, i: int) -> int {
    multispace_end(s, i)
}

/// Position after the decimal digits at `i`.
pub open spec fn digits_end(s: Seq<char>, i: int) -> int {
    skip_while_from(s, i, |c: char| is_digit(c))
}

/// A character that may appear in an identifier: alphanumeric or `_`.
pub open spec fn is_ident_char(c: char) -> bool {
    char_is_alphanumeric(c) || c == '_'
}

/// Position after the identifier characters at `i`.
pub open spec fn ident_end(s: Seq<char>, i: int) -> int {
    skip_while_from(s, i, |c: char| is_ident_char(c))
}

/// An ASCII capital letter or `_`.
pub open spec fn is_upper_or_underscore(c: char) -> bool {
    ('A' <= c && c <= 'Z') || c == '_'
}

/// Position after the capitals and underscores at `i`.
pub open spec fn upper_end(s: Seq<char>, i: int) -> int {
    skip_while_from(s, i, |c: char| is_upper_or_underscore(c))
}

/// `skip_while_from` stays within `[start, len]` for a start inside it.
pub proof fn lemma_skip_bounds(s: Seq<char>, start: int, p: spec_fn(char) -> bool)
    requires
        0 <= start <= s.len(),
    ensures
        start <= skip_while_from(s, start, p) <= s.len(),
        skip_while_from(s, start, p) < s.len() ==> !p(s[skip_while_from(s, start, p)]),
        forall|k: int| start <= k < skip_while_from(s, start, p) ==> p(#[trigger] s[k]),
    decreases s.len() - start,
{
    if start < s.len() && p(s[start]) {
        lemma_skip_bounds(s, start + 1, p);
    }
}

/// An entity reference `#digits`; the number must fit in 64 bits.
pub open spec fn spec_entity_id(s: Seq<char>, i: int) -> Option<(nat, int)> {
    if 0 <= i < s.len() && s[i] == '#' {
        let e = digits_end(s, i + 1);
        if e > i + 1 && digits_value(s.subrange(i + 1, e)) <= u64::MAX {
            Some((digits_value(s.subrange(i + 1, e)), e))
        } else {
            None
        }
    } else {
        None
    }
}

/// A real literal: optional sign, digits, optional `.` and digits, optional
/// exponent; the literal as written and the position after it.
pub open spec fn spec_real(s: Seq<char>, i: int) -> Option<(Seq<char>, int)> {
    if i < 0 || i > s.len() {
        None
    } else {
        let a = if i < s.len() && (s[i] == '+' || s[i] == '-') { i + 1 } else { i };
        let b = digits_end(s, a);
        if b == a {
            None
        } else {
            let c = if b < s.len() && s[b] == '.' { digits_end(s, b + 1) } else { b };
            let d = if c < s.len() && (s[c] == 'e' || s[c] == 'E') {
                let m = if c + 1 < s.len() && (s[c + 1] == '+' || s[c + 1] == '-') {
                    c + 2
                } else {
                    c + 1
                };
                let m2 = digits_end(s, m);
                if m2 > m { m2 } else { c }
            } else {
                c
            };
            Some((s.subrange(i, d), d))
        }
    }
}

/// The raw characters of a quoted string from `j` (after the opening
/// quote), with `''` standing for `'`, and the position after the closing quote.
pub open spec fn string_body(s: Seq<char>, j: int) -> Option<(Seq<char>, int)>
    decreases s.len() - j,
{
    if j < 0 || j >= s.len() {
        None
    } else if s[j] == '\'' {
        if j + 1 < s.len() && s[j + 1] == '\'' {
            match string_body(s, j + 2) {
                Some((r, e)) => Some((seq!['\''] + r, e)),
                None => None,
            }
        } else {
            Some((Seq::empty(), j + 1))
        }
    } else {
        match string_body(s, j + 1) {
            Some((r, e)) => Some((seq![s[j]] + r, e)),
            None => None,
        }
    }
}

/// A quoted string literal, with its escapes decoded.
pub open spec fn spec_string_literal(s: Seq<char>, i: int) -> Option<(Seq<char>, int)> {
    if 0 <= i < s.len() && s[i] == '\'' {
        match string_body(s, i + 1) {
            Some((raw, e)) => Some((decode_from(raw, 0), e)),
            None => None,
        }
    } else {
        None
    }
}

/// An enumeration `.NAME.`.
pub open spec fn spec_enumeration(s: Seq<char>, i: int) -> Option<(Seq<char>, int)> {
    if 0 <= i < s.len() && s[i] == '.' {
        let e = ident_end(s, i + 1);
        if e > i + 1 && e < s.len() && s[e] == '.' {
            Some((s.subrange(i + 1, e), e + 1))
        } else {
            None
        }
    } else {
        None
    }
}

/// The single value of a one-element parameter list, else the list.
pub open spec fn typed_inner(vals: Seq<ValueModel>) -> ValueModel {
    if vals.len() == 1 { vals[0] } else { ValueModel::List(vals) }
}

/// A typed parameter `TYPE_NAME(values)`.
pub open spec fn spec_typed_parameter(s: Seq<char>, i: int) -> Option<(ValueModel, int)>
    decreases s.len() - i, 1int,
{
    if i < 0 || i > s.len() {
        None
    } else {
        let e = upper_end(s, i);
        if e <= i || e > s.len() {
            None
        } else {
            let a = ws(s, e);
            if a < e || a >= s.len() || s[a] != '(' {
                None
            } else {
                let b = ws(s, a + 1);
                if b <= i || b > s.len() {
                    None
                } else {
                    let (vals, c) = spec_list_items(s, b);
                    let d = ws(s, c);
                    if d < 0 || d >= s.len() || s[d] != ')' {
                        None
                    } else {
                        Some(
                            (
                                ValueModel::Typed(s.subrange(i, e), Box::new(typed_inner(vals))),
                                d + 1,
                            ),
                        )
                    }
                }
            }
        }
    }
}

/// A value, after optional whitespace.
pub open spec fn spec_value(s: Seq<char>, i: int) -> Option<(ValueModel, int)>
    decreases s.len() - i, 2int,
{
    if i < 0 || i > s.len() {
        None
    } else {
        let j = ws(s, i);
        if j < i || j >= s.len() {
            None
        } else {
            let c = s[j];
            if c == '$' {
                Some((ValueModel::Omitted, j + 1))
            } else if c == '*' {
                Some((ValueModel::Derived, j + 1))
            } else if c == '#' {
                match spec_entity_id(s, j) {
                    Some((r, e)) => Some((ValueModel::Reference(r), e)),
                    None => None,
                }
            } else if c == '.' {
                match spec_enumeration(s, j) {
                    Some((t, e)) => Some((ValueModel::Enum(t), e)),
                    None => None,
                }
            } else if c == '\'' {
                match spec_string_literal(s, j) {
                    Some((t, e)) => Some((ValueModel::Str(t), e)),
                    None => None,
                }
            } else if is_upper_or_underscore(c) {
                spec_typed_parameter(s, j)
            } else if c == '+' || c == '-' || is_digit(c) {
                match spec_real(s, j) {
                    Some((t, e)) => Some((ValueModel::Real(t), e)),
                    None => None,
                }
            } else if c == '(' {
                let b = ws(s, j + 1);
                if b <= i || b > s.len() {
                    None
                } else {
                    let (vals, e) = spec_list_items(s, b);
                    let d = ws(s, e);
                    if d < 0 || d >= s.len() || s[d] != ')' {
                        None
                    } else {
                        Some((ValueModel::List(vals), d + 1))
                    }
                }
            } else {
                None
            }
        }
    }
}

/// A comma-separated list of values (possibly empty), and the position
/// after its last value.
pub open spec fn spec_list_items(s: Seq<char>, i: int) -> (Seq<ValueModel>, int)
    decreases s.len() - i, 3int,
{
    if i < 0 || i > s.len() {
        (Seq::empty(), i)
    } else {
        match spec_value(s, i) {
            Some((v, p)) => if i < p && p <= s.len() {
                let (rest, q) = spec_list_tail(s, p);
                (seq![v] + rest, q)
            } else {
                (Seq::empty(), i)
            },
            None => (Seq::empty(), i),
        }
    }
}

/// The further `, value` items of a list from `p` on.
pub open spec fn spec_list_tail(s: Seq<char>, p: int) -> (Seq<ValueModel>, int)
    decreases s.len() - p, 0int,
{
    if p < 0 || p > s.len() {
        (Seq::empty(), p)
    } else {
        let a = ws(s, p);
        if p <= a && a < s.len() && s[a] == ',' {
            let b = ws(s, a + 1);
            if b <= p || b > s.len() {
                (Seq::empty(), p)
            } else {
                match spec_value(s, b) {
                    Some((v, c)) => if b < c && c <= s.len() {
                        let (rest, q) = spec_list_tail(s, c);
                        (seq![v] + rest, q)
                    } else {
                        (Seq::empty(), p)
                    },
                    None => (Seq::empty(), p),
                }
            }
        } else {
            (Seq::empty(), p)
        }
    }
}


// ---------------------------------------------------------------------------
// Parser
// ---------------------------------------------------------------------------

/// Executable form of [`ws`].
fn ws_exec(s: &[char], i: usize) -> (r: usize)
    requires
        i <= s@.len(),
    ensures
        r as int == ws(s@, i as int),
        i <= r <= s@.len(),
{
    skip_multispace(s, i)
}

/// Executable form of [`digits_end`].
pub fn digits_end_exec(s: &[char], i: usize) -> (r: usize)
    requires
        i <= s@.len(),
    ensures
        r as int == digits_end(s@, i as int),
        i <= r <= s@.len(),
{
    let mut k = i;
    while k < s.len() && '0' <= s[k] && s[k] <= '9'
        invariant
            i <= k <= s@.len(),
            digits_end(s@, i as int) == skip_while_from(s@, k as int, |c: char| is_digit(c)),
        decreases s@.len() - k,
    {
        k += 1;
    }
    k
}

/// Executable form of [`ident_end`].
fn ident_end_exec(s: &[char], i: usize) -> (r: usize)
    requires
        i <= s@.len(),
    ensures
        r as int == ident_end(s@, i as int),
        i <= r <= s@.len(),
{
    let mut k = i;
    while k < s.len() && (is_alphanumeric(s[k]) || s[k] == '_')
        invariant
            i <= k <= s@.len(),
            ident_end(s@, i as int) == skip_while_from(s@, k as int, |c: char| is_ident_char(c)),
        decreases s@.len() - k,
    {
        k += 1;
    }
    k
}

/// Executable form of [`upper_end`].
fn upper_end_exec(s: &[char], i: usize) -> (r: usize)
    requires
        i <= s@.len(),
    ensures
        r as int == upper_end(s@, i as int),
        i <= r <= s@.len(),
{
    let mut k = i;
    while k < s.len() && (('A' <= s[k] && s[k] <= 'Z') || s[k] == '_')
        invariant
            i <= k <= s@.len(),
            upper_end(s@, i as int) == skip_while_from(
                s@,
                k as int,
                |c: char| is_upper_or_underscore(c),
            ),
        decreases s@.len() - k,
    {
        k += 1;
    }
    k
}

/// The characters of `s` from `a` to `b`.
pub fn chars_range(s: &[char], a: usize, b: usize) -> (r: Vec<char>)
    requires
        a <= b <= s@.len(),
    ensures
        r@ == s@.subrange(a as int, b as int),
{
    let mut r: Vec<char> = Vec::new();
    let mut k = a;
    while k < b
        invariant
            a <= k <= b <= s@.len(),
            r@ == s@.subrange(a as int, k as int),
        decreases b - k,
    {
        r.push(s[k]);
        proof {
            assert(s@.subrange(a as int, k + 1) =~= s@.subrange(a as int, k as int).push(s@[k as int]));
        }
        k += 1;
    }
    r
}

/// Digit values grow along prefixes of a run of digits.
proof fn lemma_digits_monotone(d: Seq<char>, k: int)
    requires
        0 <= k <= d.len(),
        forall|j: int| 0 <= j < d.len() ==> is_digit(#[trigger] d[j]),
    ensures
        digits_value(d.take(k)) <= digits_value(d),
    decreases d.len() - k,
{
    if k < d.len() {
        assert(d.drop_last().take(k) =~= d.take(k));
        assert forall|j: int| 0 <= j < d.drop_last().len() implies is_digit(#[trigger] d.drop_last()[j]) by {
            assert(d.drop_last()[j] == d[j]);
        }
        lemma_digits_monotone(d.drop_last(), k);
        assert(is_digit(d.last()));
        assert(digits_value(d) == digits_value(d.drop_last()) * 10 + ((d.last() as u32 - '0' as u32) as nat));
    } else {
        assert(d.take(k) =~= d);
    }
}

/// The value of the digits from `a` to `b`, if it fits in 64 bits.
pub fn digits_u64(s: &[char], a: usize, b: usize) -> (r: Option<u64>)
    requires
        a <= b <= s@.len(),
        forall|j: int| a <= j < b ==> is_digit(#[trigger] s@[j]),
    ensures
        r is Some <==> digits_value(s@.subrange(a as int, b as int)) <= u64::MAX,
        r matches Some(v) ==> v as nat == digits_value(s@.subrange(a as int, b as int)),
{
    let ghost d = s@.subrange(a as int, b as int);
    let mut v: u64 = 0;
    let mut k = a;
    while k < b
        invariant
            a <= k <= b <= s@.len(),
            d == s@.subrange(a as int, b as int),
            forall|j: int| a <= j < b ==> is_digit(#[trigger] s@[j]),
            v as nat == digits_value(d.take(k - a)),
        decreases b - k,
    {
        let x = (s[k] as u32 - '0' as u32) as u64;
        proof {
            assert(is_digit(s@[k as int]));
            assert(d.take(k - a + 1).drop_last() =~= d.take(k - a));
            assert(d.take(k - a + 1).last() == s@[k as int]);
        }
        if v > (u64::MAX - x) / 10 {
            proof {
                assert forall|j: int| 0 <= j < d.len() implies is_digit(#[trigger] d[j]) by {
                    assert(d[j] == s@[a + j]);
                }
                lemma_digits_monotone(d, k - a + 1);
            }
            return None;
        }
        v = v * 10 + x;
        k += 1;
    }
    proof {
        assert(d.take(k - a) =~= d);
    }
    Some(v)
}

/// Parse an entity reference `#digits` at `i`.
fn entity_id_at(s: &[char], i: usize) -> (r: Option<(u64, usize)>)
    requires
        i <= s@.len(),
    ensures
        match spec_entity_id(s@, i as int) {
            Some((v, e)) => r == Some((v as u64, e as usize)) && i < e <= s@.len(),
            None => r is None,
        },
{
    if i < s.len() && s[i] == '#' {
        let e = digits_end_exec(s, i + 1);
        if e > i + 1 {
            proof {
                lemma_skip_bounds(s@, i + 1, |c: char| is_digit(c));
            }
            match digits_u64(s, i + 1, e) {
                Some(v) => Some((v, e)),
                None => None,
            }
        } else {
            None
        }
    } else {
        None
    }
}

/// Parse a real literal at `i`.
fn real_at(s: &[char], i: usize) -> (r: Option<(String, usize)>)
    requires
        i <= s@.len(),
    ensures
        match spec_real(s@, i as int) {
            Some((t, e)) => r matches Some((rt, re)) && rt@ == t && re as int == e && i < e <= s@.len(),
            None => r is None,
        },
{
    let n = s.len();
    let a = if i < n && (s[i] == '+' || s[i] == '-') { i + 1 } else { i };
    let b = digits_end_exec(s, a);
    if b == a {
        return None;
    }
    let c = if b < n && s[b] == '.' { digits_end_exec(s, b + 1) } else { b };
    let d = if c < n && (s[c] == 'e' || s[c] == 'E') {
        let m = if c + 1 < n && (s[c + 1] == '+' || s[c + 1] == '-') { c + 2 } else { c + 1 };
        let m2 = digits_end_exec(s, m);
        if m2 > m { m2 } else { c }
    } else {
        c
    };
    let t = chars_range(s, i, d);
    Some((string_from_chars(&t), d))
}

/// Parse the body of a quoted string from `j`, after its opening quote.
fn string_body_at(s: &[char], j: usize) -> (r: Option<(Vec<char>, usize)>)
    requires
        j <= s@.len(),
    ensures
        match string_body(s@, j as int) {
            Some((t, e)) => r matches Some((rt, re)) && rt@ == t && re as int == e && j < e <= s@.len(),
            None => r is None,
        },
{
    let mut raw: Vec<char> = Vec::new();
    let mut k = j;
    let n = s.len();
    while k < n
        invariant
            n == s@.len(),
            j <= k <= n,
            match string_body(s@, j as int) {
                Some((t, e)) => string_body(s@, k as int) matches Some((t2, e2)) && t == raw@ + t2
                    && e == e2,
                None => string_body(s@, k as int) is None,
            },
        decreases n - k,
    {
        proof {
            lemma_string_body_bounds(s@, k as int);
        }
        if s[k] == '\'' {
            if k + 1 < n && s[k + 1] == '\'' {
                proof {
                    lemma_string_body_bounds(s@, k + 2);
                    if let Some((t2, e2)) = string_body(s@, k + 2) {
                        assert(raw@.push('\'') + t2 =~= raw@ + (seq!['\''] + t2));
                    }
                }
                raw.push('\'');
                k = k + 2;
            } else {
                proof {
                    assert(raw@ + Seq::<char>::empty() =~= raw@);
                }
                return Some((raw, k + 1));
            }
        } else {
            proof {
                lemma_string_body_bounds(s@, k + 1);
                if let Some((t2, e2)) = string_body(s@, k + 1) {
                    assert(raw@.push(s@[k as int]) + t2 =~= raw@ + (seq![s@[k as int]] + t2));
                }
            }
            raw.push(s[k]);
            k = k + 1;
        }
    }
    None
}

/// `string_body` ends after its start and within the text.
proof fn lemma_string_body_bounds(s: Seq<char>, j: int)
    ensures
        string_body(s, j) matches Some((t, e)) ==> j < e <= s.len(),
    decreases s.len() - j,
{
    if 0 <= j < s.len() {
        if s[j] == '\'' {
            if j + 1 < s.len() && s[j + 1] == '\'' {
                lemma_string_body_bounds(s, j + 2);
            }
        } else {
            lemma_string_body_bounds(s, j + 1);
        }
    }
}

/// Parse a quoted string literal at `i`.
fn string_literal_at(s: &[char], i: usize) -> (r: Option<(String, usize)>)
    requires
        i <= s@.len(),
    ensures
        match spec_string_literal(s@, i as int) {
            Some((t, e)) => r matches Some((rt, re)) && rt@ == t && re as int == e && i < e <= s@.len(),
            None => r is None,
        },
{
    if i < s.len() && s[i] == '\'' {
        match string_body_at(s, i + 1) {
            Some((raw, e)) => {
                let d = decode_step_chars(&raw);
                Some((string_from_chars(&d), e))
            },
            None => None,
        }
    } else {
        None
    }
}

/// Parse an enumeration `.NAME.` at `i`.
fn enumeration_at(s: &[char], i: usize) -> (r: Option<(String, usize)>)
    requires
        i <= s@.len(),
    ensures
        match spec_enumeration(s@, i as int) {
            Some((t, e)) => r matches Some((rt, re)) && rt@ == t && re as int == e && i < e <= s@.len(),
            None => r is None,
        },
{
    if i < s.len() && s[i] == '.' {
        let e = ident_end_exec(s, i + 1);
        if e > i + 1 && e < s.len() && s[e] == '.' {
            let t = chars_range(s, i + 1, e);
            Some((string_from_chars(&t), e + 1))
        } else {
            None
        }
    } else {
        None
    }
}


/// `models_of` keeps lengths and positions.
pub proof fn lemma_models_of(v: Seq<StepValue>)
    ensures
        models_of(v).len() == v.len(),
        forall|k: int| 0 <= k < v.len() ==> #[trigger] models_of(v)[k] == v[k].model(),
    decreases v.len(),
{
    if v.len() > 0 {
        let w = v.subrange(0, v.len() - 1);
        lemma_models_of(w);
        assert forall|k: int| 0 <= k < v.len() implies #[trigger] models_of(v)[k] == v[k].model() by {
            if k < v.len() - 1 {
                assert(models_of(w)[k] == w[k].model());
            }
        }
    }
}

/// The contents of a sequence grown by one value.
pub proof fn lemma_models_of_push(v: Seq<StepValue>, x: StepValue)
    ensures
        models_of(v.push(x)) == models_of(v).push(x.model()),
{
    assert(v.push(x).subrange(0, v.len() as int) =~= v);
}

/// Parse a typed parameter `TYPE_NAME(values)` at `i`.
fn typed_parameter_at(s: &[char], i: usize) -> (r: Option<(StepValue, usize)>)
    requires
        i <= s@.len(),
    ensures
        match spec_typed_parameter(s@, i as int) {
            Some((m, e)) => r matches Some((v, re)) && v.model() == m && re as int == e && i < e
                <= s@.len(),
            None => r is None,
        },
    decreases s@.len() - i, 1int,
{
    let n = s.len();
    let e = upper_end_exec(s, i);
    if e <= i {
        return None;
    }
    let a = ws_exec(s, e);
    if a >= n || s[a] != '(' {
        return None;
    }
    let b = ws_exec(s, a + 1);
    let (vals, c) = list_items_at(s, b);
    let d = ws_exec(s, c);
    if d >= n || s[d] != ')' {
        return None;
    }
    let name = chars_range(s, i, e);
    let type_label = string_from_chars(&name);
    let mut vals = vals;
    proof {
        lemma_models_of(vals@);
    }
    let inner = if vals.len() == 1 {
        let ghost first = vals@[0];
        let x = vals.pop().unwrap();
        proof {
            assert(x == first);
        }
        x
    } else {
        StepValue::List(vals)
    };
    proof {
        assert(type_label@ == s@.subrange(i as int, e as int));
        assert(inner.model() == typed_inner(spec_list_items(s@, b as int).0));
        assert(spec_typed_parameter(s@, i as int) == Some((ValueModel::Typed(s@.subrange(i as int, e as int), Box::new(typed_inner(spec_list_items(s@, b as int).0))), d + 1)));
    }
    Some((StepValue::Typed { type_label, value: Box::new(inner) }, d + 1))
}

/// Parse a value, after optional whitespace, at `i`.
fn value_at(s: &[char], i: usize) -> (r: Option<(StepValue, usize)>)
    requires
        i <= s@.len(),
    ensures
        match spec_value(s@, i as int) {
            Some((m, e)) => r matches Some((v, re)) && v.model() == m && re as int == e && i < e
                <= s@.len(),
            None => r is None,
        },
    decreases s@.len() - i, 2int,
{
    let n = s.len();
    let j = ws_exec(s, i);
    if j >= n {
        return None;
    }
    let c = s[j];
    if c == '$' {
        Some((StepValue::Omitted, j + 1))
    } else if c == '*' {
        Some((StepValue::Derived, j + 1))
    } else if c == '#' {
        match entity_id_at(s, j) {
            Some((r, e)) => Some((StepValue::Reference(r), e)),
            None => None,
        }
    } else if c == '.' {
        match enumeration_at(s, j) {
            Some((t, e)) => Some((StepValue::Enum(t), e)),
            None => None,
        }
    } else if c == '\'' {
        match string_literal_at(s, j) {
            Some((t, e)) => Some((StepValue::String(t), e)),
            None => None,
        }
    } else if ('A' <= c && c <= 'Z') || c == '_' {
        typed_parameter_at(s, j)
    } else if c == '+' || c == '-' || ('0' <= c && c <= '9') {
        match real_at(s, j) {
            Some((t, e)) => Some((StepValue::Real(t), e)),
            None => None,
        }
    } else if c == '(' {
        let b = ws_exec(s, j + 1);
        let (vals, e) = list_items_at(s, b);
        let d = ws_exec(s, e);
        if d >= n || s[d] != ')' {
            None
        } else {
            Some((StepValue::List(vals), d + 1))
        }
    } else {
        None
    }
}

/// Parse a comma-separated list of values (possibly empty) at `i`; gives
/// the values and the position after the last one.
fn list_items_at(s: &[char], i: usize) -> (r: (Vec<StepValue>, usize))
    requires
        i <= s@.len(),
    ensures
        models_of(r.0@) == spec_list_items(s@, i as int).0,
        r.1 as int == spec_list_items(s@, i as int).1,
        i <= r.1 <= s@.len(),
    decreases s@.len() - i, 3int,
{
    let n = s.len();
    let mut items: Vec<StepValue> = Vec::new();
    let first = value_at(s, i);
    match first {
        None => {
            proof {
                assert(models_of(items@) =~= Seq::<ValueModel>::empty());
            }
            return (items, i);
        },
        Some((v, p)) => {
            proof {
                lemma_models_of_push(items@, v);
                assert(models_of(Seq::<StepValue>::empty()) =~= Seq::<ValueModel>::empty());
            }
            items.push(v);
            let mut pos = p;
            while pos < n
                invariant
                    n == s@.len(),
                    i < pos <= n,
                    spec_list_items(s@, i as int) == (models_of(items@) + spec_list_tail(s@, pos as int).0,
                        spec_list_tail(s@, pos as int).1),
                ensures
                    i < pos <= n,
                    spec_list_items(s@, i as int) == (models_of(items@) + spec_list_tail(s@, pos as int).0,
                        spec_list_tail(s@, pos as int).1),
                    spec_list_tail(s@, pos as int) == (Seq::<ValueModel>::empty(), pos as int),
                decreases n - pos,
            {
                let a = ws_exec(s, pos);
                if a < n && s[a] == ',' {
                    let b = ws_exec(s, a + 1);
                    match value_at(s, b) {
                        Some((w, c)) => {
                            let ghost tail = spec_list_tail(s@, c as int);
                            proof {
                                lemma_models_of_push(items@, w);
                                assert(models_of(items@).push(w.model()) + tail.0 =~= models_of(items@)
                                    + (seq![w.model()] + tail.0));
                            }
                            items.push(w);
                            pos = c;
                        },
                        None => {
                            break;
                        },
                    }
                } else {
                    break;
                }
            }
            proof {
                assert(models_of(items@) + Seq::<ValueModel>::empty() =~= models_of(items@));
            }
            (items, pos)
        },
    }
}


// ---------------------------------------------------------------------------
// Entity instances
// ---------------------------------------------------------------------------

/// A STEP entity instance.
#[derive(Debug)]
pub struct EntityInstance {
    /// Entity ID (e.g., #123)
    pub id: u64,
    /// Entity type name (e.g., "CARTESIAN_POINT")
    pub type_label: String,
    /// Entity parameters
    pub params: Vec<StepValue>,
}

/// The content of an entity instance.
pub struct EntityModel {
    pub id: nat,
    pub type_label: Seq<char>,
    pub params: Seq<ValueModel>,
}

impl EntityInstance {
    /// The content of this instance.
    pub open spec fn model(self) -> EntityModel {
        EntityModel { id: self.id as nat, type_label: self.type_label@, params: models_of(self.params@) }
    }
}

/// The contents of a sequence of instances.
pub open spec fn entity_models(v: Seq<EntityInstance>) -> Seq<EntityModel> {
    v.map_values(|e: EntityInstance| e.model())
}

/// A single typed value `NAME ( values )` after optional whitespace: the
/// name in capitals, the values, and the position after `)`.
pub open spec fn spec_typed_value(s: Seq<char>, i: int) -> Option<(Seq<char>, Seq<ValueModel>, int)> {
    if i < 0 || i > s.len() {
        None
    } else {
        let a = ws(s, i);
        let e = ident_end(s, a);
        if e <= a {
            None
        } else {
            let b = ws(s, e);
            if b >= s.len() || s[b] != '(' {
                None
            } else {
                let c = ws(s, b + 1);
                let (vals, d) = spec_list_items(s, c);
                let f = ws(s, d);
                if f >= s.len() || s[f] != ')' {
                    None
                } else {
                    Some((str_to_uppercase(s.subrange(a, e)), vals, f + 1))
                }
            }
        }
    }
}

/// As many typed values as follow one another from `i`.
pub open spec fn spec_typed_values(s: Seq<char>, i: int) -> (Seq<(Seq<char>, Seq<ValueModel>)>, int)
    decreases s.len() - i,
{
    if i < 0 || i > s.len() {
        (Seq::empty(), i)
    } else {
        match spec_typed_value(s, i) {
            Some((t, ps, e)) => if i < e && e <= s.len() {
                let (rest, q) = spec_typed_values(s, e);
                (seq![(t, ps)] + rest, q)
            } else {
                (Seq::empty(), i)
            },
            None => (Seq::empty(), i),
        }
    }
}

/// All the values of a sequence of typed values, in order.
pub open spec fn concat_params(tvs: Seq<(Seq<char>, Seq<ValueModel>)>) -> Seq<ValueModel>
    decreases tvs.len(),
{
    if tvs.len() == 0 {
        Seq::empty()
    } else {
        concat_params(tvs.drop_last()) + tvs.last().1
    }
}

/// The type name given to a complex instance without parts.
pub open spec fn complex_label() -> Seq<char> {
    seq!['C', 'O', 'M', 'P', 'L', 'E', 'X']
}

/// The type name, parameters and end position of the body of an instance
/// at `d` (after `=`): a simple `NAME(values)`, or a complex
/// `( NAME(values) NAME(values) ... )` whose first name is taken and
/// whose values are joined.
pub open spec fn spec_instance_body(s: Seq<char>, d: int) -> Option<(Seq<char>, Seq<ValueModel>, int)> {
    if 0 <= d < s.len() && s[d] == '(' {
        let f = ws(s, d + 1);
        let (tvs, g) = spec_typed_values(s, f);
        let h = ws(s, g);
        if 0 <= h < s.len() && s[h] == ')' {
            Some((
                if tvs.len() > 0 { tvs[0].0 } else { complex_label() },
                concat_params(tvs),
                h + 1,
            ))
        } else {
            None
        }
    } else {
        spec_typed_value(s, d)
    }
}

/// An entity instance `#id = body ;` after optional whitespace.
pub open spec fn spec_entity_instance(s: Seq<char>, i: int) -> Option<(EntityModel, int)> {
    if i < 0 || i > s.len() {
        None
    } else {
        let a = ws(s, i);
        match spec_entity_id(s, a) {
            None => None,
            Some((id, b)) => {
                let c = ws(s, b);
                if c >= s.len() || s[c] != '=' {
                    None
                } else {
                    let d = ws(s, c + 1);
                    match spec_instance_body(s, d) {
                        None => None,
                        Some((t, ps, e)) => {
                            let f = ws(s, e);
                            if 0 <= f < s.len() && s[f] == ';' {
                                Some((EntityModel { id, type_label: t, params: ps }, f + 1))
                            } else {
                                None
                            }
                        },
                    }
                }
            },
        }
    }
}

/// As many instances (each followed by optional whitespace) as follow one
/// another from `i`.
pub open spec fn spec_entities(s: Seq<char>, i: int) -> (Seq<EntityModel>, int)
    decreases s.len() - i,
{
    if i < 0 || i > s.len() {
        (Seq::empty(), i)
    } else {
        match spec_entity_instance(s, i) {
            Some((e, p)) => if i < p && p <= ws(s, p) && ws(s, p) <= s.len() {
                let (rest, q) = spec_entities(s, ws(s, p));
                (seq![e] + rest, q)
            } else {
                (Seq::empty(), i)
            },
            None => (Seq::empty(), i),
        }
    }
}

/// `DATA;`
pub open spec fn data_mark() -> Seq<char> {
    seq!['D', 'A', 'T', 'A', ';']
}

/// `ENDSEC;`
pub open spec fn endsec_mark() -> Seq<char> {
    seq!['E', 'N', 'D', 'S', 'E', 'C', ';']
}

/// `k` is the first position where `needle` occurs in `s`.
pub open spec fn is_first_occurrence(s: Seq<char>, needle: Seq<char>, k: int) -> bool {
    0 <= k && occurs_at(s, needle, k) && forall|j: int| 0 <= j < k ==> !occurs_at(s, needle, j)
}

/// The DATA section: the instances after the first `DATA;`, which must be
/// followed by `ENDSEC;`; and the position after `ENDSEC;`.
pub open spec fn spec_data_section(s: Seq<char>) -> Option<(Seq<EntityModel>, int)> {
    if exists|k: int| is_first_occurrence(s, data_mark(), k) {
        let k = choose|k: int| is_first_occurrence(s, data_mark(), k);
        let (ents, b) = spec_entities(s, ws(s, k + 5));
        if occurs_at(s, endsec_mark(), b) {
            Some((ents, b + 7))
        } else {
            None
        }
    } else {
        None
    }
}

/// The contents of two sequences of values, joined.
pub proof fn lemma_models_of_append(a: Seq<StepValue>, b: Seq<StepValue>)
    ensures
        models_of(a + b) == models_of(a) + models_of(b),
    decreases b.len(),
{
    if b.len() == 0 {
        assert(a + b =~= a);
        assert(models_of(a) + models_of(b) =~= models_of(a));
    } else {
        let b2 = b.subrange(0, b.len() - 1);
        lemma_models_of_append(a, b2);
        assert((a + b).subrange(0, (a + b).len() - 1) =~= a + b2);
        assert(models_of(a) + models_of(b) =~= (models_of(a) + models_of(b2)).push(
            b[b.len() - 1].model(),
        ));
    }
}

/// Parse a typed value `NAME ( values )` at `i`.
fn typed_value_at(s: &[char], i: usize) -> (r: Option<(String, Vec<StepValue>, usize)>)
    requires
        i <= s@.len(),
    ensures
        match spec_typed_value(s@, i as int) {
            Some((t, ps, e)) => r matches Some((rt, rps, re)) && rt@ == t && models_of(rps@) == ps
                && re as int == e && i < e <= s@.len(),
            None => r is None,
        },
{
    let n = s.len();
    let a = ws_exec(s, i);
    let e = ident_end_exec(s, a);
    if e <= a {
        return None;
    }
    let b = ws_exec(s, e);
    if b >= n || s[b] != '(' {
        return None;
    }
    let c = ws_exec(s, b + 1);
    let (vals, d) = list_items_at(s, c);
    let f = ws_exec(s, d);
    if f >= n || s[f] != ')' {
        return None;
    }
    let name = chars_range(s, a, e);
    let name_str = string_from_chars(&name);
    let upper = to_uppercase(name_str.as_str());
    Some((upper, vals, f + 1))
}

/// Parse the body of an instance at `d`, after its `=`.
fn instance_body_at(s: &[char], d: usize) -> (r: Option<(String, Vec<StepValue>, usize)>)
    requires
        d <= s@.len(),
    ensures
        match spec_instance_body(s@, d as int) {
            Some((t, ps, e)) => r matches Some((rt, rps, re)) && rt@ == t && models_of(rps@) == ps
                && re as int == e && d < e <= s@.len(),
            None => r is None,
        },
{
    let n = s.len();
    if d < n && s[d] == '(' {
        let f = ws_exec(s, d + 1);
        let mut first: Option<String> = None;
        let mut params: Vec<StepValue> = Vec::new();
        let ghost mut tvs: Seq<(Seq<char>, Seq<ValueModel>)> = Seq::empty();
        let mut pos = f;
        proof {
            assert(models_of(params@) =~= Seq::<ValueModel>::empty());
        }
        loop
            invariant
                n == s@.len(),
                f <= pos <= n,
                spec_typed_values(s@, f as int) == (tvs + spec_typed_values(s@, pos as int).0,
                    spec_typed_values(s@, pos as int).1),
                models_of(params@) == concat_params(tvs),
                first is Some <==> tvs.len() > 0,
                first matches Some(t) ==> t@ == tvs[0].0,
            ensures
                f <= pos <= n,
                spec_typed_values(s@, f as int) == (tvs, pos as int),
                models_of(params@) == concat_params(tvs),
                first is Some <==> tvs.len() > 0,
                first matches Some(t) ==> t@ == tvs[0].0,
            decreases n - pos,
        {
            match typed_value_at(s, pos) {
                Some((t, ps, e)) => {
                    let ghost item = (t@, models_of(ps@));
                    let ghost rest = spec_typed_values(s@, e as int);
                    proof {
                        assert(tvs + (seq![item] + rest.0) =~= tvs.push(item) + rest.0);
                        assert(tvs.push(item).drop_last() =~= tvs);
                        lemma_models_of_append(params@, ps@);
                    }
                    let mut ps = ps;
                    params.append(&mut ps);
                    if first.is_none() {
                        first = Some(t);
                    }
                    proof {
                        tvs = tvs.push(item);
                    }
                    pos = e;
                },
                None => {
                    proof {
                        assert(tvs + Seq::<(Seq<char>, Seq<ValueModel>)>::empty() =~= tvs);
                    }
                    break;
                },
            }
        }
        let h = ws_exec(s, pos);
        if h < n && s[h] == ')' {
            let label = match first {
                Some(t) => t,
                None => {
                    let c: [char; 7] = ['C', 'O', 'M', 'P', 'L', 'E', 'X'];
                    proof {
                        assert(c@ =~= complex_label());
                    }
                    string_from_chars(&c)
                },
            };
            Some((label, params, h + 1))
        } else {
            None
        }
    } else {
        typed_value_at(s, d)
    }
}

/// Parse an entity instance `#id = body ;` at `i`.
fn entity_instance_at(s: &[char], i: usize) -> (r: Option<(EntityInstance, usize)>)
    requires
        i <= s@.len(),
    ensures
        match spec_entity_instance(s@, i as int) {
            Some((m, e)) => r matches Some((v, re)) && v.model() == m && re as int == e && i < e
                <= s@.len(),
            None => r is None,
        },
{
    let n = s.len();
    let a = ws_exec(s, i);
    match entity_id_at(s, a) {
        None => None,
        Some((id, b)) => {
            let c = ws_exec(s, b);
            if c >= n || s[c] != '=' {
                return None;
            }
            let d = ws_exec(s, c + 1);
            match instance_body_at(s, d) {
                None => None,
                Some((type_label, params, e)) => {
                    let f = ws_exec(s, e);
                    if f < n && s[f] == ';' {
                        Some((EntityInstance { id, type_label, params }, f + 1))
                    } else {
                        None
                    }
                },
            }
        },
    }
}

/// Parse the DATA section of a STEP file: the instances after the first
/// `DATA;`, up to the `ENDSEC;` that must follow them. Gives the instances
/// and the character position after `ENDSEC;`.
pub fn parse_data_section_chars(s: &[char]) -> (r: Option<(Vec<EntityInstance>, usize)>)
    ensures
        match spec_data_section(s@) {
            Some((ents, e)) => r matches Some((v, re)) && entity_models(v@) == ents && re as int
                == e,
            None => r is None,
        },
{
    let n = s.len();
    let mark: [char; 5] = ['D', 'A', 'T', 'A', ';'];
    proof {
        assert(mark@ =~= data_mark());
    }
    let k = match find_from(s, &mark, 0) {
        Some(k) => k,
        None => {
            proof {
                assert(!exists|k: int| is_first_occurrence(s@, data_mark(), k));
            }
            return None;
        },
    };
    proof {
        assert(is_first_occurrence(s@, data_mark(), k as int));
        let k2 = choose|k: int| is_first_occurrence(s@, data_mark(), k);
        if k2 < k {
            assert(occurs_at(s@, data_mark(), k2));
        } else if k2 > k {
            assert(!occurs_at(s@, data_mark(), k as int));
        }
        assert(k2 == k);
    }
    let start = ws_exec(s, k + 5);
    let mut entities: Vec<EntityInstance> = Vec::new();
    let mut pos = start;
    loop
        invariant
            n == s@.len(),
            start <= pos <= n,
            spec_entities(s@, start as int) == (entity_models(entities@) + spec_entities(
                s@,
                pos as int,
            ).0, spec_entities(s@, pos as int).1),
        ensures
            start <= pos <= n,
            spec_entities(s@, start as int) == (entity_models(entities@), pos as int),
        decreases n - pos,
    {
        match entity_instance_at(s, pos) {
            Some((ent, p)) => {
                let q = ws_exec(s, p);
                let ghost rest = spec_entities(s@, q as int);
                proof {
                    assert(entity_models(entities@.push(ent)) =~= entity_models(entities@).push(
                        ent.model(),
                    ));
                    assert(entity_models(entities@) + (seq![ent.model()] + rest.0) =~= entity_models(
                        entities@,
                    ).push(ent.model()) + rest.0);
                }
                entities.push(ent);
                pos = q;
            },
            None => {
                proof {
                    assert(entity_models(entities@) + Seq::<EntityModel>::empty() =~= entity_models(
                        entities@,
                    ));
                }
                break;
            },
        }
    }
    let end: [char; 7] = ['E', 'N', 'D', 'S', 'E', 'C', ';'];
    proof {
        assert(end@ =~= endsec_mark());
    }
    if occurs_at_exec(s, &end, pos) {
        Some((entities, pos + 7))
    } else {
        None
    }
}

/// Parse the DATA section of STEP text; see [`parse_data_section_chars`].
pub fn parse_data_section(input: &str) -> (r: Option<(Vec<EntityInstance>, usize)>)
    ensures
        match spec_data_section(input@) {
            Some((ents, e)) => r matches Some((v, re)) && entity_models(v@) == ents && re as int
                == e,
            None => r is None,
        },
{
    let s = chars_of(input);
    parse_data_section_chars(&s)
}


// ---------------------------------------------------------------------------
// Entry points on text
// ---------------------------------------------------------------------------

/// Parse an entity reference `#digits` at the start of `input`: the number
/// and the character position after it.
pub fn entity_id(input: &str) -> (r: Option<(u64, usize)>)
    ensures
        match spec_entity_id(input@, 0) {
            Some((v, e)) => r == Some((v as u64, e as usize)),
            None => r is None,
        },
{
    let s = chars_of(input);
    entity_id_at(&s, 0)
}

/// Parse a real literal at the start of `input`: the literal as written
/// and the character position after it.
pub fn real_literal(input: &str) -> (r: Option<(String, usize)>)
    ensures
        match spec_real(input@, 0) {
            Some((t, e)) => r matches Some((rt, re)) && rt@ == t && re as int == e,
            None => r is None,
        },
{
    let s = chars_of(input);
    real_at(&s, 0)
}

/// Parse a quoted string literal at the start of `input`: the decoded text
/// and the character position after the closing quote.
pub fn string_literal(input: &str) -> (r: Option<(String, usize)>)
    ensures
        match spec_string_literal(input@, 0) {
            Some((t, e)) => r matches Some((rt, re)) && rt@ == t && re as int == e,
            None => r is None,
        },
{
    let s = chars_of(input);
    string_literal_at(&s, 0)
}

/// Parse an enumeration `.NAME.` at the start of `input`.
pub fn enumeration(input: &str) -> (r: Option<(String, usize)>)
    ensures
        match spec_enumeration(input@, 0) {
            Some((t, e)) => r matches Some((rt, re)) && rt@ == t && re as int == e,
            None => r is None,
        },
{
    let s = chars_of(input);
    enumeration_at(&s, 0)
}

/// Parse one value (after optional whitespace) at the start of `input`.
pub fn step_value(input: &str) -> (r: Option<(StepValue, usize)>)
    ensures
        match spec_value(input@, 0) {
            Some((m, e)) => r matches Some((v, re)) && v.model() == m && re as int == e,
            None => r is None,
        },
{
    let s = chars_of(input);
    value_at(&s, 0)
}

/// Parse an entity instance line (simple or complex) at the start of `input`.
pub fn entity_instance(input: &str) -> (r: Option<(EntityInstance, usize)>)
    ensures
        match spec_entity_instance(input@, 0) {
            Some((m, e)) => r matches Some((v, re)) && v.model() == m && re as int == e,
            None => r is None,
        },
{
    let s = chars_of(input);
    entity_instance_at(&s, 0)
}

/// No backslash in `t` is followed by `X`, the letter that opens STEP's
/// `\X\` and `\X2\` escapes.
pub open spec fn no_hex_escape(t: Seq<char>) -> bool {
    forall|k: int| 0 <= k && k + 1 < t.len() && #[trigger] t[k] == '\\' ==> t[k + 1] != 'X'
}

/// Text in which no backslash is followed by `X` decodes to itself.
pub proof fn lemma_decode_plain(t: Seq<char>, i: int)
    requires
        0 <= i <= t.len(),
        no_hex_escape(t),
    ensures
        decode_from(t, i) == t.skip(i),
    decreases t.len() - i,
{
    if i < t.len() {
        if t[i] != '\\' {
            lemma_decode_plain(t, i + 1);
            assert(t.skip(i) =~= seq![t[i]] + t.skip(i + 1));
        } else if i + 1 < t.len() {
            assert(t[i + 1] != 'X');
            lemma_decode_plain(t, i + 2);
            assert(t.skip(i) =~= seq!['\\', t[i + 1]] + t.skip(i + 2));
        } else {
            assert(t.skip(i) =~= seq!['\\']);
        }
    } else {
        assert(t.skip(i) =~= Seq::<char>::empty());
    }
}

} // verus!
