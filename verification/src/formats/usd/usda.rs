//! USDA (USD ASCII) lexical pieces: prim specifiers, variability and string
//! literals.

use vstd::prelude::*;
use crate::formats::usd::writer::{usd_escape, usd_escape_char};
use crate::text::{char_is_alphanumeric, is_alphanumeric, skip_while_from};

verus! {

/// Prim specifier.
#[derive(Debug, Clone, Copy, PartialEq, Eq, Structural)]
pub enum PrimSpecifier {
    /// `def`
    Def,
    /// `over`
    Over,
    /// `class`
    Class,
}

impl Default for PrimSpecifier {
    /// `def`.
    fn default() -> (r: Self)
        ensures
            r == PrimSpecifier::Def,
    {
        PrimSpecifier::Def
    }
}

/// Attribute variability.
#[derive(Debug, Clone, Copy, PartialEq, Eq, Structural)]
pub enum Variability {
    /// Varying over time (the default).
    Varying,
    /// `uniform`.
    Uniform,
}

impl Default for Variability {
    /// Varying.
    fn default() -> (r: Self)
        ensures
            r == Variability::Varying,
    {
        Variability::Varying
    }
}

/// What an escape `\c` stands for in a string literal: `\n`, `\t`, `\r`,
/// `\\` and `\"` stand for one character; any other escape stays as written.
pub open spec fn unescaped(c: char) -> Seq<char> {
    if c == 'n' {
        seq!['\n']
    } else if c == 't' {
        seq!['\t']
    } else if c == 'r' {
        seq!['\r']
    } else if c == '\\' {
        seq!['\\']
    } else if c == '"' {
        seq!['"']
    } else {
        seq!['\\', c]
    }
}

/// The body of a double-quoted string starting at `i` (just after the
/// opening quote): the position after the closing quote and the unescaped
/// content, or `None` when the text ends first.
pub open spec fn quoted_body(s: Seq<char>, i: int) -> Option<(int, Seq<char>)>
    decreases s.len() - i,
{
    if i < 0 || i >= s.len() {
        None
    } else if s[i] == '"' {
        Some((i + 1, Seq::empty()))
    } else if s[i] == '\\' {
        if i + 1 < s.len() {
            match quoted_body(s, i + 2) {
                Some((e, c)) => Some((e, unescaped(s[i + 1]) + c)),
                None => None,
            }
        } else {
            None
        }
    } else {
        match quoted_body(s, i + 1) {
            Some((e, c)) => Some((e, seq![s[i]] + c)),
            None => None,
        }
    }
}

/// A double-quoted string literal at `i`: the position after it and its
/// content.
pub open spec fn double_quoted_at(s: Seq<char>, i: int) -> Option<(int, Seq<char>)> {
    if 0 <= i < s.len() && s[i] == '"' {
        quoted_body(s, i + 1)
    } else {
        None
    }
}

/// Parse a double-quoted string literal at `pos`, with backslash escapes.
pub fn double_quoted_string(s: &[char], pos: usize) -> (r: Option<(usize, Vec<char>)>)
    ensures
        match double_quoted_at(s@, pos as int) {
            Some((e, c)) => r matches Some((re, rc)) && re == e && rc@ == c,
            None => r is None,
        },
        r matches Some((e, _)) ==> pos < e <= s@.len(),
{
    if pos >= s.len() || s[pos] != '"' {
        return None;
    }
    let mut i = pos + 1;
    let mut acc: Vec<char> = Vec::new();
    while i < s.len()
        invariant
            pos + 1 <= i <= s@.len() + 1,
            double_quoted_at(s@, pos as int) == match quoted_body(s@, i as int) {
                Some((e, c)) => Some((e, acc@ + c)),
                None => None,
            },
        decreases s@.len() + 1 - i,
    {
        let c = s[i];
        if c == '"' {
            proof {
                assert(acc@ + Seq::<char>::empty() =~= acc@);
            }
            return Some((i + 1, acc));
        } else if c == '\\' {
            if i + 1 < s.len() {
                let next = s[i + 1];
                let ghost before = acc@;
                if next == 'n' {
                    acc.push('\n');
                } else if next == 't' {
                    acc.push('\t');
                } else if next == 'r' {
                    acc.push('\r');
                } else if next == '\\' {
                    acc.push('\\');
                } else if next == '"' {
                    acc.push('"');
                } else {
                    acc.push('\\');
                    acc.push(next);
                }
                proof {
                    assert(acc@ =~= before + unescaped(next));
                    match quoted_body(s@, i + 2) {
                        Some((e, rest)) => {
                            assert(before + (unescaped(next) + rest) =~= acc@ + rest);
                        },
                        None => {},
                    }
                }
                i += 2;
            } else {
                return None;
            }
        } else {
            let ghost before = acc@;
            acc.push(c);
            proof {
                match quoted_body(s@, i + 1) {
                    Some((e, rest)) => {
                        assert(before + (seq![c] + rest) =~= acc@ + rest);
                    },
                    None => {},
                }
            }
            i += 1;
        }
    }
    None
}

/// Whether `word` occurs in `s` at `i`.
pub open spec fn word_at(s: Seq<char>, i: int, word: Seq<char>) -> bool {
    0 <= i && i + word.len() <= s.len() && s.subrange(i, i + word.len()) == word
}

/// The prim specifier keyword at `i` (`def`, `over` or `class`) and the
/// position after it.
pub open spec fn prim_specifier_at(s: Seq<char>, i: int) -> Option<(int, PrimSpecifier)> {
    if word_at(s, i, "def"@) {
        Some((i + 3, PrimSpecifier::Def))
    } else if word_at(s, i, "over"@) {
        Some((i + 4, PrimSpecifier::Over))
    } else if word_at(s, i, "class"@) {
        Some((i + 5, PrimSpecifier::Class))
    } else {
        None
    }
}

/// Parse a prim specifier keyword at `pos`.
pub fn prim_specifier(s: &[char], pos: usize) -> (r: Option<(usize, PrimSpecifier)>)
    ensures
        match prim_specifier_at(s@, pos as int) {
            Some((e, p)) => r == Some((e as usize, p)),
            None => r is None,
        },
{
    proof {
        reveal_strlit("def");
        reveal_strlit("over");
        reveal_strlit("class");
    }
    let slen: usize = s.len();
    assert(slen == s@.len());
    let def = crate::text::chars_of("def");
    let over = crate::text::chars_of("over");
    let class = crate::text::chars_of("class");
    if crate::text::occurs_at_exec(s, &def, pos) {
        Some((pos + 3, PrimSpecifier::Def))
    } else if crate::text::occurs_at_exec(s, &over, pos) {
        Some((pos + 4, PrimSpecifier::Over))
    } else if crate::text::occurs_at_exec(s, &class, pos) {
        Some((pos + 5, PrimSpecifier::Class))
    } else {
        None
    }
}

/// The text between delimiter `d` at `i` and the next `d`, and the
/// position after the closing one.
#[verifier::opaque]
pub open spec fn delimited_at(s: Seq<char>, i: int, d: char) -> Option<(int, Seq<char>)> {
    if 0 <= i < s.len() && s[i] == d && exists|j: int| i < j < s.len() && s[j] == d {
        let j = choose|j: int| i < j < s.len() && s[j] == d && forall|k: int| i < k < j ==> s[k] != d;
        Some((j + 1, s.subrange(i + 1, j)))
    } else {
        None
    }
}

/// The text between `d` at `pos` and the next `d`.
fn delimited(s: &[char], pos: usize, d: char) -> (r: Option<(usize, Vec<char>)>)
    ensures
        match delimited_at(s@, pos as int, d) {
            Some((e, c)) => r matches Some((re, rc)) && re == e && rc@ == c,
            None => r is None,
        },
        r matches Some((e, _)) ==> pos < e <= s@.len(),
{
    reveal(delimited_at);
    if pos >= s.len() || s[pos] != d {
        return None;
    }
    let mut j = pos + 1;
    let mut acc: Vec<char> = Vec::new();
    while j < s.len() && s[j] != d
        invariant
            pos + 1 <= j <= s@.len(),
            s@[pos as int] == d,
            acc@ == s@.subrange(pos + 1, j as int),
            forall|k: int| pos < k < j ==> s@[k] != d,
        decreases s@.len() - j,
    {
        acc.push(s[j]);
        proof {
            assert(s@.subrange(pos + 1, j + 1) =~= s@.subrange(pos + 1, j as int).push(s@[j as int]));
        }
        j += 1;
    }
    if j == s.len() {
        return None;
    }
    proof {
        let c = choose|c: int| pos < c < s@.len() && s@[c] == d && forall|k: int| pos < k < c ==> s@[k] != d;
        assert(pos < c < s@.len() && s@[c] == d && forall|k: int| pos < k < c ==> s@[k] != d);
        if c < j {
            assert(s@[c] != d);
        }
        if c > j {
            assert(s@[j as int] != d);
        }
    }
    Some((j + 1, acc))
}

/// Parse a single-quoted string (a token) at `pos`: no escapes.
pub fn single_quoted_string(s: &[char], pos: usize) -> (r: Option<(usize, Vec<char>)>)
    ensures
        match delimited_at(s@, pos as int, '\'') {
            Some((e, c)) => r matches Some((re, rc)) && re == e && rc@ == c,
            None => r is None,
        },
        r matches Some((e, _)) ==> pos < e <= s@.len(),
{
    delimited(s, pos, '\'')
}

/// Parse an asset path `@...@` at `pos`.
pub fn asset_path(s: &[char], pos: usize) -> (r: Option<(usize, Vec<char>)>)
    ensures
        match delimited_at(s@, pos as int, '@') {
            Some((e, c)) => r matches Some((re, rc)) && re == e && rc@ == c,
            None => r is None,
        },
        r matches Some((e, _)) ==> pos < e <= s@.len(),
{
    delimited(s, pos, '@')
}

/// Whether `c` may appear in an identifier: alphanumeric or `_`.
pub open spec fn is_ident_char(c: char) -> bool {
    char_is_alphanumeric(c) || c == '_'
}

/// The end of the identifier at `i`: past the run of identifier
/// characters, which must not be empty.
pub open spec fn identifier_at(s: Seq<char>, i: int) -> Option<int> {
    let e = skip_while_from(s, i, |c: char| is_ident_char(c));
    if 0 <= i && e > i {
        Some(e)
    } else {
        None
    }
}

/// Parse an identifier at `pos`; the end of it.
pub fn identifier(s: &[char], pos: usize) -> (r: Option<usize>)
    requires
        pos <= s@.len(),
    ensures
        r is Some <==> identifier_at(s@, pos as int) is Some,
        r matches Some(e) ==> identifier_at(s@, pos as int) == Some(e as int) && pos < e <= s@.len(),
{
    let mut i = pos;
    while i < s.len() && (is_alphanumeric(s[i]) || s[i] == '_')
        invariant
            pos <= i <= s@.len(),
            skip_while_from(s@, pos as int, |c: char| is_ident_char(c)) == skip_while_from(
                s@,
                i as int,
                |c: char| is_ident_char(c),
            ),
        decreases s@.len() - i,
    {
        i += 1;
    }
    if i > pos {
        Some(i)
    } else {
        None
    }
}

/// Escaping distributes over a first character.
pub proof fn lemma_escape_first(t: Seq<char>)
    requires
        t.len() > 0,
    ensures
        usd_escape(t) == usd_escape_char(t[0]) + usd_escape(t.drop_first()),
    decreases t.len(),
{
    if t.len() == 1 {
        assert(t.drop_last() =~= Seq::<char>::empty());
        assert(t.drop_first() =~= Seq::<char>::empty());
        assert(usd_escape(t.drop_last()) =~= Seq::<char>::empty());
        assert(t.last() == t[0]);
        assert(usd_escape(t) =~= usd_escape_char(t[0]));
    } else {
        lemma_escape_first(t.drop_last());
        assert(t.drop_last().drop_first() =~= t.drop_first().drop_last());
        assert(t.drop_first().last() == t.last());
        assert(usd_escape(t) =~= usd_escape_char(t[0]) + usd_escape(t.drop_first()));
    }
}

/// Reading the escaped text of `t` followed by the closing quote gives `t`
/// back and ends after the quote, whatever precedes or follows.
pub proof fn lemma_quoted_body_of_escape(p: Seq<char>, t: Seq<char>, rest: Seq<char>)
    ensures
        quoted_body(p + usd_escape(t) + seq!['"'] + rest, p.len() as int) == Some(
            ((p.len() + usd_escape(t).len() + 1) as int, t),
        ),
    decreases t.len(),
{
    let s = p + usd_escape(t) + seq!['"'] + rest;
    if t.len() == 0 {
        assert(usd_escape(t) =~= Seq::<char>::empty());
        assert(s[p.len() as int] == '"');
        assert(t =~= Seq::<char>::empty());
    } else {
        lemma_escape_first(t);
        let e0 = usd_escape_char(t[0]);
        let t1 = t.drop_first();
        let p1 = p + e0;
        assert(s =~= p1 + usd_escape(t1) + seq!['"'] + rest);
        lemma_quoted_body_of_escape(p1, t1, rest);
        assert(s[p.len() as int] == e0[0]);
        if e0.len() == 2 {
            assert(s[p.len() as int + 1] == e0[1]);
            assert(unescaped(e0[1]) =~= seq![t[0]]);
        }
        assert(seq![t[0]] + t1 =~= t);
    }
}

/// A string escaped by `escape_string` and put in double quotes reads back
/// through `double_quoted_string` as the same string, ending just after
/// the closing quote, whatever follows it.
pub proof fn lemma_usd_string_roundtrip(t: Seq<char>, rest: Seq<char>)
    ensures
        double_quoted_at(seq!['"'] + usd_escape(t) + seq!['"'] + rest, 0) == Some(
            ((usd_escape(t).len() + 2) as int, t),
        ),
{
    lemma_quoted_body_of_escape(seq!['"'], t, rest);
}

} // verus!
