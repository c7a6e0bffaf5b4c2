//! USD writer: identifiers, string escaping and indented USDA lines.

use vstd::prelude::*;
use crate::text::{
    char_is_alphanumeric, chars_of, decimal, is_alphanumeric, push_decimal, string_from_chars,
    with_decimal,
};

verus! {

/// Writer for USD files.
pub struct UsdWriter;

impl UsdWriter {
    /// Create a new USD writer.
    pub fn new() -> Self {
        UsdWriter
    }

    /// The format name.
    pub fn name(&self) -> (r: &'static str)
        ensures
            r@ == "usd"@,
    {
        "usd"
    }

    /// The primary file extension.
    pub fn extension(&self) -> (r: &'static str)
        ensures
            r@ == "usda"@,
    {
        "usda"
    }
}

/// Whether `c` is an ASCII decimal digit.
pub open spec fn is_ascii_digit(c: char) -> bool {
    '0' <= c && c <= '9'
}

/// What one character of a name becomes in an identifier: letters, digits
/// and `_` stay (a digit that would lead the identifier gets a `_` before
/// it); space, `-` and `.` become `_`; anything else is dropped.
pub open spec fn sanitize_char(c: char, first: bool) -> Seq<char> {
    if char_is_alphanumeric(c) || c == '_' {
        if first && is_ascii_digit(c) {
            seq!['_', c]
        } else {
            seq![c]
        }
    } else if c == ' ' || c == '-' || c == '.' {
        seq!['_']
    } else {
        Seq::empty()
    }
}

/// The identifier characters for the first `n` characters of `s`.
pub open spec fn sanitize_prefix(s: Seq<char>, n: int) -> Seq<char>
    decreases n,
{
    if n <= 0 {
        Seq::empty()
    } else {
        let p = sanitize_prefix(s, n - 1);
        p + sanitize_char(s[n - 1], p.len() == 0)
    }
}

/// Every character of an identifier prefix is alphanumeric or `_`, and it
/// does not start with an ASCII digit.
pub proof fn lemma_sanitize_prefix_identifier(s: Seq<char>, n: int)
    ensures
        forall|k: int|
            0 <= k < sanitize_prefix(s, n).len() ==> (char_is_alphanumeric(
                #[trigger] sanitize_prefix(s, n)[k],
            ) || sanitize_prefix(s, n)[k] == '_'),
        sanitize_prefix(s, n).len() > 0 ==> !is_ascii_digit(sanitize_prefix(s, n)[0]),
    decreases n,
{
    if n > 0 {
        lemma_sanitize_prefix_identifier(s, n - 1);
        let p = sanitize_prefix(s, n - 1);
        let q = sanitize_char(s[n - 1], p.len() == 0);
        assert(sanitize_prefix(s, n) == p + q);
        assert forall|k: int| 0 <= k < (p + q).len() implies (char_is_alphanumeric(
            #[trigger] (p + q)[k],
        ) || (p + q)[k] == '_') by {
            if k >= p.len() {
                assert((p + q)[k] == q[k - p.len()]);
            } else {
                assert((p + q)[k] == p[k]);
            }
        }
        if (p + q).len() > 0 && p.len() == 0 {
            assert((p + q)[0] == q[0]);
        }
    }
}

/// A name turned into a USD identifier; "unnamed" when nothing is left.
pub open spec fn sanitized(s: Seq<char>) -> Seq<char> {
    let r = sanitize_prefix(s, s.len() as int);
    if r.len() == 0 {
        "unnamed"@
    } else {
        r
    }
}

/// Turn a name into a USD identifier.
pub fn sanitize_name(name: &str) -> (r: String)
    ensures
        r@ == sanitized(name@),
        r@.len() > 0,
        !is_ascii_digit(r@[0]),
        r@ == "unnamed"@ || forall|k: int|
            0 <= k < r@.len() ==> (char_is_alphanumeric(#[trigger] r@[k]) || r@[k] == '_'),
{
    let cs = chars_of(name);
    let mut out: Vec<char> = Vec::new();
    let mut i: usize = 0;
    while i < cs.len()
        invariant
            i <= cs@.len(),
            cs@ == name@,
            out@ == sanitize_prefix(cs@, i as int),
        decreases cs@.len() - i,
    {
        let c = cs[i];
        if is_alphanumeric(c) || c == '_' {
            if out.len() == 0 && '0' <= c && c <= '9' {
                out.push('_');
            }
            out.push(c);
        } else if c == ' ' || c == '-' || c == '.' {
            out.push('_');
        }
        proof {
            assert(out@ =~= sanitize_prefix(cs@, i as int) + sanitize_char(
                c,
                sanitize_prefix(cs@, i as int).len() == 0,
            ));
        }
        i += 1;
    }
    proof {
        lemma_sanitize_prefix_identifier(cs@, cs@.len() as int);
        reveal_strlit("unnamed");
    }
    if out.len() == 0 {
        String::from_str("unnamed")
    } else {
        string_from_chars(&out)
    }
}

/// What one character becomes in a USDA string literal: `"`, `\`, newline,
/// carriage return and tab are escaped with a backslash.
pub open spec fn usd_escape_char(c: char) -> Seq<char> {
    if c == '"' {
        seq!['\\', '"']
    } else if c == '\\' {
        seq!['\\', '\\']
    } else if c == '\n' {
        seq!['\\', 'n']
    } else if c == '\r' {
        seq!['\\', 'r']
    } else if c == '\t' {
        seq!['\\', 't']
    } else {
        seq![c]
    }
}

/// A string escaped for a USDA string literal.
pub open spec fn usd_escape(s: Seq<char>) -> Seq<char>
    decreases s.len(),
{
    if s.len() == 0 {
        Seq::empty()
    } else {
        usd_escape(s.drop_last()) + usd_escape_char(s.last())
    }
}

/// Escape a string for a USDA string literal.
pub fn escape_string(s: &str) -> (r: String)
    ensures
        r@ == usd_escape(s@),
{
    let cs = chars_of(s);
    let mut out = String::new();
    let mut i: usize = 0;
    while i < cs.len()
        invariant
            i <= cs@.len(),
            cs@ == s@,
            out@ == usd_escape(cs@.take(i as int)),
        decreases cs@.len() - i,
    {
        let c = cs[i];
        if c == '"' {
            out.push('\\');
            out.push('"');
        } else if c == '\\' {
            out.push('\\');
            out.push('\\');
        } else if c == '\n' {
            out.push('\\');
            out.push('n');
        } else if c == '\r' {
            out.push('\\');
            out.push('r');
        } else if c == '\t' {
            out.push('\\');
            out.push('t');
        } else {
            out.push(c);
        }
        proof {
            assert(cs@.take(i as int + 1).drop_last() =~= cs@.take(i as int));
            assert(out@ =~= usd_escape(cs@.take(i as int)) + usd_escape_char(c));
        }
        i += 1;
    }
    proof {
        assert(cs@.take(cs@.len() as int) =~= cs@);
    }
    out
}

/// `n` copies of the four-space indent.
pub open spec fn indentation(n: nat) -> Seq<char>
    decreases n,
{
    if n == 0 {
        Seq::empty()
    } else {
        indentation((n - 1) as nat) + "    "@
    }
}

/// USDA text under construction, with the current nesting depth.
pub struct UsdaBuilder {
    /// The text written so far.
    pub output: String,
    /// Nesting depth.
    pub indent: usize,
    /// Whether lines are indented by depth.
    pub pretty: bool,
}

impl UsdaBuilder {
    /// An empty document at depth 0.
    pub fn new(pretty: bool) -> (r: Self)
        ensures
            r.output@ == Seq::<char>::empty(),
            r.indent == 0,
            r.pretty == pretty,
    {
        UsdaBuilder { output: String::new(), indent: 0, pretty }
    }

    /// Append a line: the indent (four spaces per level, when pretty), the
    /// text and a newline.
    pub fn write_line(&mut self, line: &str)
        ensures
            final(self).output@ == old(self).output@ + (if old(self).pretty {
                indentation(old(self).indent as nat)
            } else {
                Seq::<char>::empty()
            }) + line@ + seq!['\n'],
            final(self).indent == old(self).indent,
            final(self).pretty == old(self).pretty,
    {
        let ghost start = self.output@;
        if self.pretty {
            let mut k: usize = 0;
            while k < self.indent
                invariant
                    k <= self.indent,
                    self.output@ == start + indentation(k as nat),
                    self.indent == old(self).indent,
                    self.pretty == old(self).pretty,
                decreases self.indent - k,
            {
                self.output.append("    ");
                k += 1;
            }
        }
        let ghost mid = self.output@;
        self.output.append(line);
        self.output.push('\n');
        proof {
            if !self.pretty {
                assert(mid =~= start + Seq::<char>::empty());
            }
        }
    }
}


/// The prim name of the material at `index`: its name made a valid
/// identifier, or `Material_<index>` when it has none.
pub fn material_prim_name(name: &str, index: usize) -> (r: String)
    ensures
        r@ == if name@.len() == 0 {
            "Material_"@ + decimal(index as nat)
        } else {
            sanitized(name@)
        },
{
    proof {
        reveal_strlit("");
        assert(""@ =~= Seq::<char>::empty());
    }
    if crate::text::str_eq(name, "") {
        let n: u64 = index as u64;
        assert(n as nat == index as nat);
        with_decimal("Material_", n)
    } else {
        proof {
            if name@.len() == 0 {
                assert(name@ =~= ""@);
            }
        }
        sanitize_name(name)
    }
}

/// Decimal numbers separated by `, `.
pub open spec fn decimal_list(v: Seq<nat>) -> Seq<char>
    decreases v.len(),
{
    if v.len() == 0 {
        Seq::empty()
    } else if v.len() == 1 {
        decimal(v[0])
    } else {
        decimal_list(v.drop_last()) + ", "@ + decimal(v.last())
    }
}

/// Append `, ` (after the first item) and the decimal notation of `n`
/// to a list under construction.
fn push_list_item(out: &mut String, first: bool, n: u64)
    ensures
        final(out)@ == old(out)@ + (if first {
            Seq::<char>::empty()
        } else {
            ", "@
        }) + decimal(n as nat),
{
    let ghost start = out@;
    if !first {
        out.append(", ");
    }
    let ghost mid = out@;
    push_decimal(out, n);
    proof {
        if first {
            assert(mid =~= start + Seq::<char>::empty());
        }
    }
}

/// The face sizes line of a triangle mesh with `index_count` indices: one
/// `3` per whole triangle.
pub fn face_vertex_counts_line(index_count: usize) -> (r: String)
    ensures
        r@ == "int[] faceVertexCounts = ["@ + decimal_list(
            Seq::new((index_count / 3) as nat, |k: int| 3nat),
        ) + "]"@,
{
    let faces = index_count / 3;
    let mut out = String::from_str("int[] faceVertexCounts = [");
    let ghost head = out@;
    let mut k: usize = 0;
    proof {
        assert(Seq::new(0nat, |j: int| 3nat) =~= Seq::<nat>::empty());
        assert(out@ =~= head + decimal_list(Seq::new(0nat, |j: int| 3nat)));
    }
    while k < faces
        invariant
            k <= faces,
            out@ == head + decimal_list(Seq::new(k as nat, |j: int| 3nat)),
        decreases faces - k,
    {
        let ghost before = Seq::new(k as nat, |j: int| 3nat);
        let ghost after = Seq::new((k + 1) as nat, |j: int| 3nat);
        push_list_item(&mut out, k == 0, 3);
        proof {
            assert(after.drop_last() =~= before);
            if k == 0 {
                assert(out@ =~= head + decimal_list(after));
            } else {
                assert(out@ =~= head + decimal_list(after));
            }
        }
        k += 1;
    }
    out.append("]");
    out
}

/// The face indices line of a triangle mesh.
pub fn face_vertex_indices_line(indices: &[u32]) -> (r: String)
    ensures
        r@ == "int[] faceVertexIndices = ["@ + decimal_list(indices@.map_values(|i: u32| i as nat))
            + "]"@,
{
    let mut out = String::from_str("int[] faceVertexIndices = [");
    let ghost head = out@;
    let ghost all = indices@.map_values(|i: u32| i as nat);
    let mut k: usize = 0;
    proof {
        assert(all.take(0) =~= Seq::<nat>::empty());
        assert(out@ =~= head + decimal_list(all.take(0)));
    }
    while k < indices.len()
        invariant
            k <= indices@.len(),
            all == indices@.map_values(|i: u32| i as nat),
            out@ == head + decimal_list(all.take(k as int)),
        decreases indices@.len() - k,
    {
        push_list_item(&mut out, k == 0, indices[k] as u64);
        proof {
            assert(all.take(k + 1).drop_last() =~= all.take(k as int));
            assert(all.take(k + 1).last() == indices@[k as int] as nat);
            assert(out@ =~= head + decimal_list(all.take(k + 1)));
        }
        k += 1;
    }
    proof {
        assert(all.take(indices@.len() as int) =~= all);
    }
    out.append("]");
    out
}

} // verus!
