//! STEP writer: names and string escaping.

use vstd::prelude::*;
use crate::formats::step::p21::{spec_string_literal, string_body, lemma_decode_plain, no_hex_escape};
use crate::formats::step::mesh::{line_head, push_ref, ref_text};

verus! {

/// Writer for STEP files.
pub struct StepWriter;

impl StepWriter {
    /// Create a new STEP writer.
    pub fn new() -> Self {
        StepWriter
    }

    /// The format name.
    pub fn name(&self) -> (r: &'static str)
        ensures
            r@ == seq!['s', 't', 'e', 'p'],
    {
        proof {
            reveal_strlit("step");
        }
        "step"
    }

    /// The primary file extension.
    pub fn extension(&self) -> (r: &'static str)
        ensures
            r@ == seq!['s', 't', 'e', 'p'],
    {
        proof {
            reveal_strlit("step");
        }
        "step"
    }
}

/// A STEP string escape: every `'` doubled.
pub open spec fn step_escape(t: Seq<char>) -> Seq<char>
    decreases t.len(),
{
    if t.len() == 0 {
        Seq::empty()
    } else {
        (if t[0] == '\'' { seq!['\'', '\''] } else { seq![t[0]] }) + step_escape(t.drop_first())
    }
}

/// Escape a string for STEP format (`'` becomes `''`).
pub fn escape_step_string(s: &str) -> (r: String)
    ensures
        r@ == step_escape(s@),
{
    let cs = crate::text::chars_of(s);
    let mut r = String::new();
    let mut i: usize = 0;
    proof {
        assert(cs@.skip(0) =~= cs@);
        assert(r@ + step_escape(s@) =~= step_escape(s@));
    }
    while i < cs.len()
        invariant
            i <= cs@.len(),
            cs@ == s@,
            r@ + step_escape(cs@.skip(i as int)) == step_escape(s@),
        decreases cs@.len() - i,
    {
        let c = cs[i];
        let ghost rest = step_escape(cs@.skip(i + 1));
        let ghost old_r = r@;
        proof {
            assert(cs@.skip(i as int).drop_first() =~= cs@.skip(i + 1));
            assert(cs@.skip(i as int)[0] == c);
        }
        if c == '\'' {
            r.push('\'');
            r.push('\'');
            proof {
                assert(r@ + rest =~= old_r + (seq!['\'', '\''] + rest));
            }
        } else {
            r.push(c);
            proof {
                assert(r@ + rest =~= old_r + (seq![c] + rest));
            }
        }
        i += 1;
    }
    proof {
        assert(cs@.skip(i as int) =~= Seq::<char>::empty());
        assert(r@ + Seq::<char>::empty() =~= r@);
    }
    r
}

/// `t` between single quotes.
pub open spec fn single_quoted(t: Seq<char>) -> Seq<char> {
    seq!['\''] + t + seq!['\'']
}

/// The body of a quoted escaped text reads back as the text.
proof fn lemma_escaped_body(x: Seq<char>, j: int, t: Seq<char>)
    requires
        0 <= j <= x.len(),
        x.subrange(j, x.len() as int) == step_escape(t) + seq!['\''],
    ensures
        string_body(x, j) == Some((t, x.len() as int)),
    decreases t.len(),
{
    let tail = step_escape(t) + seq!['\''];
    assert(tail.len() >= 1);
    assert(x.subrange(j, x.len() as int).len() == x.len() - j);
    assert(x.subrange(j, x.len() as int)[0] == x[j]);
    assert(x[j] == tail[0]);
    if t.len() == 0 {
        assert(tail =~= seq!['\'']);
        assert(j + 1 == x.len());
        assert(string_body(x, j) == Some((Seq::<char>::empty(), j + 1)));
        assert(t =~= Seq::<char>::empty());
    } else if t[0] == '\'' {
        assert(tail =~= seq!['\'', '\''] + (step_escape(t.drop_first()) + seq!['\'']));
        assert(x[j + 1] == tail[1]);
        assert(x.subrange(j + 2, x.len() as int) =~= tail.subrange(2, tail.len() as int));
        assert(tail.subrange(2, tail.len() as int) =~= step_escape(t.drop_first()) + seq!['\'']);
        lemma_escaped_body(x, j + 2, t.drop_first());
        assert(seq!['\''] + t.drop_first() =~= t);
    } else {
        assert(tail =~= seq![t[0]] + (step_escape(t.drop_first()) + seq!['\'']));
        assert(x.subrange(j + 1, x.len() as int) =~= tail.subrange(1, tail.len() as int));
        assert(tail.subrange(1, tail.len() as int) =~= step_escape(t.drop_first()) + seq!['\'']);
        lemma_escaped_body(x, j + 1, t.drop_first());
        assert(seq![t[0]] + t.drop_first() =~= t);
    }
}

/// Text written as a STEP string (escaped and put between quotes) is read
/// back by the Part 21 string literal parser as the same text, the whole
/// literal consumed, provided no backslash in the text is followed by `X`
/// (which would open one of STEP's hexadecimal escapes).
pub proof fn lemma_escaped_string_reads_back(t: Seq<char>)
    requires
        no_hex_escape(t),
    ensures
        spec_string_literal(single_quoted(step_escape(t)), 0) == Some(
            (t, single_quoted(step_escape(t)).len() as int),
        ),
{
    let x = single_quoted(step_escape(t));
    assert(x.subrange(1, x.len() as int) =~= step_escape(t) + seq!['\'']);
    lemma_escaped_body(x, 1, t);
    lemma_decode_plain(t, 0);
    assert(t.skip(0) =~= t);
}

/// A text given or, where it is not, the default `d`.
pub open spec fn text_or(o: Option<&str>, d: Seq<char>) -> Seq<char> {
    match o {
        Some(t) => t@,
        None => d,
    }
}

/// The header section of a STEP file: the description, the file name and
/// the author escaped as STEP strings, with the timestamp as given.
pub open spec fn header_text(
    description: Seq<char>,
    name: Seq<char>,
    author: Seq<char>,
    timestamp: Seq<char>,
) -> Seq<char> {
    "ISO-10303-21;\nHEADER;\n"@ + "FILE_DESCRIPTION(('"@ + step_escape(description) + "'),'2;1');\n"@
        + "FILE_NAME('"@ + step_escape(name) + "','"@ + timestamp + "',('"@ + step_escape(author)
        + "'),(''),'seed-io','seed-io','');\n"@
        + "FILE_SCHEMA(('AUTOMOTIVE_DESIGN { 1 0 10303 214 1 1 1 1 }'));\n"@ + "ENDSEC;\n"@
}

/// The header section of a STEP file for a scene with the given metadata.
/// A missing description, name or author becomes "Exported from seed-io",
/// "model.step" or nothing; the timestamp is the modification time, else
/// the creation time, else "2024-01-01T00:00:00".
pub fn step_header(
    description: Option<&str>,
    name: Option<&str>,
    author: Option<&str>,
    modified: Option<&str>,
    created: Option<&str>,
) -> (r: String)
    ensures
        r@ == header_text(
            text_or(description, "Exported from seed-io"@),
            text_or(name, "model.step"@),
            text_or(author, ""@),
            text_or(if modified is Some { modified } else { created }, "2024-01-01T00:00:00"@),
        ),
{
    let description = match description {
        Some(t) => t,
        None => "Exported from seed-io",
    };
    let name = match name {
        Some(t) => t,
        None => "model.step",
    };
    let author = match author {
        Some(t) => t,
        None => "",
    };
    let timestamp = match modified {
        Some(t) => t,
        None => match created {
            Some(t) => t,
            None => "2024-01-01T00:00:00",
        },
    };
    let mut out = String::from_str("ISO-10303-21;\nHEADER;\n");
    out.append("FILE_DESCRIPTION(('");
    out.append(escape_step_string(description).as_str());
    out.append("'),'2;1');\n");
    out.append("FILE_NAME('");
    out.append(escape_step_string(name).as_str());
    out.append("','");
    out.append(timestamp);
    out.append("',('");
    out.append(escape_step_string(author).as_str());
    out.append("'),(''),'seed-io','seed-io','');\n");
    out.append("FILE_SCHEMA(('AUTOMOTIVE_DESIGN { 1 0 10303 214 1 1 1 1 }'));\n");
    out.append("ENDSEC;\n");
    proof {
        assert(out@ =~= header_text(description@, name@, author@, timestamp@));
    }
    out
}

/// The seven context entities that open the data section, numbered from
/// `first`: the application context and protocol, the geometric context
/// (at `first + 2`), its uncertainty, and the length, angle and solid
/// angle units.
pub open spec fn context_lines(first: nat) -> Seq<Seq<char>> {
    seq![
        ref_text(first) + "=APPLICATION_CONTEXT('automotive design');"@,
        ref_text(first + 1)
            + "=APPLICATION_PROTOCOL_DEFINITION('international standard','automotive_design',2010,"@
            + ref_text(first) + ");"@,
        ref_text(first + 2)
            + "=( GEOMETRIC_REPRESENTATION_CONTEXT(3) GLOBAL_UNCERTAINTY_ASSIGNED_CONTEXT(("@
            + ref_text(first + 3) + ")) GLOBAL_UNIT_ASSIGNED_CONTEXT(("@ + ref_text(first + 4) + ","@
            + ref_text(first + 5) + ","@ + ref_text(first + 6)
            + ")) REPRESENTATION_CONTEXT('Context #1','3D Context with TORTURE TOLERANCE'));"@,
        ref_text(first + 3) + "=UNCERTAINTY_MEASURE_WITH_UNIT(LENGTH_MEASURE(1.E-07),"@
            + ref_text(first + 4) + ",'distance_accuracy_value','confusion accuracy');"@,
        ref_text(first + 4) + "=( LENGTH_UNIT() NAMED_UNIT(*) SI_UNIT(.MILLI.,.METRE.) );"@,
        ref_text(first + 5) + "=( NAMED_UNIT(*) PLANE_ANGLE_UNIT() SI_UNIT($,.RADIAN.) );"@,
        ref_text(first + 6) + "=( NAMED_UNIT(*) SI_UNIT($,.STERADIAN.) SOLID_ANGLE_UNIT() );"@,
    ]
}

/// Lengths in a written STEP file are millimetres: for any numbering, the
/// length unit entity (`first + 4`), which the unit context and the
/// uncertainty measure refer to, is the SI metre with the milli prefix;
/// the other units are the radian and the steradian.
pub proof fn lemma_context_units(first: nat)
    ensures
        context_lines(first).len() == 7,
        context_lines(first)[4] == ref_text(first + 4)
            + "=( LENGTH_UNIT() NAMED_UNIT(*) SI_UNIT(.MILLI.,.METRE.) );"@,
        context_lines(first)[5] == ref_text(first + 5)
            + "=( NAMED_UNIT(*) PLANE_ANGLE_UNIT() SI_UNIT($,.RADIAN.) );"@,
        context_lines(first)[6] == ref_text(first + 6)
            + "=( NAMED_UNIT(*) SI_UNIT($,.STERADIAN.) SOLID_ANGLE_UNIT() );"@,
        context_lines(first)[3] == ref_text(first + 3)
            + "=UNCERTAINTY_MEASURE_WITH_UNIT(LENGTH_MEASURE(1.E-07),"@ + ref_text(first + 4)
            + ",'distance_accuracy_value','confusion accuracy');"@,
{
}

/// The lines of the context entities numbered from `first_id`; the
/// application context is `first_id` and the geometric context
/// `first_id + 2`, and the next free number is `first_id + 7`.
pub fn context_entities(first_id: u64) -> (r: Vec<String>)
    requires
        first_id + 7 <= u64::MAX,
    ensures
        r@.map_values(|l: String| l@) == context_lines(first_id as nat),
{
    let f = first_id;
    let mut r: Vec<String> = Vec::new();
    r.push(line_head(f, "=APPLICATION_CONTEXT('automotive design');"));
    let mut l = line_head(
        f + 1,
        "=APPLICATION_PROTOCOL_DEFINITION('international standard','automotive_design',2010,",
    );
    push_ref(&mut l, f);
    l.append(");");
    r.push(l);
    let mut l = line_head(
        f + 2,
        "=( GEOMETRIC_REPRESENTATION_CONTEXT(3) GLOBAL_UNCERTAINTY_ASSIGNED_CONTEXT((",
    );
    push_ref(&mut l, f + 3);
    l.append(")) GLOBAL_UNIT_ASSIGNED_CONTEXT((");
    push_ref(&mut l, f + 4);
    l.append(",");
    push_ref(&mut l, f + 5);
    l.append(",");
    push_ref(&mut l, f + 6);
    l.append(")) REPRESENTATION_CONTEXT('Context #1','3D Context with TORTURE TOLERANCE'));");
    r.push(l);
    let mut l = line_head(f + 3, "=UNCERTAINTY_MEASURE_WITH_UNIT(LENGTH_MEASURE(1.E-07),");
    push_ref(&mut l, f + 4);
    l.append(",'distance_accuracy_value','confusion accuracy');");
    r.push(l);
    r.push(line_head(f + 4, "=( LENGTH_UNIT() NAMED_UNIT(*) SI_UNIT(.MILLI.,.METRE.) );"));
    r.push(line_head(f + 5, "=( NAMED_UNIT(*) PLANE_ANGLE_UNIT() SI_UNIT($,.RADIAN.) );"));
    r.push(line_head(f + 6, "=( NAMED_UNIT(*) SI_UNIT($,.STERADIAN.) SOLID_ANGLE_UNIT() );"));
    proof {
        let spec_lines = context_lines(f as nat);
        assert forall|k: int| 0 <= k < 7 implies #[trigger] r@[k]@ =~= spec_lines[k] by {}
        assert(r@.map_values(|l: String| l@) =~= spec_lines);
    }
    r
}

} // verus!
