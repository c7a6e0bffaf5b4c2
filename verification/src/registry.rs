//! Lookup keys of the format registry.

use vstd::prelude::*;
use crate::text::{chars_of, str_to_lowercase, string_from_chars, to_lowercase};

verus! {

/// `s` without its leading `.` characters.
pub open spec fn without_leading_dots(s: Seq<char>) -> Seq<char>
    decreases s.len(),
{
    if s.len() > 0 && s[0] == '.' {
        without_leading_dots(s.drop_first())
    } else {
        s
    }
}

/// The key a file extension is looked up by: the extension without its
/// leading dots, in lower case (`".GLB"` and `"glb"` name the same format).
pub fn extension_key(ext: &str) -> (r: String)
    ensures
        r@ == str_to_lowercase(without_leading_dots(ext@)),
{
    let cs = chars_of(ext);
    let mut k: usize = 0;
    proof {
        assert(cs@.subrange(0, cs@.len() as int) =~= ext@);
    }
    while k < cs.len() && cs[k] == '.'
        invariant
            k <= cs@.len(),
            without_leading_dots(ext@) == without_leading_dots(cs@.subrange(k as int, cs@.len() as int)),
        decreases cs@.len() - k,
    {
        proof {
            let rest = cs@.subrange(k as int, cs@.len() as int);
            assert(rest.drop_first() =~= cs@.subrange(k + 1, cs@.len() as int));
        }
        k += 1;
    }
    let mut rest: Vec<char> = Vec::new();
    let mut j = k;
    while j < cs.len()
        invariant
            k <= j <= cs@.len(),
            rest@ == cs@.subrange(k as int, j as int),
        decreases cs@.len() - j,
    {
        rest.push(cs[j]);
        proof {
            assert(cs@.subrange(k as int, j + 1) =~= cs@.subrange(k as int, j as int).push(cs@[j as int]));
        }
        j += 1;
    }
    let trimmed = string_from_chars(&rest);
    to_lowercase(trimmed.as_str())
}

/// A leading dot does not change the key of an extension: `".glb"` and
/// `"glb"` look up the same format.
pub proof fn lemma_leading_dot_ignored(ext: Seq<char>)
    ensures
        str_to_lowercase(without_leading_dots(seq!['.'] + ext)) == str_to_lowercase(
            without_leading_dots(ext),
        ),
{
    assert((seq!['.'] + ext).drop_first() =~= ext);
}

} // verus!
