//! USD reading: recognising a file, finding the USD member of a USDZ
//! archive, and turning polygon faces into triangles.

use vstd::prelude::*;
use crate::bytes::{bytes_start_with, le_u16, le_u32, read_u16_le, read_u32_le};
use crate::error::{IoError, IoResult};
use crate::formats::usd::usdc::{is_usdc, spec_is_usdc};
use crate::text::{
    chars_of, leading_whitespace, starts_with_chars, starts_with_seq, str_eq, trim_start,
    utf8_str,
};
use vstd::utf8::{decode_utf8, valid_utf8};

verus! {

/// Reader for USD files (USDA text, USDC binary, USDZ archives).
pub struct UsdReader;

/// The local file header signature of a ZIP archive: "PK\x03\x04".
pub open spec fn zip_signature() -> Seq<u8> {
    seq![0x50u8, 0x4Bu8, 0x03u8, 0x04u8]
}

/// Whether `data` looks like USD: USDC magic, a ZIP archive (USDZ), or
/// UTF-8 text that starts with `#usda` after leading whitespace.
pub open spec fn usd_can_read(data: Seq<u8>) -> bool {
    ||| spec_is_usdc(data)
    ||| data.len() >= 4 && data.take(4) == zip_signature()
    ||| valid_utf8(data) && starts_with_seq(trim_start(decode_utf8(data)), "#usda"@)
}

/// Whether a member name names USD text: it ends with ".usda" or ".usd".
pub open spec fn is_usd_member_name(name: Seq<u8>) -> bool {
    valid_utf8(name) && ({
        let n = decode_utf8(name);
        (n.len() >= 5 && n.skip(n.len() - 5) == ".usda"@) || (n.len() >= 4 && n.skip(n.len() - 4)
            == ".usd"@)
    })
}

/// The byte range of the first stored (uncompressed) USD text member of a
/// ZIP archive, walking local file headers from `offset`; `None` when the
/// walk ends first. The walk stops at anything that is not a local file
/// header, or at a name running past the end.
pub open spec fn usdz_member_from(data: Seq<u8>, offset: int) -> Option<(int, int)>
    decreases data.len() - offset,
{
    if offset < 0 || offset + 30 >= data.len() {
        None
    } else if data.subrange(offset, offset + 4) != zip_signature() {
        None
    } else {
        let compressed = le_u32(data, offset + 18);
        let uncompressed = le_u32(data, offset + 22);
        let name_len = le_u16(data, offset + 26);
        let extra_len = le_u16(data, offset + 28);
        let name_start = offset + 30;
        let name_end = name_start + name_len;
        if name_end > data.len() {
            None
        } else {
            let data_start = name_end + extra_len;
            let data_end = data_start + compressed;
            if is_usd_member_name(data.subrange(name_start, name_end)) && data_end <= data.len()
                && compressed == uncompressed {
                Some((data_start, data_end))
            } else if data_end < data.len() {
                usdz_member_from(data, data_end)
            } else {
                None
            }
        }
    }
}

impl UsdReader {
    /// Create a new USD reader.
    pub fn new() -> Self {
        UsdReader
    }

    /// The format name.
    pub fn name(&self) -> (r: &'static str)
        ensures
            r@ == "usd"@,
    {
        "usd"
    }

    /// The file extensions this reader handles.
    pub fn extensions(&self) -> (r: Vec<&'static str>)
        ensures
            r@.len() == 4,
            r@[0]@ == "usd"@,
            r@[1]@ == "usda"@,
            r@[2]@ == "usdc"@,
            r@[3]@ == "usdz"@,
    {
        let mut v: Vec<&'static str> = Vec::new();
        v.push("usd");
        v.push("usda");
        v.push("usdc");
        v.push("usdz");
        v
    }

    /// Whether `data` looks like a USD file (see `usd_can_read`).
    pub fn can_read(&self, data: &[u8]) -> (r: bool)
        ensures
            r == usd_can_read(data@),
    {
        if is_usdc(data) {
            return true;
        }
        let pk: [u8; 4] = [0x50u8, 0x4Bu8, 0x03u8, 0x04u8];
        proof {
            assert(pk@ == zip_signature());
        }
        if data.len() >= 4 && bytes_start_with(data, pk.as_slice()) {
            return true;
        }
        match utf8_str(data) {
            Some(text) => {
                let cs = chars_of(text);
                let n = leading_whitespace(&cs);
                let marker = chars_of("#usda");
                let mut trimmed: Vec<char> = Vec::new();
                let mut i = n;
                while i < cs.len()
                    invariant
                        n <= i <= cs@.len(),
                        trimmed@ == cs@.subrange(n as int, i as int),
                    decreases cs@.len() - i,
                {
                    trimmed.push(cs[i]);
                    proof {
                        assert(cs@.subrange(n as int, i as int + 1) =~= cs@.subrange(
                            n as int,
                            i as int,
                        ).push(cs@[i as int]));
                    }
                    i += 1;
                }
                proof {
                    assert(trimmed@ =~= trim_start(decode_utf8(data@)));
                }
                starts_with_chars(&trimmed, &marker)
            },
            None => false,
        }
    }

    /// The byte range of the USD text inside a USDZ archive: the first
    /// stored member whose name ends with ".usda" or ".usd".
    pub fn find_usdz_member(&self, data: &[u8]) -> (r: IoResult<(usize, usize)>)
        ensures
            match usdz_member_from(data@, 0) {
                Some((s, e)) => r matches Ok((rs, re)) && rs == s && re == e,
                None => r matches Err(IoError::ParseError { message, offset: None, context: None })
                    && message@ == "No readable USD file found in USDZ archive"@,
            },
    {
        let pk: [u8; 4] = [0x50u8, 0x4Bu8, 0x03u8, 0x04u8];
        proof {
            assert(pk@ == zip_signature());
        }
        let mut offset: usize = 0;
        let dlen = data.len();
        loop
            invariant_except_break
                usdz_member_from(data@, 0) == usdz_member_from(data@, offset as int),
            invariant
                dlen == data@.len(),
                offset <= data@.len(),
                pk@ == zip_signature(),
            ensures
                usdz_member_from(data@, 0) is None,
            decreases data@.len() - offset,
        {
            if dlen <= 30 || offset >= dlen - 30 {
                break;
            }
            let tail = vstd::slice::slice_subrange(data, offset, dlen);
            proof {
                assert(tail@.take(4) =~= data@.subrange(offset as int, offset + 4));
            }
            if !bytes_start_with(tail, pk.as_slice()) {
                break;
            }
            let compressed_size = read_u32_le(data, offset + 18) as usize;
            let uncompressed_size = read_u32_le(data, offset + 22) as usize;
            let name_len = read_u16_le(data, offset + 26) as usize;
            let extra_len = read_u16_le(data, offset + 28) as usize;
            let name_start = offset + 30;
            if name_len > dlen - name_start {
                break;
            }
            let name_end = name_start + name_len;
            let name = vstd::slice::slice_subrange(data, name_start, name_end);
            let is_usd = match utf8_str(name) {
                Some(n) => {
                    let nc = chars_of(n);
                    ends_with_chars(&nc, ".usda") || ends_with_chars(&nc, ".usd")
                },
                None => false,
            };
            proof {
                reveal_strlit(".usda");
                reveal_strlit(".usd");
                assert(name@ == data@.subrange(name_start as int, name_end as int));
                assert(is_usd == is_usd_member_name(name@));
            }
            let fits = extra_len <= dlen - name_end && compressed_size <= dlen - name_end - extra_len;
            if is_usd && fits && compressed_size == uncompressed_size {
                let data_start = name_end + extra_len;
                return Ok((data_start, data_start + compressed_size));
            }
            if !fits || (dlen - name_end - extra_len) - compressed_size == 0 {
                break;
            }
            offset = name_end + extra_len + compressed_size;
        }
        Err(IoError::parse(String::from_str("No readable USD file found in USDZ archive")))
    }
}

/// Whether the characters of `s` end with those of `suffix`.
fn ends_with_chars(s: &Vec<char>, suffix: &str) -> (r: bool)
    ensures
        r == (suffix@.len() <= s@.len() && s@.skip(s@.len() - suffix@.len()) == suffix@),
{
    let suf = chars_of(suffix);
    if suf.len() > s.len() {
        return false;
    }
    let start = s.len() - suf.len();
    let slen = s.len();
    let mut i: usize = 0;
    while i < suf.len()
        invariant
            slen == s@.len(),
            suf@ == suffix@,
            start + suf@.len() == s@.len(),
            i <= suf@.len(),
            forall|k: int| 0 <= k < i ==> s@[start + k] == suf@[k],
        decreases suf@.len() - i,
    {
        if s[start + i] != suf[i] {
            proof {
                assert(s@.skip(start as int)[i as int] != suf@[i as int]);
            }
            return false;
        }
        i += 1;
    }
    assert(s@.skip(start as int) =~= suf@);
    true
}

/// The fan triangles of a face with `k` of its corners counted: for each
/// corner `i` in `1..k-1`, the triangle (first corner, corner `i`, corner
/// `i + 1`), with indices cut to 32 bits.
pub open spec fn fan_prefix(indices: Seq<i64>, off: int, k: int) -> Seq<u32>
    decreases k,
{
    if k <= 1 {
        Seq::empty()
    } else {
        fan_prefix(indices, off, k - 1) + seq![
            indices[off] as u32,
            indices[off + k - 1] as u32,
            indices[off + k] as u32,
        ]
    }
}

/// The sum of the face sizes.
pub open spec fn count_sum(counts: Seq<i64>) -> int
    decreases counts.len(),
{
    if counts.len() == 0 {
        0
    } else {
        count_sum(counts.drop_last()) + counts.last()
    }
}

/// The triangle indices of polygon faces given by their sizes and their
/// corner indices: each face of at least three corners that lies within
/// the indices is fanned from its first corner; other faces are skipped.
pub open spec fn triangulated(counts: Seq<i64>, indices: Seq<i64>) -> Seq<u32>
    decreases counts.len(),
{
    if counts.len() == 0 {
        Seq::empty()
    } else {
        let prev = triangulated(counts.drop_last(), indices);
        let off = count_sum(counts.drop_last());
        let n = counts.last() as int;
        if n < 3 || off + n > indices.len() {
            prev
        } else {
            prev + fan_prefix(indices, off, n - 1)
        }
    }
}

/// The corner that position `j` of a face's fan triangles refers to: each
/// triangle `t` is (first corner, corner `t + 1`, corner `t + 2`).
pub open spec fn fan_corner(off: int, j: int) -> int {
    if j % 3 == 0 {
        off
    } else {
        off + j / 3 + j % 3
    }
}

/// The fan of a face with `k` corners counted holds `k - 1` triangles, each
/// made of the first corner and two neighbouring corners.
proof fn lemma_fan_shape(indices: Seq<i64>, off: int, k: int)
    requires
        k >= 1,
    ensures
        fan_prefix(indices, off, k).len() == 3 * (k - 1),
        forall|j: int|
            0 <= j < 3 * (k - 1) ==> #[trigger] fan_prefix(indices, off, k)[j]
                == indices[fan_corner(off, j)] as u32,
    decreases k,
{
    if k > 1 {
        lemma_fan_shape(indices, off, k - 1);
        let p = fan_prefix(indices, off, k - 1);
        assert forall|j: int| 0 <= j < 3 * (k - 1) implies #[trigger] fan_prefix(indices, off, k)[j]
            == indices[fan_corner(off, j)] as u32 by {
            if j >= 3 * (k - 2) {
                let r = j - 3 * (k - 2);
                assert(j / 3 == k - 2 && j % 3 == r) by {
                    assert(j == 3 * (k - 2) + r);
                }
            } else {
                assert(fan_prefix(indices, off, k)[j] == p[j]);
            }
        }
    }
}

/// A face of `n >= 3` corners that lie within the corner indices adds
/// `n - 2` fan triangles after the triangles of the faces before it, each
/// the face's first corner with two neighbouring corners; any other face
/// adds nothing. So a single quad over `[a, b, c, d]` gives `a, b, c, a, c, d`.
/// A face's corners start right after the corners of the faces before it,
/// and no faces give no triangles.
pub proof fn lemma_face_fanned(counts: Seq<i64>, n: i64, indices: Seq<i64>)
    ensures
        triangulated(Seq::empty(), indices) == Seq::<u32>::empty(),
        count_sum(Seq::empty()) == 0,
        count_sum(counts.push(n)) == count_sum(counts) + n,
        ({
            let prev = triangulated(counts, indices);
            let next = triangulated(counts.push(n), indices);
            let off = count_sum(counts);
            &&& (3 <= n && off + n <= indices.len()) ==> {
                &&& next.len() == prev.len() + 3 * (n - 2)
                &&& next.subrange(0, prev.len() as int) == prev
                &&& forall|j: int|
                    0 <= j < 3 * (n - 2) ==> #[trigger] next[prev.len() + j]
                        == indices[fan_corner(off, j)] as u32
            }
            &&& !(3 <= n && off + n <= indices.len()) ==> next == prev
        }),
{
    let c2 = counts.push(n);
    assert(c2.drop_last() =~= counts);
    assert(c2.last() == n);
    let prev = triangulated(counts, indices);
    let off = count_sum(counts);
    if 3 <= n && off + n <= indices.len() {
        lemma_fan_shape(indices, off, n - 1);
        let next = triangulated(c2, indices);
        assert(next == prev + fan_prefix(indices, off, n - 1));
        assert(next.subrange(0, prev.len() as int) =~= prev);
        assert forall|j: int| 0 <= j < 3 * (n - 2) implies #[trigger] next[prev.len() + j]
            == indices[fan_corner(off, j)] as u32 by {
            assert(next[prev.len() + j] == fan_prefix(indices, off, n - 1)[j]);
        }
    }
}

/// Whether face sizes are non-negative with a total that fits in `usize`.
pub open spec fn counts_fit(counts: Seq<i64>) -> bool {
    &&& forall|k: int| 0 <= k < counts.len() ==> counts[k] >= 0
    &&& forall|k: int| 0 <= k <= counts.len() ==> #[trigger] count_sum(counts.take(k)) <= usize::MAX
}

/// Triangulate polygon faces by fanning each from its first corner.
pub fn triangulate_faces(counts: &[i64], indices: &[i64]) -> (r: Vec<u32>)
    requires
        counts_fit(counts@),
    ensures
        r@ == triangulated(counts@, indices@),
{
    let mut out: Vec<u32> = Vec::new();
    let mut idx_offset: usize = 0;
    let ilen = indices.len();
    let mut f: usize = 0;
    while f < counts.len()
        invariant
            ilen == indices@.len(),
            f <= counts@.len(),
            counts_fit(counts@),
            idx_offset as int == count_sum(counts@.take(f as int)),
            out@ == triangulated(counts@.take(f as int), indices@),
        decreases counts@.len() - f,
    {
        proof {
            assert(counts@.take(f as int + 1).drop_last() =~= counts@.take(f as int));
            assert(count_sum(counts@.take(f as int + 1)) <= usize::MAX);
        }
        let n = counts[f] as usize;
        if n >= 3 && n <= indices.len() && idx_offset <= indices.len() - n {
            let base = #[verifier::truncate] (indices[idx_offset] as u32);
            let ghost prev = out@;
            let mut i: usize = 1;
            while i < n - 1
                invariant
                    1 <= i <= n - 1,
                    ilen == indices@.len(),
                    idx_offset + n <= indices@.len(),
                    base == indices@[idx_offset as int] as u32,
                    out@ == prev + fan_prefix(indices@, idx_offset as int, i as int),
                decreases n - 1 - i,
            {
                out.push(base);
                out.push(#[verifier::truncate] (indices[idx_offset + i] as u32));
                out.push(#[verifier::truncate] (indices[idx_offset + i + 1] as u32));
                proof {
                    assert(out@ =~= prev + fan_prefix(indices@, idx_offset as int, i as int + 1));
                }
                i += 1;
            }
        }
        idx_offset = idx_offset + n;
        f += 1;
    }
    proof {
        assert(counts@.take(counts@.len() as int) =~= counts@);
    }
    out
}

/// Which attribute of a mesh prim holds each mesh property: the last
/// attribute with a matching name.
#[derive(Debug, Clone, Copy, PartialEq, Eq, Structural)]
pub struct MeshAttributeSlots {
    /// "points".
    pub points: Option<usize>,
    /// "normals".
    pub normals: Option<usize>,
    /// "primvars:st", "st" or "texCoord".
    pub texcoords: Option<usize>,
    /// "faceVertexCounts".
    pub face_vertex_counts: Option<usize>,
    /// "faceVertexIndices".
    pub face_vertex_indices: Option<usize>,
}

/// The position of the last name satisfying `p` among the first `n`.
pub open spec fn last_name_where(names: Seq<String>, n: int, p: spec_fn(Seq<char>) -> bool) -> Option<
    usize,
>
    decreases n,
{
    if n <= 0 {
        None
    } else if p(names[n - 1]@) {
        Some((n - 1) as usize)
    } else {
        last_name_where(names, n - 1, p)
    }
}

/// Whether a name is one of the texture coordinate attribute names.
pub open spec fn is_texcoord_name(t: Seq<char>) -> bool {
    t == "primvars:st"@ || t == "st"@ || t == "texCoord"@
}

/// Locate the mesh attributes among a prim's attribute names.
pub fn locate_mesh_attributes(names: &[String]) -> (r: MeshAttributeSlots)
    ensures
        r.points == last_name_where(names@, names@.len() as int, |t: Seq<char>| t == "points"@),
        r.normals == last_name_where(names@, names@.len() as int, |t: Seq<char>| t == "normals"@),
        r.texcoords == last_name_where(names@, names@.len() as int, |t: Seq<char>| is_texcoord_name(t)),
        r.face_vertex_counts == last_name_where(
            names@,
            names@.len() as int,
            |t: Seq<char>| t == "faceVertexCounts"@,
        ),
        r.face_vertex_indices == last_name_where(
            names@,
            names@.len() as int,
            |t: Seq<char>| t == "faceVertexIndices"@,
        ),
{
    let mut slots = MeshAttributeSlots {
        points: None,
        normals: None,
        texcoords: None,
        face_vertex_counts: None,
        face_vertex_indices: None,
    };
    let mut i: usize = 0;
    while i < names.len()
        invariant
            i <= names@.len(),
            slots.points == last_name_where(names@, i as int, |t: Seq<char>| t == "points"@),
            slots.normals == last_name_where(names@, i as int, |t: Seq<char>| t == "normals"@),
            slots.texcoords == last_name_where(names@, i as int, |t: Seq<char>| is_texcoord_name(t)),
            slots.face_vertex_counts == last_name_where(
                names@,
                i as int,
                |t: Seq<char>| t == "faceVertexCounts"@,
            ),
            slots.face_vertex_indices == last_name_where(
                names@,
                i as int,
                |t: Seq<char>| t == "faceVertexIndices"@,
            ),
        decreases names@.len() - i,
    {
        let name = names[i].as_str();
        if str_eq(name, "points") {
            slots.points = Some(i);
        } else if str_eq(name, "normals") {
            slots.normals = Some(i);
        } else if str_eq(name, "primvars:st") || str_eq(name, "st") || str_eq(name, "texCoord") {
            slots.texcoords = Some(i);
        } else if str_eq(name, "faceVertexCounts") {
            slots.face_vertex_counts = Some(i);
        } else if str_eq(name, "faceVertexIndices") {
            slots.face_vertex_indices = Some(i);
        }
        proof {
            distinct_mesh_names();
        }
        i += 1;
    }
    slots
}

/// The mesh attribute names differ from each other.
proof fn distinct_mesh_names()
    ensures
        "points"@ != "normals"@,
        !is_texcoord_name("points"@),
        !is_texcoord_name("normals"@),
        "points"@ != "faceVertexCounts"@,
        "points"@ != "faceVertexIndices"@,
        "normals"@ != "faceVertexCounts"@,
        "normals"@ != "faceVertexIndices"@,
        !is_texcoord_name("faceVertexCounts"@),
        !is_texcoord_name("faceVertexIndices"@),
        "faceVertexCounts"@ != "faceVertexIndices"@,
{
    reveal_strlit("points");
    reveal_strlit("normals");
    reveal_strlit("primvars:st");
    reveal_strlit("st");
    reveal_strlit("texCoord");
    reveal_strlit("faceVertexCounts");
    reveal_strlit("faceVertexIndices");
    assert("points"@.len() != "normals"@.len());
    assert("points"@.len() != "faceVertexCounts"@.len());
    assert("points"@.len() != "faceVertexIndices"@.len());
    assert("normals"@.len() != "faceVertexCounts"@.len());
    assert("normals"@.len() != "faceVertexIndices"@.len());
    assert("faceVertexCounts"@[10] != "faceVertexIndices"@[10]);
    assert("points"@[1] != "primvars:st"@[1]);
    assert("points"@.len() != "st"@.len());
    assert("points"@.len() != "texCoord"@.len());
    assert("normals"@.len() != "primvars:st"@.len());
    assert("normals"@.len() != "st"@.len());
    assert("normals"@.len() != "texCoord"@.len());
    assert("faceVertexCounts"@.len() != "primvars:st"@.len());
    assert("faceVertexCounts"@.len() != "st"@.len());
    assert("faceVertexCounts"@.len() != "texCoord"@.len());
    assert("faceVertexIndices"@.len() != "primvars:st"@.len());
    assert("faceVertexIndices"@.len() != "st"@.len());
    assert("faceVertexIndices"@.len() != "texCoord"@.len());
}

} // verus!
