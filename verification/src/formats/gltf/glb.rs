//! The GLB container: a 12-byte header followed by length-prefixed chunks,
//! each padded to a multiple of four bytes.

use vstd::prelude::*;
use crate::bytes::{
    append_bytes, append_repeated, copy_range, le_u32, lemma_u32_le_roundtrip, push_u32_le,
    read_u32_le, u32_le_bytes,
};
use crate::error::{is_invalid_data, is_unsupported, IoError, IoResult};
use crate::text::{decimal, push_decimal};

verus! {

/// GLB magic number: "glTF" read as a little-endian `u32`.
pub const GLB_MAGIC: u32 = 0x46546C67;
/// The GLB container version this library reads and writes.
pub const GLB_VERSION: u32 = 2;
/// Chunk type of the JSON chunk: "JSON".
pub const GLB_CHUNK_JSON: u32 = 0x4E4F534A;
/// Chunk type of the binary chunk: "BIN\0".
pub const GLB_CHUNK_BIN: u32 = 0x004E4942;

/// `x` rounded up to a multiple of four.
pub open spec fn align4(x: int) -> int {
    (x + 3) / 4 * 4
}

/// The number of bytes that pad a chunk of `len` bytes to a multiple of four.
pub open spec fn pad4(len: int) -> int {
    (4 - len % 4) % 4
}

/// The JSON and binary chunks found by walking the chunks from `offset`,
/// starting from what was found before it: a later chunk of a type replaces
/// an earlier one, and chunks of other types are skipped. `None` when a
/// chunk's declared length runs past the end of the data.
#[verifier::opaque]
pub open spec fn scan_chunks(
    data: Seq<u8>,
    offset: int,
    json: Option<Seq<u8>>,
    bin: Option<Seq<u8>>,
) -> Option<(Option<Seq<u8>>, Option<Seq<u8>>)>
    decreases data.len() + 4 - offset,
{
    if offset < 0 || offset + 8 > data.len() {
        Some((json, bin))
    } else {
        let len = le_u32(data, offset);
        let ty = le_u32(data, offset + 4);
        let start = offset + 8;
        if start + len > data.len() {
            None
        } else {
            let chunk = data.subrange(start, start + len);
            scan_chunks(
                data,
                align4(start + len),
                if ty == GLB_CHUNK_JSON {
                    Some(chunk)
                } else {
                    json
                },
                if ty == GLB_CHUNK_BIN {
                    Some(chunk)
                } else {
                    bin
                },
            )
        }
    }
}

/// The payloads of a GLB file.
#[derive(Debug, Clone)]
pub struct GlbChunks {
    /// Content of the (last) JSON chunk.
    pub json: Vec<u8>,
    /// Content of the (last) binary chunk, if any.
    pub bin: Option<Vec<u8>>,
}

/// The view of an optional byte vector.
pub open spec fn bytes_opt(o: Option<Vec<u8>>) -> Option<Seq<u8>> {
    match o {
        Some(v) => Some(v@),
        None => None,
    }
}

/// Whether the 12-byte header is present, with the magic number and version 2.
pub open spec fn glb_header_ok(data: Seq<u8>) -> bool {
    data.len() >= 12 && le_u32(data, 0) == GLB_MAGIC && le_u32(data, 4) == GLB_VERSION
}

/// Split a GLB file into its JSON and binary chunks.
#[verifier::rlimit(50)]
pub fn parse_glb(data: &[u8]) -> (r: IoResult<GlbChunks>)
    ensures
        data@.len() < 12 ==> r is Err && is_invalid_data(r->Err_0, "GLB file too short"@),
        data@.len() >= 12 && le_u32(data@, 0) != GLB_MAGIC ==> r is Err && is_invalid_data(
            r->Err_0,
            "invalid GLB magic"@,
        ),
        data@.len() >= 12 && le_u32(data@, 0) == GLB_MAGIC && le_u32(data@, 4) != GLB_VERSION
            ==> r is Err && is_unsupported(
            r->Err_0,
            "GLB version "@ + decimal(le_u32(data@, 4) as nat) + " not supported"@,
        ),
        glb_header_ok(data@) ==> match scan_chunks(data@, 12, None, None) {
            None => r is Err && is_invalid_data(r->Err_0, "GLB chunk extends past end of file"@),
            Some((None, _)) => r is Err && is_invalid_data(r->Err_0, "GLB missing JSON chunk"@),
            Some((Some(j), b)) => r is Ok && r->Ok_0.json@ == j && bytes_opt(r->Ok_0.bin) == b,
        },
{
    if data.len() < 12 {
        return Err(IoError::InvalidData(String::from_str("GLB file too short")));
    }
    let magic = read_u32_le(data, 0);
    let version = read_u32_le(data, 4);
    if magic != GLB_MAGIC {
        return Err(IoError::InvalidData(String::from_str("invalid GLB magic")));
    }
    if version != GLB_VERSION {
        let mut m = String::from_str("GLB version ");
        push_decimal(&mut m, version as u64);
        m.append(" not supported");
        return Err(IoError::Unsupported(m));
    }
    let mut offset: usize = 12;
    let mut json: Option<Vec<u8>> = None;
    let mut bin: Option<Vec<u8>> = None;
    loop
        invariant_except_break
            scan_chunks(data@, 12, None, None) == scan_chunks(
                data@,
                offset as int,
                bytes_opt(json),
                bytes_opt(bin),
            ),
        invariant
            12 <= offset <= data@.len(),
            glb_header_ok(data@),
        ensures
            scan_chunks(data@, 12, None, None) == Some((bytes_opt(json), bytes_opt(bin))),
        decreases data@.len() - offset,
    {
        if data.len() - offset < 8 {
            proof {
                lemma_scan_end(data@, offset as int, bytes_opt(json), bytes_opt(bin));
            }
            break;
        }
        let chunk_length = read_u32_le(data, offset) as usize;
        let chunk_type = read_u32_le(data, offset + 4);
        let start = offset + 8;
        if chunk_length > data.len() - start {
            proof {
                lemma_scan_overrun(data@, offset as int, bytes_opt(json), bytes_opt(bin));
            }
            return Err(
                IoError::InvalidData(String::from_str("GLB chunk extends past end of file")),
            );
        }
        let end = start + chunk_length;
        let ghost old_json = bytes_opt(json);
        let ghost old_bin = bytes_opt(bin);
        if chunk_type == GLB_CHUNK_JSON {
            json = Some(copy_range(data, start, end));
        } else if chunk_type == GLB_CHUNK_BIN {
            bin = Some(copy_range(data, start, end));
        }
        proof {
            lemma_scan_step(data@, offset as int, old_json, old_bin);
            assert(data@.subrange(start as int, end as int) == data@.subrange(
                offset + 8,
                offset + 8 + le_u32(data@, offset as int),
            ));
        }
        if data.len() - end < 8 {
            proof {
                lemma_scan_end(data@, align4(end as int), bytes_opt(json), bytes_opt(bin));
            }
            break;
        }
        proof {
            lemma_align4_bounds(end as int);
        }
        offset = (end + 3) / 4 * 4;
    }
    match json {
        Some(j) => Ok(GlbChunks { json: j, bin }),
        None => Err(IoError::InvalidData(String::from_str("GLB missing JSON chunk"))),
    }
}

/// `n` copies of `b`.
pub open spec fn repeated(b: u8, n: int) -> Seq<u8> {
    Seq::new(n as nat, |_i: int| b)
}

/// Length of the whole GLB file for the given JSON and binary payloads.
pub open spec fn glb_total_len(json_len: int, bin_len: int) -> int {
    12 + 8 + json_len + pad4(json_len) + if bin_len > 0 {
        8 + bin_len + pad4(bin_len)
    } else {
        0
    }
}

/// The JSON chunk's content as written: the JSON text padded with spaces.
pub open spec fn padded_json(json: Seq<u8>) -> Seq<u8> {
    json + repeated(0x20, pad4(json.len() as int))
}

/// The binary chunk's content as written: the bytes padded with zeros.
pub open spec fn padded_bin(bin: Seq<u8>) -> Seq<u8> {
    bin + repeated(0, pad4(bin.len() as int))
}

/// The GLB file written for the given JSON text and binary buffer: the
/// header, the JSON chunk, and a binary chunk only when the buffer is not
/// empty. Lengths are written as `u32`, truncated.
#[verifier::opaque]
pub open spec fn glb_bytes(json: Seq<u8>, bin: Seq<u8>) -> Seq<u8> {
    let pj = padded_json(json);
    let pb = padded_bin(bin);
    let total = glb_total_len(json.len() as int, bin.len() as int);
    u32_le_bytes(GLB_MAGIC) + u32_le_bytes(GLB_VERSION) + u32_le_bytes(total as u32)
        + u32_le_bytes(pj.len() as u32) + u32_le_bytes(GLB_CHUNK_JSON) + pj + if bin.len() > 0 {
        u32_le_bytes(pb.len() as u32) + u32_le_bytes(GLB_CHUNK_BIN) + pb
    } else {
        Seq::empty()
    }
}

/// Frame serialised glTF JSON and the binary buffer as a GLB file.
pub fn frame_glb(json: &[u8], bin: &[u8]) -> (r: Vec<u8>)
    requires
        json@.len() + bin@.len() + 40 <= usize::MAX,
    ensures
        r@ == glb_bytes(json@, bin@),
{
    let json_padding = (4 - json.len() % 4) % 4;
    let padded_json_len = json.len() + json_padding;
    let bin_padding = (4 - bin.len() % 4) % 4;
    let padded_bin_len = bin.len() + bin_padding;
    let has_bin = bin.len() > 0;
    let total_size = 12 + 8 + padded_json_len + if has_bin {
        8 + padded_bin_len
    } else {
        0
    };
    let mut output: Vec<u8> = Vec::new();
    push_u32_le(&mut output, GLB_MAGIC);
    push_u32_le(&mut output, GLB_VERSION);
    push_u32_le(&mut output, #[verifier::truncate] (total_size as u32));
    push_u32_le(&mut output, #[verifier::truncate] (padded_json_len as u32));
    push_u32_le(&mut output, GLB_CHUNK_JSON);
    append_bytes(&mut output, json);
    append_repeated(&mut output, 0x20u8, json_padding);
    let ghost head = output@;
    if has_bin {
        push_u32_le(&mut output, #[verifier::truncate] (padded_bin_len as u32));
        push_u32_le(&mut output, GLB_CHUNK_BIN);
        append_bytes(&mut output, bin);
        append_repeated(&mut output, 0u8, bin_padding);
    }
    proof {
        reveal(glb_bytes);
        let pj = padded_json(json@);
        let pb = padded_bin(bin@);
        if has_bin {
            assert(output@ =~= head + (u32_le_bytes(pb.len() as u32) + u32_le_bytes(GLB_CHUNK_BIN)
                + pb));
        } else {
            assert(output@ =~= head + Seq::<u8>::empty());
        }
        assert(head =~= u32_le_bytes(GLB_MAGIC) + u32_le_bytes(GLB_VERSION) + u32_le_bytes(
            total_size as u32,
        ) + u32_le_bytes(pj.len() as u32) + u32_le_bytes(GLB_CHUNK_JSON) + pj);
    }
    output
}

/// The `u32` written at `a.len()` reads back.
proof fn lemma_le_u32_at(a: Seq<u8>, x: u32, rest: Seq<u8>)
    ensures
        le_u32(a + u32_le_bytes(x) + rest, a.len() as int) == x,
{
    let s = a + u32_le_bytes(x) + rest;
    let n = a.len() as int;
    lemma_u32_le_roundtrip(x);
    assert(s[n] == u32_le_bytes(x)[0]);
    assert(s[n + 1] == u32_le_bytes(x)[1]);
    assert(s[n + 2] == u32_le_bytes(x)[2]);
    assert(s[n + 3] == u32_le_bytes(x)[3]);
}

/// The header and the JSON chunk's frame of a written GLB file.
#[verifier::rlimit(40)]
proof fn lemma_glb_head(json: Seq<u8>, bin: Seq<u8>)
    ensures
        ({
            let data = glb_bytes(json, bin);
            let pj = padded_json(json);
            &&& data.len() == glb_total_len(json.len() as int, bin.len() as int)
            &&& le_u32(data, 0) == GLB_MAGIC
            &&& le_u32(data, 4) == GLB_VERSION
            &&& le_u32(data, 12) == pj.len() as u32
            &&& le_u32(data, 16) == GLB_CHUNK_JSON
            &&& data.subrange(20, 20 + pj.len() as int) == pj
            &&& data.subrange(20 + pj.len() as int, data.len() as int) == (if bin.len() > 0 {
                u32_le_bytes(padded_bin(bin).len() as u32) + u32_le_bytes(GLB_CHUNK_BIN)
                    + padded_bin(bin)
            } else {
                Seq::<u8>::empty()
            })
        }),
{
    reveal(glb_bytes);
    let data = glb_bytes(json, bin);
    let pj = padded_json(json);
    let pb = padded_bin(bin);
    let total = glb_total_len(json.len() as int, bin.len() as int);
    let tail: Seq<u8> = if bin.len() > 0 {
        u32_le_bytes(pb.len() as u32) + u32_le_bytes(GLB_CHUNK_BIN) + pb
    } else {
        Seq::empty()
    };
    let b0 = u32_le_bytes(GLB_MAGIC);
    let b1 = u32_le_bytes(GLB_VERSION);
    let b2 = u32_le_bytes(total as u32);
    let b3 = u32_le_bytes(pj.len() as u32);
    let b4 = u32_le_bytes(GLB_CHUNK_JSON);
    assert(data == b0 + b1 + b2 + b3 + b4 + pj + tail);
    assert(data =~= Seq::<u8>::empty() + b0 + (b1 + b2 + b3 + b4 + pj + tail));
    lemma_le_u32_at(Seq::<u8>::empty(), GLB_MAGIC, b1 + b2 + b3 + b4 + pj + tail);
    assert(data =~= b0 + b1 + (b2 + b3 + b4 + pj + tail));
    lemma_le_u32_at(b0, GLB_VERSION, b2 + b3 + b4 + pj + tail);
    assert(data =~= (b0 + b1 + b2) + b3 + (b4 + pj + tail));
    lemma_le_u32_at(b0 + b1 + b2, pj.len() as u32, b4 + pj + tail);
    assert(data =~= (b0 + b1 + b2 + b3) + b4 + (pj + tail));
    lemma_le_u32_at(b0 + b1 + b2 + b3, GLB_CHUNK_JSON, pj + tail);
    assert(data.subrange(20, 20 + pj.len() as int) =~= pj);
    assert(data.subrange(20 + pj.len() as int, data.len() as int) =~= tail);
}

/// The binary chunk's frame of a written GLB file.
proof fn lemma_glb_bin_chunk(rest: Seq<u8>, bin: Seq<u8>)
    requires
        bin.len() > 0,
        rest == u32_le_bytes(padded_bin(bin).len() as u32) + u32_le_bytes(GLB_CHUNK_BIN)
            + padded_bin(bin),
    ensures
        le_u32(rest, 0) == padded_bin(bin).len() as u32,
        le_u32(rest, 4) == GLB_CHUNK_BIN,
        rest.subrange(8, rest.len() as int) == padded_bin(bin),
        rest.len() == 8 + padded_bin(bin).len(),
{
    let pb = padded_bin(bin);
    let c0 = u32_le_bytes(pb.len() as u32);
    let c1 = u32_le_bytes(GLB_CHUNK_BIN);
    assert(rest =~= Seq::<u8>::empty() + c0 + (c1 + pb));
    lemma_le_u32_at(Seq::<u8>::empty(), pb.len() as u32, c1 + pb);
    lemma_le_u32_at(c0, GLB_CHUNK_BIN, pb);
    assert(rest.subrange(8, rest.len() as int) =~= pb);
}

/// Padding to four bytes gives a multiple of four, which alignment keeps.
proof fn lemma_pad4(n: int)
    requires
        0 <= n,
    ensures
        0 <= pad4(n) < 4,
        (n + pad4(n)) % 4 == 0,
        align4(n + pad4(n)) == n + pad4(n),
{
    let p = pad4(n);
    assert(0 <= p < 4 && (n + p) % 4 == 0) by (nonlinear_arith)
        requires
            p == (4 - n % 4) % 4,
            0 <= n,
    ;
    let m = n + p;
    assert((m + 3) / 4 * 4 == m) by (nonlinear_arith)
        requires
            m % 4 == 0,
            m >= 0,
    ;
}

/// Alignment moves forward by at most three.
proof fn lemma_align4_bounds(x: int)
    requires
        x >= 0,
    ensures
        x <= align4(x) <= x + 3,
{
    assert(x <= (x + 3) / 4 * 4 <= x + 3) by (nonlinear_arith)
        requires
            x >= 0,
    ;
}

/// Alignment keeps a multiple of four.
proof fn lemma_align4_multiple(m: int)
    requires
        m >= 0,
        m % 4 == 0,
    ensures
        align4(m) == m,
{
    assert((m + 3) / 4 * 4 == m) by (nonlinear_arith)
        requires
            m % 4 == 0,
            m >= 0,
    ;
}

/// One step of the chunk walk over a chunk that fits in the data.
proof fn lemma_scan_step(
    data: Seq<u8>,
    offset: int,
    json: Option<Seq<u8>>,
    bin: Option<Seq<u8>>,
)
    requires
        0 <= offset,
        offset + 8 + le_u32(data, offset) <= data.len(),
    ensures
        scan_chunks(data, offset, json, bin) == scan_chunks(
            data,
            align4(offset + 8 + le_u32(data, offset)),
            if le_u32(data, offset + 4) == GLB_CHUNK_JSON {
                Some(data.subrange(offset + 8, offset + 8 + le_u32(data, offset)))
            } else {
                json
            },
            if le_u32(data, offset + 4) == GLB_CHUNK_BIN {
                Some(data.subrange(offset + 8, offset + 8 + le_u32(data, offset)))
            } else {
                bin
            },
        ),
{
    reveal_with_fuel(scan_chunks, 2);
}

/// The chunk walk fails on a chunk that runs past the end.
proof fn lemma_scan_overrun(
    data: Seq<u8>,
    offset: int,
    json: Option<Seq<u8>>,
    bin: Option<Seq<u8>>,
)
    requires
        0 <= offset,
        offset + 8 <= data.len(),
        offset + 8 + le_u32(data, offset) > data.len(),
    ensures
        scan_chunks(data, offset, json, bin) is None,
{
    reveal_with_fuel(scan_chunks, 2);
}

/// The chunk walk ends where fewer than eight bytes are left.
proof fn lemma_scan_end(data: Seq<u8>, offset: int, json: Option<Seq<u8>>, bin: Option<Seq<u8>>)
    requires
        offset + 8 > data.len(),
    ensures
        scan_chunks(data, offset, json, bin) == Some((json, bin)),
{
    reveal_with_fuel(scan_chunks, 2);
}

/// Reading back a written GLB file: the header checks pass, and the chunk
/// walk finds the JSON text (with its space padding) and, when the binary
/// buffer was not empty, the buffer (with its zero padding); for an empty
/// buffer no binary chunk is found. Holds whenever the file's length fits
/// the `u32` length field.
pub proof fn lemma_glb_roundtrip(json: Seq<u8>, bin: Seq<u8>)
    requires
        glb_total_len(json.len() as int, bin.len() as int) <= u32::MAX,
    ensures
        glb_header_ok(glb_bytes(json, bin)),
        scan_chunks(glb_bytes(json, bin), 12, None, None) == Some(
            (
                Some(padded_json(json)),
                if bin.len() > 0 {
                    Some(padded_bin(bin))
                } else {
                    None::<Seq<u8>>
                },
            ),
        ),
{
    let data = glb_bytes(json, bin);
    let pj = padded_json(json);
    lemma_glb_head(json, bin);
    let off2: int = 20 + pj.len() as int;
    lemma_pad4(json.len() as int);
    lemma_align4_multiple(off2);
    lemma_scan_step(data, 12, None, None);
    assert(scan_chunks(data, 12, None, None) == scan_chunks(data, off2, Some(pj), None));
    if bin.len() > 0 {
        let pb = padded_bin(bin);
        let rest = data.subrange(off2, data.len() as int);
        lemma_glb_bin_chunk(rest, bin);
        assert(le_u32(data, off2) == le_u32(rest, 0));
        assert(le_u32(data, off2 + 4) == le_u32(rest, 4));
        assert(data.subrange(off2 + 8, off2 + 8 + pb.len() as int) =~= rest.subrange(
            8,
            rest.len() as int,
        ));
        lemma_pad4(bin.len() as int);
        lemma_align4_multiple(off2 + 8 + pb.len() as int);
        lemma_scan_step(data, off2, Some(pj), None);
        lemma_scan_end(data, data.len() as int, Some(pj), Some(pb));
    } else {
        assert(off2 == data.len());
        lemma_scan_end(data, off2, Some(pj), None);
    }
}

} // verus!
