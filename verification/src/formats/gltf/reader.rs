//! glTF reading: recognising a file, loading its buffers, and reading index
//! data and embedded images out of them.

use vstd::prelude::*;
use base64::Engine;
use crate::bytes::{
    bytes_start_with, copy_range, le_u16, le_u32, read_u16_le, read_u32_le, u32_le_bytes,
};
use crate::error::{is_invalid_data, is_unsupported, IoError, IoResult};
use crate::formats::gltf::glb::{
    glb_bytes, glb_total_len, padded_bin, padded_json, GLB_CHUNK_BIN, GLB_CHUNK_JSON, GLB_MAGIC,
    GLB_VERSION,
};
use crate::formats::gltf::schema::{
    Accessor, Buffer, BufferView, Image, Sampler as GltfSampler, Texture as GltfTexture,
    COMPONENT_UNSIGNED_BYTE, COMPONENT_UNSIGNED_INT, COMPONENT_UNSIGNED_SHORT,
};
use crate::scene::{
    image_model, texture_model, AlphaMode, Filter, ImageModel, ImageSource, Sampler, Texture,
    TextureModel, Wrap,
};
use crate::text::{
    chars_of, concat_str, contains_chars, contains_seq, decimal, is_unicode_whitespace,
    leading_whitespace, starts_with_chars, starts_with_seq, str_eq, string_from_chars, trim_start,
    with_decimal,
};
use vstd::utf8::{decode_utf8, valid_utf8};

verus! {

/// The bytes that standard base64 (RFC 4648 alphabet, with padding)
/// decodes `text` to, or `None` where the text is not valid base64. The
/// decoder's rules take more than a few lines to state.
pub uninterp spec fn base64_decoded(text: Seq<char>) -> Option<Seq<u8>>;

/// Calls `base64::engine::general_purpose::STANDARD.decode`: `Ok` exactly
/// when the text decodes, and then the named decoding; on failure, the
/// decoder's description of the error.
#[verifier::external_body]
fn base64_decode(text: &str) -> (r: Result<Vec<u8>, String>)
    ensures
        r is Ok <==> base64_decoded(text@) is Some,
        r matches Ok(v) ==> v@ == base64_decoded(text@)->0,
{
    match base64::engine::general_purpose::STANDARD.decode(text) {
        Ok(v) => Ok(v),
        Err(e) => Err(e.to_string()),
    }
}

/// Reader for glTF 2.0 files (JSON `.gltf` and binary `.glb`).
pub struct GltfReader;

/// Whether `data` looks like glTF: it starts with the GLB magic number, or
/// it is UTF-8 text that, after leading whitespace, starts with `{` and
/// contains `"asset"`.
pub open spec fn gltf_can_read(data: Seq<u8>) -> bool {
    ||| data.len() >= 4 && le_u32(data, 0) == GLB_MAGIC
    ||| valid_utf8(data) && starts_with_seq(trim_start(decode_utf8(data)), seq!['{'])
        && contains_seq(trim_start(decode_utf8(data)), "\"asset\""@)
}

/// The first four bytes are kept when bytes are appended.
proof fn lemma_first_four_kept(x: Seq<u8>, y: Seq<u8>)
    requires
        x.len() >= 4,
    ensures
        (x + y).subrange(0, 4) =~= x.subrange(0, 4),
{
}

/// Every GLB file that `frame_glb` produces is recognised as glTF.
pub proof fn lemma_glb_detected(json: Seq<u8>, bin: Seq<u8>)
    ensures
        gltf_can_read(glb_bytes(json, bin)),
{
    reveal(glb_bytes);
    let data = glb_bytes(json, bin);
    let pj = padded_json(json);
    let pb = padded_bin(bin);
    let total = glb_total_len(json.len() as int, bin.len() as int);
    let head = u32_le_bytes(GLB_MAGIC);
    let s1 = head + u32_le_bytes(GLB_VERSION);
    let s2 = s1 + u32_le_bytes(total as u32);
    let s3 = s2 + u32_le_bytes(pj.len() as u32);
    let s4 = s3 + u32_le_bytes(GLB_CHUNK_JSON);
    let s5 = s4 + pj;
    let tail = if bin.len() > 0 {
        u32_le_bytes(pb.len() as u32) + u32_le_bytes(GLB_CHUNK_BIN) + pb
    } else {
        Seq::empty()
    };
    assert(data == s5 + tail);
    lemma_first_four_kept(head, u32_le_bytes(GLB_VERSION));
    lemma_first_four_kept(s1, u32_le_bytes(total as u32));
    lemma_first_four_kept(s2, u32_le_bytes(pj.len() as u32));
    lemma_first_four_kept(s3, u32_le_bytes(GLB_CHUNK_JSON));
    lemma_first_four_kept(s4, pj);
    lemma_first_four_kept(s5, tail);
    assert(head.subrange(0, 4) =~= head);
    assert(data.subrange(0, 4) == head);
    crate::bytes::lemma_u32_le_roundtrip(GLB_MAGIC);
    assert(data[0] == data.subrange(0, 4)[0] && data[1] == data.subrange(0, 4)[1] && data[2]
        == data.subrange(0, 4)[2] && data[3] == data.subrange(0, 4)[3]);
}

/// The position of the first `,` in `uri`, if any.
pub open spec fn first_comma(uri: Seq<char>) -> Option<int> {
    if exists|k: int| 0 <= k < uri.len() && uri[k] == ',' {
        Some(
            choose|k: int|
                0 <= k < uri.len() && uri[k] == ',' && forall|j: int|
                    0 <= j < k ==> uri[j] != ',',
        )
    } else {
        None
    }
}

/// The bytes that a `data:[<mediatype>][;base64],<data>` URI decodes to:
/// with a `;base64` header (before the first `,`), the decoded payload
/// after that comma, where it decodes.
pub open spec fn data_uri_bytes(uri: Seq<char>) -> Option<Seq<u8>> {
    match first_comma(uri) {
        None => None,
        Some(k) => if contains_seq(uri.take(k), ";base64"@) {
            base64_decoded(uri.skip(k + 1))
        } else {
            None
        },
    }
}

/// The error that decoding `uri` as a data URI fails with, when
/// `data_uri_bytes(uri)` is `None`: no comma at all, a payload that does
/// not decode, or a header without `;base64`.
pub open spec fn data_uri_error(uri: Seq<char>, e: IoError) -> bool {
    match first_comma(uri) {
        None => is_invalid_data(e, "invalid data URI"@),
        Some(k) => if contains_seq(uri.take(k), ";base64"@) {
            e matches IoError::InvalidData(m) && starts_with_seq(m@, "base64 decode error: "@)
        } else {
            is_unsupported(e, "URL-encoded data URIs not supported"@)
        },
    }
}

/// The bytes that a buffer URI loads to: only `data:` URIs, decoded.
pub open spec fn uri_bytes(uri: Seq<char>) -> Option<Seq<u8>> {
    if !starts_with_seq(uri, "data:"@) {
        None
    } else {
        data_uri_bytes(uri)
    }
}

/// The error that loading `uri` fails with, when `uri_bytes(uri)` is `None`.
pub open spec fn uri_error(uri: Seq<char>, e: IoError) -> bool {
    if !starts_with_seq(uri, "data:"@) {
        is_unsupported(e, "external buffer URIs not supported: "@ + uri)
    } else {
        data_uri_error(uri, e)
    }
}

/// What buffer `i` of a GLB file holds: the first buffer, when it has no
/// URI, is the binary chunk cut to the buffer's declared length; any other
/// buffer comes from its URI.
pub open spec fn glb_buffer_bytes(i: int, buf: Buffer, bin: Option<Seq<u8>>) -> Option<Seq<u8>> {
    if i == 0 && buf.uri is None {
        match bin {
            Some(b) => Some(
                b.take(
                    if buf.byte_length <= b.len() {
                        buf.byte_length as int
                    } else {
                        b.len() as int
                    },
                ),
            ),
            None => None,
        }
    } else {
        match buf.uri {
            Some(u) => uri_bytes(u@),
            None => None,
        }
    }
}

/// The error that loading buffer `i` of a GLB file fails with.
pub open spec fn glb_buffer_error(i: int, buf: Buffer, bin: Option<Seq<u8>>, e: IoError) -> bool {
    if i == 0 && buf.uri is None {
        is_invalid_data(e, "GLB buffer 0 missing binary data"@)
    } else {
        match buf.uri {
            Some(u) => uri_error(u@, e),
            None => is_invalid_data(e, "buffer "@ + decimal(i as nat) + " has no data"@),
        }
    }
}

/// What buffer `i` of a JSON glTF file holds: the data of its URI.
pub open spec fn json_buffer_bytes(buf: Buffer) -> Option<Seq<u8>> {
    match buf.uri {
        Some(u) => uri_bytes(u@),
        None => None,
    }
}

/// The error that loading buffer `i` of a JSON glTF file fails with.
pub open spec fn json_buffer_error(i: int, buf: Buffer, e: IoError) -> bool {
    match buf.uri {
        Some(u) => uri_error(u@, e),
        None => is_invalid_data(e, "buffer "@ + decimal(i as nat) + " has no URI"@),
    }
}

/// The views of a list of byte buffers.
pub open spec fn buffer_views_of(bufs: Seq<Vec<u8>>) -> Seq<Seq<u8>> {
    bufs.map_values(|b: Vec<u8>| b@)
}

/// The bytes of buffer view `idx`, if it names a buffer and lies within it.
pub open spec fn view_bytes(views: Seq<BufferView>, buffers: Seq<Seq<u8>>, idx: int) -> Option<
    Seq<u8>,
> {
    if 0 <= idx < views.len() && views[idx].buffer < buffers.len() {
        let v = views[idx];
        let b = buffers[v.buffer as int];
        if v.byte_offset + v.byte_length <= b.len() {
            Some(b.subrange(v.byte_offset as int, v.byte_offset + v.byte_length))
        } else {
            None
        }
    } else {
        None
    }
}

/// Byte size of one index of the given component type, for the types that
/// index data may use.
pub open spec fn index_size(component_type: u32) -> Option<int> {
    if component_type == COMPONENT_UNSIGNED_SHORT {
        Some(2)
    } else if component_type == COMPONENT_UNSIGNED_INT {
        Some(4)
    } else if component_type == COMPONENT_UNSIGNED_BYTE {
        Some(1)
    } else {
        None
    }
}

/// The index of `size` bytes at `offset`, little-endian.
pub open spec fn index_value(buf: Seq<u8>, offset: int, size: int) -> u32 {
    if size == 1 {
        buf[offset] as u32
    } else if size == 2 {
        le_u16(buf, offset) as u32
    } else {
        le_u32(buf, offset) as u32
    }
}

/// Whether all `count` indices, `stride` bytes apart from `start`, lie in `buf`.
pub open spec fn indices_fit(buf: Seq<u8>, start: int, stride: int, size: int, count: int) -> bool {
    forall|i: int| 0 <= i < count ==> #[trigger] (start + i * stride) + size <= buf.len()
}

/// The `count` indices, `stride` bytes apart from `start`.
pub open spec fn indices_at(buf: Seq<u8>, start: int, stride: int, size: int, count: int) -> Seq<
    u32,
> {
    Seq::new(count as nat, |i: int| index_value(buf, start + i * stride, size))
}

/// The indices that accessor `idx` yields, when every lookup succeeds and
/// all of its data lies in its buffer.
pub open spec fn accessor_indices(
    accessors: Seq<Accessor>,
    views: Seq<BufferView>,
    buffers: Seq<Seq<u8>>,
    idx: int,
) -> Option<Seq<u32>> {
    if 0 <= idx < accessors.len() && accessors[idx].accessor_type@ == "SCALAR"@
        && accessors[idx].buffer_view is Some {
        let a = accessors[idx];
        let vi = a.buffer_view->0 as int;
        if vi < views.len() && views[vi].buffer < buffers.len() && index_size(
            a.component_type,
        ) is Some {
            let v = views[vi];
            let buf = buffers[v.buffer as int];
            let size = index_size(a.component_type)->0;
            let stride: int = match v.byte_stride {
                Some(s) => s as int,
                None => size,
            };
            let start = v.byte_offset + a.byte_offset;
            if indices_fit(buf, start, stride, size, a.count as int) {
                Some(indices_at(buf, start, stride, size, a.count as int))
            } else {
                None
            }
        } else {
            None
        }
    } else {
        None
    }
}

impl GltfReader {
    /// Create a new glTF reader.
    pub fn new() -> Self {
        GltfReader
    }

    /// The format name.
    pub fn name(&self) -> (r: &'static str)
        ensures
            r@ == "gltf"@,
    {
        "gltf"
    }

    /// The file extensions this reader handles: "gltf" and "glb".
    pub fn extensions(&self) -> (r: Vec<&'static str>)
        ensures
            r@.len() == 2,
            r@[0]@ == "gltf"@,
            r@[1]@ == "glb"@,
    {
        let mut v: Vec<&'static str> = Vec::new();
        v.push("gltf");
        v.push("glb");
        v
    }

    /// Whether `data` looks like a glTF file (see `gltf_can_read`).
    pub fn can_read(&self, data: &[u8]) -> (r: bool)
        ensures
            r == gltf_can_read(data@),
    {
        if data.len() >= 4 && read_u32_le(data, 0) == GLB_MAGIC {
            return true;
        }
        match crate::text::utf8_str(data) {
            Some(text) => {
                let cs = chars_of(text);
                let n = leading_whitespace(&cs);
                let trimmed = slice_from(&cs, n);
                let open = chars_of("{");
                let key = chars_of("\"asset\"");
                proof {
                    reveal_strlit("{");
                    assert(trimmed@ == trim_start(decode_utf8(data@)));
                    assert(open@ == seq!['{']);
                }
                starts_with_chars(&trimmed, &open) && contains_chars(&trimmed, &key)
            },
            None => false,
        }
    }

    /// Load a buffer from its URI: only `data:` URIs are supported.
    pub fn load_buffer_uri(&self, uri: &str) -> (r: IoResult<Vec<u8>>)
        ensures
            match uri_bytes(uri@) {
                Some(b) => r is Ok && r->Ok_0@ == b,
                None => r is Err && uri_error(uri@, r->Err_0),
            },
    {
        let cs = chars_of(uri);
        let prefix = chars_of("data:");
        if starts_with_chars(&cs, &prefix) {
            self.decode_data_uri(uri)
        } else {
            Err(IoError::Unsupported(concat_str("external buffer URIs not supported: ", uri)))
        }
    }

    /// Decode a `data:[<mediatype>][;base64],<data>` URI.
    pub fn decode_data_uri(&self, uri: &str) -> (r: IoResult<Vec<u8>>)
        ensures
            match data_uri_bytes(uri@) {
                Some(b) => r is Ok && r->Ok_0@ == b,
                None => r is Err && data_uri_error(uri@, r->Err_0),
            },
    {
        let cs = chars_of(uri);
        let mut k: usize = 0;
        while k < cs.len() && cs[k] != ','
            invariant
                k <= cs@.len(),
                cs@ == uri@,
                forall|j: int| 0 <= j < k ==> cs@[j] != ',',
            decreases cs@.len() - k,
        {
            k += 1;
        }
        if k == cs.len() {
            return Err(IoError::InvalidData(String::from_str("invalid data URI")));
        }
        proof {
            assert(cs@[k as int] == ',');
            let c = choose|c: int|
                0 <= c < uri@.len() && uri@[c] == ',' && forall|j: int|
                    0 <= j < c ==> uri@[j] != ',';
            assert(0 <= c < uri@.len() && uri@[c] == ',' && forall|j: int|
                0 <= j < c ==> uri@[j] != ',');
            if c < k {
                assert(cs@[c] != ',');
            }
            if c > k {
                assert(uri@[k as int] != ',');
            }
            assert(first_comma(uri@) == Some(k as int));
        }
        let header = slice_to(&cs, k);
        let payload = slice_from(&cs, k + 1);
        let marker = chars_of(";base64");
        if contains_chars(&header, &marker) {
            let text = string_from_chars(&payload);
            match base64_decode(text.as_str()) {
                Ok(v) => Ok(v),
                Err(msg) => {
                    let m = concat_str("base64 decode error: ", msg.as_str());
                    proof {
                        let p = "base64 decode error: "@;
                        assert(m@.subrange(0, p.len() as int) =~= p);
                    }
                    Err(IoError::InvalidData(m))
                },
            }
        } else {
            Err(IoError::Unsupported(String::from_str("URL-encoded data URIs not supported")))
        }
    }

    /// Load the buffers of a GLB file: the first buffer may take its bytes
    /// from the binary chunk; every other buffer needs a data URI.
    pub fn load_buffers_glb(&self, buffers: &[Buffer], bin: Option<&[u8]>) -> (r: IoResult<
        Vec<Vec<u8>>,
    >)
        ensures
            r matches Ok(v) ==> v@.len() == buffers@.len() && forall|i: int|
                0 <= i < buffers@.len() ==> glb_buffer_bytes(
                    i,
                    buffers@[i],
                    opt_slice(bin),
                ) == Some(#[trigger] v@[i]@),
            (forall|i: int|
                0 <= i < buffers@.len() ==> #[trigger] glb_buffer_bytes(
                    i,
                    buffers@[i],
                    opt_slice(bin),
                ) is Some) ==> r is Ok,
            r matches Err(e) ==> exists|i: int|
                0 <= i < buffers@.len() && (forall|j: int|
                    0 <= j < i ==> #[trigger] glb_buffer_bytes(j, buffers@[j], opt_slice(bin))
                        is Some) && glb_buffer_bytes(i, buffers@[i], opt_slice(bin)) is None
                    && glb_buffer_error(i, buffers@[i], opt_slice(bin), e),
    {
        let mut out: Vec<Vec<u8>> = Vec::new();
        let mut i: usize = 0;
        while i < buffers.len()
            invariant
                i <= buffers@.len(),
                out@.len() == i,
                forall|j: int|
                    0 <= j < i ==> glb_buffer_bytes(j, buffers@[j], opt_slice(bin)) == Some(
                        #[trigger] out@[j]@,
                    ),
                forall|j: int|
                    0 <= j < i ==> #[trigger] glb_buffer_bytes(j, buffers@[j], opt_slice(bin))
                        is Some,
            decreases buffers@.len() - i,
        {
            let buffer = &buffers[i];
            if i == 0 && buffer.uri.is_none() {
                match bin {
                    Some(b) => {
                        let n = if buffer.byte_length <= b.len() {
                            buffer.byte_length
                        } else {
                            b.len()
                        };
                        out.push(copy_range(b, 0, n));
                        proof {
                            assert(b@.subrange(0, n as int) =~= b@.take(n as int));
                        }
                    },
                    None => {
                        proof {
                            assert(glb_buffer_bytes(0, buffers@[0], opt_slice(bin)) is None);
                        }
                        return Err(
                            IoError::InvalidData(String::from_str("GLB buffer 0 missing binary data")),
                        );
                    },
                }
            } else {
                match &buffer.uri {
                    Some(uri) => {
                        match self.load_buffer_uri(uri.as_str()) {
                            Ok(data) => out.push(data),
                            Err(e) => {
                                proof {
                                    let ii = i as int;
                                    assert(glb_buffer_bytes(ii, buffers@[ii], opt_slice(bin)) is None);
                                    assert(glb_buffer_error(ii, buffers@[ii], opt_slice(bin), e));
                                }
                                return Err(e);
                            },
                        }
                    },
                    None => {
                        let mut m = with_decimal("buffer ", i as u64);
                        m.append(" has no data");
                        proof {
                            let ii = i as int;
                            assert(glb_buffer_bytes(ii, buffers@[ii], opt_slice(bin)) is None);
                        }
                        return Err(IoError::InvalidData(m));
                    },
                }
            }
            i += 1;
        }
        Ok(out)
    }

    /// Load the buffers of a JSON glTF file, each from its data URI.
    pub fn load_buffers_json(&self, buffers: &[Buffer]) -> (r: IoResult<Vec<Vec<u8>>>)
        ensures
            r matches Ok(v) ==> v@.len() == buffers@.len() && forall|i: int|
                0 <= i < buffers@.len() ==> json_buffer_bytes(buffers@[i]) == Some(
                    #[trigger] v@[i]@,
                ),
            (forall|i: int|
                0 <= i < buffers@.len() ==> #[trigger] json_buffer_bytes(buffers@[i]) is Some)
                ==> r is Ok,
            r matches Err(e) ==> exists|i: int|
                0 <= i < buffers@.len() && (forall|j: int|
                    0 <= j < i ==> #[trigger] json_buffer_bytes(buffers@[j]) is Some)
                    && json_buffer_bytes(buffers@[i]) is None && json_buffer_error(
                    i,
                    buffers@[i],
                    e,
                ),
    {
        let mut out: Vec<Vec<u8>> = Vec::new();
        let mut i: usize = 0;
        while i < buffers.len()
            invariant
                i <= buffers@.len(),
                out@.len() == i,
                forall|j: int|
                    0 <= j < i ==> json_buffer_bytes(buffers@[j]) == Some(#[trigger] out@[j]@),
                forall|j: int| 0 <= j < i ==> #[trigger] json_buffer_bytes(buffers@[j]) is Some,
            decreases buffers@.len() - i,
        {
            match &buffers[i].uri {
                Some(uri) => {
                    match self.load_buffer_uri(uri.as_str()) {
                        Ok(data) => out.push(data),
                        Err(e) => {
                            proof {
                                let ii = i as int;
                                assert(json_buffer_bytes(buffers@[ii]) is None);
                                assert(json_buffer_error(ii, buffers@[ii], e));
                            }
                            return Err(e);
                        },
                    }
                },
                None => {
                    let mut m = with_decimal("buffer ", i as u64);
                    m.append(" has no URI");
                    proof {
                        let ii = i as int;
                        assert(json_buffer_bytes(buffers@[ii]) is None);
                    }
                    return Err(IoError::InvalidData(m));
                },
            }
            i += 1;
        }
        Ok(out)
    }
}

impl GltfReader {
    /// The bytes of buffer view `buffer_view_idx`.
    pub fn read_buffer_view_raw(
        &self,
        views: &[BufferView],
        buffers: &[Vec<u8>],
        buffer_view_idx: usize,
    ) -> (r: IoResult<Vec<u8>>)
        ensures
            buffer_view_idx >= views@.len() ==> r is Err && is_invalid_data(
                r->Err_0,
                "invalid buffer view "@ + decimal(buffer_view_idx as nat),
            ),
            buffer_view_idx < views@.len() && views@[buffer_view_idx as int].buffer
                >= buffers@.len() ==> r is Err && is_invalid_data(
                r->Err_0,
                "invalid buffer "@ + decimal(views@[buffer_view_idx as int].buffer as nat),
            ),
            buffer_view_idx < views@.len() && views@[buffer_view_idx as int].buffer
                < buffers@.len() ==> match view_bytes(
                views@,
                buffer_views_of(buffers@),
                buffer_view_idx as int,
            ) {
                Some(b) => r is Ok && r->Ok_0@ == b,
                None => r is Err && is_invalid_data(r->Err_0, "buffer view out of bounds"@),
            },
    {
        if buffer_view_idx >= views.len() {
            return Err(
                IoError::InvalidData(with_decimal("invalid buffer view ", buffer_view_idx as u64)),
            );
        }
        let view = &views[buffer_view_idx];
        if view.buffer >= buffers.len() {
            return Err(IoError::InvalidData(with_decimal("invalid buffer ", view.buffer as u64)));
        }
        let buffer = &buffers[view.buffer];
        proof {
            assert(buffer_views_of(buffers@)[view.buffer as int] == buffer@);
        }
        let start = view.byte_offset;
        if view.byte_length > buffer.len() || start > buffer.len() - view.byte_length {
            return Err(IoError::InvalidData(String::from_str("buffer view out of bounds")));
        }
        let end = start + view.byte_length;
        Ok(copy_range(buffer.as_slice(), start, end))
    }

    /// The index data of accessor `accessor_idx`: a `SCALAR` accessor of
    /// unsigned bytes, shorts or ints, read little-endian with the view's
    /// stride (by default the component size).
    #[verifier::loop_isolation(false)]
    pub fn read_accessor_indices(
        &self,
        accessors: &[Accessor],
        views: &[BufferView],
        buffers: &[Vec<u8>],
        accessor_idx: usize,
    ) -> (r: IoResult<Vec<u32>>)
        ensures
            match accessor_indices(accessors@, views@, buffer_views_of(buffers@), accessor_idx as int) {
                Some(v) => r is Ok && r->Ok_0@ == v,
                None => r is Err,
            },
            accessor_idx >= accessors@.len() ==> r is Err && is_invalid_data(
                r->Err_0,
                "invalid accessor "@ + decimal(accessor_idx as nat),
            ),
            accessor_idx < accessors@.len() && accessors@[accessor_idx as int].accessor_type@
                != "SCALAR"@ ==> r is Err && is_invalid_data(
                r->Err_0,
                "expected SCALAR for indices, got "@ + accessors@[accessor_idx as int].accessor_type@,
            ),
            accessor_idx < accessors@.len() && accessors@[accessor_idx as int].accessor_type@
                == "SCALAR"@ ==> ({
                let a = accessors@[accessor_idx as int];
                match a.buffer_view {
                    None => r is Err && is_invalid_data(r->Err_0, "accessor missing buffer view"@),
                    Some(vi) => if vi >= views@.len() {
                        r is Err && is_invalid_data(r->Err_0, "invalid buffer view "@ + decimal(vi as nat))
                    } else if views@[vi as int].buffer >= buffers@.len() {
                        r is Err && is_invalid_data(
                            r->Err_0,
                            "invalid buffer "@ + decimal(views@[vi as int].buffer as nat),
                        )
                    } else if index_size(a.component_type) is None {
                        r is Err && is_invalid_data(
                            r->Err_0,
                            "unsupported index component type: "@ + decimal(a.component_type as nat),
                        )
                    } else {
                        r is Err ==> is_invalid_data(r->Err_0, "index data out of bounds"@)
                    },
                }
            }),
    {
        if accessor_idx >= accessors.len() {
            return Err(IoError::InvalidData(with_decimal("invalid accessor ", accessor_idx as u64)));
        }
        let accessor = &accessors[accessor_idx];
        if !str_eq(accessor.accessor_type.as_str(), "SCALAR") {
            return Err(
                IoError::InvalidData(
                    concat_str("expected SCALAR for indices, got ", accessor.accessor_type.as_str()),
                ),
            );
        }
        let buffer_view_idx = match accessor.buffer_view {
            Some(v) => v,
            None => {
                return Err(IoError::InvalidData(String::from_str("accessor missing buffer view")));
            },
        };
        if buffer_view_idx >= views.len() {
            return Err(
                IoError::InvalidData(with_decimal("invalid buffer view ", buffer_view_idx as u64)),
            );
        }
        let view = &views[buffer_view_idx];
        if view.buffer >= buffers.len() {
            return Err(IoError::InvalidData(with_decimal("invalid buffer ", view.buffer as u64)));
        }
        let buffer = buffers[view.buffer].as_slice();
        proof {
            assert(buffer_views_of(buffers@)[view.buffer as int] == buffer@);
        }
        let size: usize = if accessor.component_type == COMPONENT_UNSIGNED_SHORT {
            2
        } else if accessor.component_type == COMPONENT_UNSIGNED_INT {
            4
        } else if accessor.component_type == COMPONENT_UNSIGNED_BYTE {
            1
        } else {
            return Err(
                IoError::InvalidData(
                    with_decimal(
                        "unsupported index component type: ",
                        accessor.component_type as u64,
                    ),
                ),
            );
        };
        let stride: usize = match view.byte_stride {
            Some(s) => s,
            None => size,
        };
        let count = accessor.count;
        let ghost start_i: int = view.byte_offset + accessor.byte_offset;
        let mut result: Vec<u32> = Vec::new();
        let blen: usize = buffer.len();
        let mut i: usize = 0;
        while i < count
            invariant
                i <= count,
                blen == buffer@.len(),
                start_i == view.byte_offset + accessor.byte_offset,
                count == accessor.count,
                size as int == index_size(accessor.component_type)->0,
                result@ == indices_at(buffer@, start_i, stride as int, size as int, i as int),
                forall|k: int|
                    0 <= k < i ==> #[trigger] (start_i + k * stride) + size <= buffer@.len(),
            decreases count - i,
        {
            let off = view.byte_offset.checked_add(accessor.byte_offset);
            let prod = i.checked_mul(stride);
            let offset = match (off, prod) {
                (Some(a), Some(b)) => a.checked_add(b),
                _ => None,
            };
            let fits = match offset {
                Some(o) => o <= buffer.len() && size <= buffer.len() - o,
                None => false,
            };
            if !fits {
                proof {
                    let ii = i as int;
                    let st = stride as int;
                    assert(ii * st >= 0) by (nonlinear_arith)
                        requires
                            ii >= 0,
                            st >= 0,
                    ;
                    match off {
                        None => {
                            assert(start_i > usize::MAX);
                        },
                        Some(a) => {
                            assert(a == start_i);
                            match prod {
                                None => {
                                    assert(ii * st > usize::MAX);
                                },
                                Some(b) => {
                                    assert(b == ii * st);
                                },
                            }
                        },
                    }
                    assert(!((start_i + ii * st) + size <= buffer@.len()));
                    assert(!indices_fit(buffer@, start_i, stride as int, size as int, count as int));
                }
                return Err(IoError::InvalidData(String::from_str("index data out of bounds")));
            }
            let o = offset.unwrap();
            let idx: u32 = if size == 2 {
                read_u16_le(buffer, o) as u32
            } else if size == 4 {
                read_u32_le(buffer, o)
            } else {
                buffer[o] as u32
            };
            result.push(idx);
            proof {
                assert(result@ =~= indices_at(
                    buffer@,
                    start_i,
                    stride as int,
                    size as int,
                    i as int + 1,
                ));
            }
            i += 1;
        }
        proof {
            assert(indices_fit(buffer@, start_i, stride as int, size as int, count as int));
        }
        Ok(result)
    }
}

/// The filter a glTF magnification code stands for: nearest only for 9728.
pub open spec fn mag_filter_from(code: Option<u32>) -> Filter {
    if code == Some(9728u32) {
        Filter::Nearest
    } else {
        Filter::Linear
    }
}

/// The filter a glTF minification code stands for: nearest for 9728, 9984
/// and 9986 (nearest, and the mipmap modes that sample the nearest texel).
pub open spec fn min_filter_from(code: Option<u32>) -> Filter {
    match code {
        Some(c) => if c == 9728 || c == 9984 || c == 9986 {
            Filter::Nearest
        } else {
            Filter::Linear
        },
        None => Filter::Linear,
    }
}

/// The wrap mode a glTF code stands for; repeat for unknown codes.
pub open spec fn wrap_from(code: u32) -> Wrap {
    if code == 33071 {
        Wrap::ClampToEdge
    } else if code == 33648 {
        Wrap::MirroredRepeat
    } else {
        Wrap::Repeat
    }
}

/// The scene sampler settings a glTF sampler stands for.
pub open spec fn sampler_from(s: GltfSampler) -> Sampler {
    Sampler {
        mag_filter: mag_filter_from(s.mag_filter),
        min_filter: min_filter_from(s.min_filter),
        wrap_u: wrap_from(s.wrap_s),
        wrap_v: wrap_from(s.wrap_t),
    }
}

/// The scene sampler settings a glTF sampler stands for.
pub fn sampler_from_gltf(s: &GltfSampler) -> (r: Sampler)
    ensures
        r == sampler_from(*s),
{
    let mag_filter = match s.mag_filter {
        Some(c) => if c == 9728 {
            Filter::Nearest
        } else {
            Filter::Linear
        },
        None => Filter::Linear,
    };
    let min_filter = match s.min_filter {
        Some(c) => if c == 9728 || c == 9984 || c == 9986 {
            Filter::Nearest
        } else {
            Filter::Linear
        },
        None => Filter::Linear,
    };
    Sampler {
        mag_filter,
        min_filter,
        wrap_u: wrap_mode_from_gltf(s.wrap_s),
        wrap_v: wrap_mode_from_gltf(s.wrap_t),
    }
}

/// The wrap mode a glTF code stands for.
pub fn wrap_mode_from_gltf(code: u32) -> (r: Wrap)
    ensures
        r == wrap_from(code),
{
    if code == 33071 {
        Wrap::ClampToEdge
    } else if code == 33648 {
        Wrap::MirroredRepeat
    } else {
        Wrap::Repeat
    }
}

/// The alpha mode a glTF material's mode names: "MASK", "BLEND", and
/// opaque for anything else.
pub open spec fn alpha_mode_from(t: Seq<char>) -> AlphaMode {
    if t == "MASK"@ {
        AlphaMode::Mask
    } else if t == "BLEND"@ {
        AlphaMode::Blend
    } else {
        AlphaMode::Opaque
    }
}

/// The alpha mode a glTF material's mode names.
pub fn alpha_mode_from_name(t: &str) -> (r: AlphaMode)
    ensures
        r == alpha_mode_from(t@),
{
    if str_eq(t, "MASK") {
        AlphaMode::Mask
    } else if str_eq(t, "BLEND") {
        AlphaMode::Blend
    } else {
        AlphaMode::Opaque
    }
}

/// The MIME type guessed from an image's first bytes: PNG, JPEG, or a
/// generic octet stream.
pub open spec fn sniffed_mime(data: Seq<u8>) -> Seq<char> {
    if starts_with_seq(data, seq![0x89u8, 0x50u8, 0x4Eu8, 0x47u8]) {
        "image/png"@
    } else if starts_with_seq(data, seq![0xFFu8, 0xD8u8]) {
        "image/jpeg"@
    } else {
        "application/octet-stream"@
    }
}

/// The MIME type guessed from an image's first bytes.
pub fn sniff_mime(data: &[u8]) -> (r: String)
    ensures
        r@ == sniffed_mime(data@),
{
    let png: [u8; 4] = [0x89u8, 0x50u8, 0x4Eu8, 0x47u8];
    let jpeg: [u8; 2] = [0xFFu8, 0xD8u8];
    proof {
        assert(png@ == seq![0x89u8, 0x50u8, 0x4Eu8, 0x47u8]);
        assert(jpeg@ == seq![0xFFu8, 0xD8u8]);
    }
    if bytes_start_with(data, png.as_slice()) {
        String::from_str("image/png")
    } else if bytes_start_with(data, jpeg.as_slice()) {
        String::from_str("image/jpeg")
    } else {
        String::from_str("application/octet-stream")
    }
}

/// The MIME type an image declares, or the one guessed from its bytes.
pub open spec fn image_mime(declared: Option<String>, data: Seq<u8>) -> Seq<char> {
    match declared {
        Some(m) => m@,
        None => sniffed_mime(data),
    }
}

/// What the image of a glTF texture reads as: `None` when the texture has
/// no usable image (no source, no such image, or an image with neither URI
/// nor buffer view), which is skipped; `Some(None)` when its data cannot be
/// loaded; otherwise the image. A URI that is not a data URI stays a
/// reference.
pub open spec fn texture_image(
    tex: GltfTexture,
    images: Seq<Image>,
    views: Seq<BufferView>,
    buffers: Seq<Seq<u8>>,
) -> Option<Option<ImageModel>> {
    match tex.source {
        None => None,
        Some(si) => if si >= images.len() {
            None
        } else {
            let img = images[si as int];
            match img.uri {
                Some(u) => if starts_with_seq(u@, "data:"@) {
                    match uri_bytes(u@) {
                        Some(d) => Some(
                            Some(ImageModel::Embedded { mime_type: image_mime(img.mime_type, d), data: d }),
                        ),
                        None => Some(None),
                    }
                } else {
                    Some(Some(ImageModel::External { uri: u@ }))
                },
                None => match img.buffer_view {
                    Some(bv) => match view_bytes(views, buffers, bv as int) {
                        Some(d) => Some(
                            Some(ImageModel::Embedded { mime_type: image_mime(img.mime_type, d), data: d }),
                        ),
                        None => Some(None),
                    },
                    None => None,
                },
            }
        },
    }
}

/// The sampler settings of a glTF texture: those of its sampler when it
/// names one that exists, the defaults otherwise.
pub open spec fn texture_sampler(tex: GltfTexture, samplers: Seq<GltfSampler>) -> Sampler {
    match tex.sampler {
        Some(i) => if i < samplers.len() {
            sampler_from(samplers[i as int])
        } else {
            default_sampler()
        },
        None => default_sampler(),
    }
}

/// Linear filtering, repeating in both directions.
pub open spec fn default_sampler() -> Sampler {
    Sampler {
        mag_filter: Filter::Linear,
        min_filter: Filter::Linear,
        wrap_u: Wrap::Repeat,
        wrap_v: Wrap::Repeat,
    }
}

/// The name of a glTF texture, empty when it has none.
pub open spec fn texture_name(tex: GltfTexture) -> Seq<char> {
    match tex.name {
        Some(n) => n@,
        None => Seq::empty(),
    }
}

/// The scene textures that a list of glTF textures reads as, skipping
/// those without a usable image; `None` when some image's data cannot be
/// loaded.
pub open spec fn textures_read(
    ts: Seq<GltfTexture>,
    images: Seq<Image>,
    samplers: Seq<GltfSampler>,
    views: Seq<BufferView>,
    buffers: Seq<Seq<u8>>,
) -> Option<Seq<TextureModel>>
    decreases ts.len(),
{
    if ts.len() == 0 {
        Some(Seq::empty())
    } else {
        match textures_read(ts.drop_last(), images, samplers, views, buffers) {
            None => None,
            Some(prev) => match texture_image(ts.last(), images, views, buffers) {
                None => Some(prev),
                Some(None) => None,
                Some(Some(m)) => Some(
                    prev.push(
                        TextureModel {
                            name: texture_name(ts.last()),
                            source: m,
                            sampler: texture_sampler(ts.last(), samplers),
                        },
                    ),
                ),
            },
        }
    }
}

impl GltfReader {
    /// The image source of a texture; `Ok(None)` when it has none to use.
    pub fn texture_source(
        &self,
        tex: &GltfTexture,
        images: &[Image],
        views: &[BufferView],
        buffers: &[Vec<u8>],
    ) -> (r: IoResult<Option<ImageSource>>)
        ensures
            match texture_image(*tex, images@, views@, buffer_views_of(buffers@)) {
                None => r == Ok::<Option<ImageSource>, IoError>(None),
                Some(None) => r is Err,
                Some(Some(m)) => r matches Ok(Some(src)) && image_model(src) == m,
            },
    {
        let source_idx = match tex.source {
            Some(s) => s,
            None => {
                return Ok(None);
            },
        };
        if source_idx >= images.len() {
            return Ok(None);
        }
        let image = &images[source_idx];
        match &image.uri {
            Some(uri) => {
                let cs = chars_of(uri.as_str());
                let prefix = chars_of("data:");
                if starts_with_chars(&cs, &prefix) {
                    let data = self.decode_data_uri(uri.as_str())?;
                    let mime_type = match &image.mime_type {
                        Some(m) => m.clone(),
                        None => sniff_mime(data.as_slice()),
                    };
                    Ok(Some(ImageSource::Embedded { mime_type, data }))
                } else {
                    Ok(Some(ImageSource::External { uri: uri.clone() }))
                }
            },
            None => match image.buffer_view {
                Some(bv) => {
                    let data = match self.read_buffer_view_raw(views, buffers, bv) {
                        Ok(d) => d,
                        Err(e) => {
                            return Err(e);
                        },
                    };
                    let mime_type = match &image.mime_type {
                        Some(m) => m.clone(),
                        None => sniff_mime(data.as_slice()),
                    };
                    Ok(Some(ImageSource::Embedded { mime_type, data }))
                },
                None => Ok(None),
            },
        }
    }

    /// The scene textures of a glTF document's textures, in order, skipping
    /// those without a usable image.
    pub fn convert_textures(
        &self,
        textures: &[GltfTexture],
        images: &[Image],
        samplers: &[GltfSampler],
        views: &[BufferView],
        buffers: &[Vec<u8>],
    ) -> (r: IoResult<Vec<Texture>>)
        ensures
            match textures_read(textures@, images@, samplers@, views@, buffer_views_of(buffers@)) {
                None => r is Err,
                Some(ms) => r is Ok && r->Ok_0@.map_values(|t: Texture| texture_model(t)) == ms,
            },
    {
        let mut out: Vec<Texture> = Vec::new();
        let mut i: usize = 0;
        while i < textures.len()
            invariant
                i <= textures@.len(),
                textures_read(
                    textures@.take(i as int),
                    images@,
                    samplers@,
                    views@,
                    buffer_views_of(buffers@),
                ) == Some(out@.map_values(|t: Texture| texture_model(t))),
            decreases textures@.len() - i,
        {
            let tex = &textures[i];
            proof {
                assert(textures@.take(i as int + 1).drop_last() =~= textures@.take(i as int));
                assert(textures@.take(i as int + 1).last() == textures@[i as int]);
            }
            let source = match self.texture_source(tex, images, views, buffers) {
                Ok(Some(s)) => s,
                Ok(None) => {
                    i += 1;
                    continue;
                },
                Err(e) => {
                    proof {
                        lemma_textures_read_error(
                            textures@,
                            i as int,
                            images@,
                            samplers@,
                            views@,
                            buffer_views_of(buffers@),
                        );
                    }
                    return Err(e);
                },
            };
            let mut sampler = Sampler::default();
            match tex.sampler {
                Some(si) => {
                    if si < samplers.len() {
                        sampler = sampler_from_gltf(&samplers[si]);
                    }
                },
                None => {},
            }
            let name = match &tex.name {
                Some(n) => n.clone(),
                None => String::new(),
            };
            let ghost before = out@;
            out.push(Texture { name, source, sampler });
            proof {
                assert(out@.map_values(|t: Texture| texture_model(t)) =~= before.map_values(
                    |t: Texture| texture_model(t),
                ).push(texture_model(out@.last())));
            }
            i += 1;
        }
        proof {
            assert(textures@.take(textures@.len() as int) =~= textures@);
        }
        Ok(out)
    }
}

/// Once some texture's image fails to load, reading all textures fails.
pub proof fn lemma_textures_read_error(
    ts: Seq<GltfTexture>,
    i: int,
    images: Seq<Image>,
    samplers: Seq<GltfSampler>,
    views: Seq<BufferView>,
    buffers: Seq<Seq<u8>>,
)
    requires
        0 <= i < ts.len(),
        texture_image(ts[i], images, views, buffers) == Some(None::<ImageModel>),
    ensures
        textures_read(ts, images, samplers, views, buffers) is None,
    decreases ts.len(),
{
    if i < ts.len() - 1 {
        assert(ts.drop_last()[i] == ts[i]);
        lemma_textures_read_error(ts.drop_last(), i, images, samplers, views, buffers);
    }
}

/// The view of an optional byte slice.
pub open spec fn opt_slice(o: Option<&[u8]>) -> Option<Seq<u8>> {
    match o {
        Some(b) => Some(b@),
        None => None,
    }
}

/// The characters of `s` from position `k` on.
fn slice_from(s: &Vec<char>, k: usize) -> (r: Vec<char>)
    requires
        k <= s@.len(),
    ensures
        r@ == s@.skip(k as int),
{
    let mut r: Vec<char> = Vec::new();
    let mut i = k;
    while i < s.len()
        invariant
            k <= i <= s@.len(),
            r@ == s@.subrange(k as int, i as int),
        decreases s@.len() - i,
    {
        r.push(s[i]);
        proof {
            assert(s@.subrange(k as int, i as int + 1) =~= s@.subrange(k as int, i as int).push(
                s@[i as int],
            ));
        }
        i += 1;
    }
    assert(s@.subrange(k as int, s@.len() as int) =~= s@.skip(k as int));
    r
}

/// The first `k` characters of `s`.
fn slice_to(s: &Vec<char>, k: usize) -> (r: Vec<char>)
    requires
        k <= s@.len(),
    ensures
        r@ == s@.take(k as int),
{
    let mut r: Vec<char> = Vec::new();
    let mut i: usize = 0;
    while i < k
        invariant
            i <= k <= s@.len(),
            r@ == s@.take(i as int),
        decreases k - i,
    {
        r.push(s[i]);
        proof {
            assert(s@.take(i as int + 1) =~= s@.take(i as int).push(s@[i as int]));
        }
        i += 1;
    }
    r
}

} // verus!
