//! glTF writing: the binary buffer with its views and accessors, images,
//! samplers and textures, and the embedding of the buffer as a data URI.

use vstd::prelude::*;
use base64::Engine;
use std::collections::HashMap;
use crate::bytes::{
    append_bytes, le_u16, le_u32, lemma_u16_le_roundtrip, lemma_u32_le_roundtrip, push_u16_le,
    push_u32_le, u16_le_bytes, u32_le_bytes,
};
use crate::formats::gltf::reader::{
    accessor_indices, alpha_mode_from, base64_decoded, first_comma, index_value, indices_at,
    sampler_from, texture_image, texture_name, texture_sampler, uri_bytes,
};
use crate::formats::gltf::schema::{
    Accessor, BufferView, Image, Sampler as GltfSampler, Texture as GltfTexture,
    COMPONENT_UNSIGNED_INT, COMPONENT_UNSIGNED_SHORT,
};
use crate::scene::{image_model, AlphaMode, Filter, ImageSource, Sampler, Texture, Wrap};
use crate::text::{concat_str, occurs_at, starts_with_seq};

verus! {

broadcast use vstd::std_specs::hash::group_hash_axioms;

/// Buffer view target for index data: `ELEMENT_ARRAY_BUFFER`.
pub const TARGET_ELEMENT_ARRAY_BUFFER: u32 = 34963;

/// Whether base64 output for `len` input bytes fits in memory.
pub open spec fn base64_len_fits(len: nat) -> bool {
    len / 3 * 4 + (if len % 3 > 0 {
        4int
    } else {
        0
    }) <= usize::MAX
}

/// The standard base64 text (RFC 4648 alphabet, with padding) of `bytes`.
pub uninterp spec fn base64_encoded(bytes: Seq<u8>) -> Seq<char>;

/// Calls `base64::engine::general_purpose::STANDARD.encode`. The result is
/// the named encoding, and decoding it gives the input back (the crate's
/// round-trip property). The call panics only when the output length
/// overflows `usize`, which `requires` rules out.
#[verifier::external_body]
fn base64_encode(data: &[u8]) -> (r: String)
    requires
        base64_len_fits(data@.len()),
    ensures
        r@ == base64_encoded(data@),
        base64_decoded(r@) == Some(data@),
{
    base64::engine::general_purpose::STANDARD.encode(data)
}

/// The data URI that embeds a buffer in a JSON glTF file.
pub open spec fn buffer_data_uri(bytes: Seq<u8>) -> Seq<char> {
    "data:application/octet-stream;base64,"@ + base64_encoded(bytes)
}

/// The data URI that embeds `data` as an octet stream.
pub fn data_uri(data: &[u8]) -> (r: String)
    requires
        base64_len_fits(data@.len()),
    ensures
        r@ == buffer_data_uri(data@),
        base64_decoded(base64_encoded(data@)) == Some(data@),
{
    let encoded = base64_encode(data);
    concat_str("data:application/octet-stream;base64,", encoded.as_str())
}

/// Writer for glTF 2.0 files.
pub struct GltfWriter;

impl GltfWriter {
    /// Create a new glTF writer.
    pub fn new() -> Self {
        GltfWriter
    }

    /// The format name.
    pub fn name(&self) -> (r: &'static str)
        ensures
            r@ == "gltf"@,
    {
        "gltf"
    }

    /// The primary file extension.
    pub fn extension(&self) -> (r: &'static str)
        ensures
            r@ == "glb"@,
    {
        "glb"
    }
}

/// The glTF code of a texture filter.
pub open spec fn filter_code(f: Filter) -> u32 {
    match f {
        Filter::Nearest => 9728,
        Filter::Linear => 9729,
    }
}

/// The glTF code of a wrap mode.
pub open spec fn wrap_code(w: Wrap) -> u32 {
    match w {
        Wrap::ClampToEdge => 33071,
        Wrap::Repeat => 10497,
        Wrap::MirroredRepeat => 33648,
    }
}

/// The glTF code of a texture filter.
pub fn filter_to_gltf(f: Filter) -> (r: u32)
    ensures
        r == filter_code(f),
{
    match f {
        Filter::Nearest => 9728,
        Filter::Linear => 9729,
    }
}

/// The glTF code of a wrap mode.
pub fn wrap_to_gltf(w: Wrap) -> (r: u32)
    ensures
        r == wrap_code(w),
{
    match w {
        Wrap::ClampToEdge => 33071,
        Wrap::Repeat => 10497,
        Wrap::MirroredRepeat => 33648,
    }
}

/// The glTF sampler for scene sampler settings: both filters given, no name.
pub fn sampler_to_gltf(s: &Sampler) -> (r: GltfSampler)
    ensures
        r.mag_filter == Some(filter_code(s.mag_filter)),
        r.min_filter == Some(filter_code(s.min_filter)),
        r.wrap_s == wrap_code(s.wrap_u),
        r.wrap_t == wrap_code(s.wrap_v),
        r.name is None,
{
    GltfSampler {
        mag_filter: Some(filter_to_gltf(s.mag_filter)),
        min_filter: Some(filter_to_gltf(s.min_filter)),
        wrap_s: wrap_to_gltf(s.wrap_u),
        wrap_t: wrap_to_gltf(s.wrap_v),
        name: None,
    }
}

/// The glTF name of an alpha mode.
pub open spec fn alpha_mode_text(m: AlphaMode) -> Seq<char> {
    match m {
        AlphaMode::Opaque => "OPAQUE"@,
        AlphaMode::Mask => "MASK"@,
        AlphaMode::Blend => "BLEND"@,
    }
}

/// The glTF name of an alpha mode.
pub fn alpha_mode_name(m: AlphaMode) -> (r: String)
    ensures
        r@ == alpha_mode_text(m),
{
    match m {
        AlphaMode::Opaque => String::from_str("OPAQUE"),
        AlphaMode::Mask => String::from_str("MASK"),
        AlphaMode::Blend => String::from_str("BLEND"),
    }
}

/// The largest of `s`, or 0 for an empty sequence.
pub open spec fn max_index(s: Seq<u32>) -> u32
    decreases s.len(),
{
    if s.len() == 0 {
        0
    } else {
        let m = max_index(s.drop_last());
        if s.last() > m {
            s.last()
        } else {
            m
        }
    }
}

/// Each index as two little-endian bytes.
pub open spec fn indices_as_u16(s: Seq<u32>) -> Seq<u8>
    decreases s.len(),
{
    if s.len() == 0 {
        Seq::empty()
    } else {
        indices_as_u16(s.drop_last()) + u16_le_bytes(s.last() as u16)
    }
}

/// Each index as four little-endian bytes.
pub open spec fn indices_as_u32(s: Seq<u32>) -> Seq<u8>
    decreases s.len(),
{
    if s.len() == 0 {
        Seq::empty()
    } else {
        indices_as_u32(s.drop_last()) + u32_le_bytes(s.last())
    }
}

/// Whether index data is written with 16-bit components: when no index
/// exceeds `u16::MAX`.
pub open spec fn indices_fit_u16(s: Seq<u32>) -> bool {
    max_index(s) <= 65535
}

/// The bytes written for index data.
pub open spec fn index_bytes(s: Seq<u32>) -> Seq<u8> {
    if indices_fit_u16(s) {
        indices_as_u16(s)
    } else {
        indices_as_u32(s)
    }
}

/// The component type written for index data.
pub open spec fn index_component_type(s: Seq<u32>) -> u32 {
    if indices_fit_u16(s) {
        COMPONENT_UNSIGNED_SHORT
    } else {
        COMPONENT_UNSIGNED_INT
    }
}

/// The largest index, or 0 for none.
fn max_of(indices: &[u32]) -> (r: u32)
    ensures
        r == max_index(indices@),
{
    let mut m: u32 = 0;
    let mut i: usize = 0;
    while i < indices.len()
        invariant
            i <= indices@.len(),
            m == max_index(indices@.take(i as int)),
        decreases indices@.len() - i,
    {
        proof {
            assert(indices@.take(i as int + 1).drop_last() =~= indices@.take(i as int));
        }
        if indices[i] > m {
            m = indices[i];
        }
        i += 1;
    }
    proof {
        assert(indices@.take(indices@.len() as int) =~= indices@);
    }
    m
}

/// The buffer under construction with its views and accessors, and the
/// images, samplers and textures that refer into it.
pub struct ResourceBuilder {
    /// The binary buffer.
    pub buffer_data: Vec<u8>,
    /// Buffer views, all into buffer 0.
    pub buffer_views: Vec<BufferView>,
    /// Accessors.
    pub accessors: Vec<Accessor>,
    /// Images.
    pub images: Vec<Image>,
    /// Samplers.
    pub samplers: Vec<GltfSampler>,
    /// Textures.
    pub textures: Vec<GltfTexture>,
    /// Which glTF texture each scene texture became.
    pub texture_map: HashMap<usize, usize>,
}

impl ResourceBuilder {
    /// An empty builder.
    pub fn new() -> (r: Self)
        ensures
            r.buffer_data@.len() == 0,
            r.buffer_views@.len() == 0,
            r.accessors@.len() == 0,
            r.images@.len() == 0,
            r.samplers@.len() == 0,
            r.textures@.len() == 0,
            r.texture_map@ == Map::<usize, usize>::empty(),
    {
        ResourceBuilder {
            buffer_data: Vec::new(),
            buffer_views: Vec::new(),
            accessors: Vec::new(),
            images: Vec::new(),
            samplers: Vec::new(),
            textures: Vec::new(),
            texture_map: HashMap::new(),
        }
    }

    /// Append index data to the buffer, with 16-bit components when every
    /// index fits and 32-bit ones otherwise, and add a view (target: element
    /// array buffer) and a `SCALAR` accessor for it. Returns the accessor's
    /// index.
    pub fn add_accessor_indices(&mut self, indices: &[u32]) -> (r: usize)
        requires
            old(self).buffer_data@.len() + 4 * indices@.len() <= usize::MAX,
        ensures
            r == old(self).accessors@.len(),
            final(self).buffer_data@ == old(self).buffer_data@ + index_bytes(indices@),
            final(self).buffer_views@.len() == old(self).buffer_views@.len() + 1,
            final(self).buffer_views@.take(old(self).buffer_views@.len() as int)
                == old(self).buffer_views@,
            ({
                let v = final(self).buffer_views@.last();
                &&& v.buffer == 0
                &&& v.byte_offset == old(self).buffer_data@.len()
                &&& v.byte_length == index_bytes(indices@).len()
                &&& v.byte_stride is None
                &&& v.target == Some(TARGET_ELEMENT_ARRAY_BUFFER)
                &&& v.name is None
            }),
            final(self).accessors@.len() == old(self).accessors@.len() + 1,
            final(self).accessors@.take(old(self).accessors@.len() as int)
                == old(self).accessors@,
            ({
                let a = final(self).accessors@.last();
                &&& a.buffer_view == Some(old(self).buffer_views@.len() as usize)
                &&& a.byte_offset == 0
                &&& a.component_type == index_component_type(indices@)
                &&& a.count == indices@.len()
                &&& a.accessor_type@ == "SCALAR"@
                &&& !a.normalized
                &&& a.name is None
            }),
            final(self).images == old(self).images,
            final(self).samplers == old(self).samplers,
            final(self).textures == old(self).textures,
            final(self).texture_map@ == old(self).texture_map@,
    {
        let byte_offset = self.buffer_data.len();
        let max_index = max_of(indices);
        let ghost start = self.buffer_data@;
        let component_type;
        let byte_length;
        if max_index <= 65535 {
            let mut i: usize = 0;
            while i < indices.len()
                invariant
                    i <= indices@.len(),
                    self.buffer_data@ == start + indices_as_u16(indices@.take(i as int)),
                    start.len() + 4 * indices@.len() <= usize::MAX,
                    self.buffer_views == old(self).buffer_views,
                    self.accessors == old(self).accessors,
                    self.images == old(self).images,
                    self.samplers == old(self).samplers,
                    self.textures == old(self).textures,
                    self.texture_map == old(self).texture_map,
                decreases indices@.len() - i,
            {
                proof {
                    assert(indices@.take(i as int + 1).drop_last() =~= indices@.take(i as int));
                    lemma_u16_len(indices@.take(i as int));
                }
                push_u16_le(&mut self.buffer_data, indices[i] as u16);
                proof {
                    assert(start + indices_as_u16(indices@.take(i as int + 1)) =~= start
                        + indices_as_u16(indices@.take(i as int)) + u16_le_bytes(indices[i as int] as u16));
                }
                i += 1;
            }
            proof {
                assert(indices@.take(indices@.len() as int) =~= indices@);
                lemma_u16_len(indices@);
            }
            component_type = COMPONENT_UNSIGNED_SHORT;
            byte_length = indices.len() * 2;
        } else {
            let mut i: usize = 0;
            while i < indices.len()
                invariant
                    i <= indices@.len(),
                    self.buffer_data@ == start + indices_as_u32(indices@.take(i as int)),
                    start.len() + 4 * indices@.len() <= usize::MAX,
                    self.buffer_views == old(self).buffer_views,
                    self.accessors == old(self).accessors,
                    self.images == old(self).images,
                    self.samplers == old(self).samplers,
                    self.textures == old(self).textures,
                    self.texture_map == old(self).texture_map,
                decreases indices@.len() - i,
            {
                proof {
                    assert(indices@.take(i as int + 1).drop_last() =~= indices@.take(i as int));
                    lemma_u32_len(indices@.take(i as int));
                }
                push_u32_le(&mut self.buffer_data, indices[i]);
                proof {
                    assert(start + indices_as_u32(indices@.take(i as int + 1)) =~= start
                        + indices_as_u32(indices@.take(i as int)) + u32_le_bytes(indices[i as int]));
                }
                i += 1;
            }
            proof {
                assert(indices@.take(indices@.len() as int) =~= indices@);
                lemma_u32_len(indices@);
            }
            component_type = COMPONENT_UNSIGNED_INT;
            byte_length = indices.len() * 4;
        }
        let buffer_view_idx = self.buffer_views.len();
        self.buffer_views.push(
            BufferView {
                buffer: 0,
                byte_offset,
                byte_length,
                byte_stride: None,
                target: Some(TARGET_ELEMENT_ARRAY_BUFFER),
                name: None,
            },
        );
        let accessor_idx = self.accessors.len();
        self.accessors.push(
            Accessor {
                buffer_view: Some(buffer_view_idx),
                byte_offset: 0,
                component_type,
                count: indices.len(),
                accessor_type: String::from_str("SCALAR"),
                normalized: false,
                name: None,
            },
        );
        proof {
            assert(self.buffer_views@.take(old(self).buffer_views@.len() as int)
                =~= old(self).buffer_views@);
            assert(self.accessors@.take(old(self).accessors@.len() as int) =~= old(self).accessors@);
        }
        accessor_idx
    }
}

/// The image written for an image source: embedded bytes go to a new
/// buffer view (the next one after `view_count`), a reference keeps its URI.
pub open spec fn image_written(img: Image, src: ImageSource, view_count: nat) -> bool {
    match src {
        ImageSource::Embedded { mime_type, data } => {
            &&& img.uri is None
            &&& img.mime_type matches Some(m) && m@ == mime_type@
            &&& img.buffer_view == Some(view_count as usize)
        },
        ImageSource::External { uri } => {
            &&& img.uri matches Some(u) && u@ == uri@
            &&& img.mime_type is None
            &&& img.buffer_view is None
        },
    }
}

/// The view written for embedded image bytes placed at `offset`.
pub open spec fn image_view_written(v: BufferView, offset: nat, len: nat) -> bool {
    &&& v.buffer == 0
    &&& v.byte_offset == offset
    &&& v.byte_length == len
    &&& v.byte_stride is None
    &&& v.target is None
    &&& v.name is None
}

/// The bytes an image source adds to the buffer.
pub open spec fn image_bytes(src: ImageSource) -> Seq<u8> {
    match src {
        ImageSource::Embedded { data, .. } => data@,
        ImageSource::External { .. } => Seq::empty(),
    }
}

impl ResourceBuilder {
    /// Add an image: embedded bytes are appended to the buffer behind a new
    /// buffer view; a reference keeps its URI. Returns the image's index.
    pub fn add_image(&mut self, source: &ImageSource) -> (r: usize)
        requires
            old(self).buffer_data@.len() + image_bytes(*source).len() <= usize::MAX,
        ensures
            r == old(self).images@.len(),
            final(self).images@.len() == old(self).images@.len() + 1,
            final(self).images@.take(r as int) == old(self).images@,
            image_written(final(self).images@[r as int], *source, old(self).buffer_views@.len()),
            final(self).buffer_data@ == old(self).buffer_data@ + image_bytes(*source),
            source is Embedded ==> final(self).buffer_views@.len() == old(self).buffer_views@.len()
                + 1 && final(self).buffer_views@.take(old(self).buffer_views@.len() as int)
                == old(self).buffer_views@ && image_view_written(
                final(self).buffer_views@.last(),
                old(self).buffer_data@.len(),
                image_bytes(*source).len(),
            ),
            source is External ==> final(self).buffer_views == old(self).buffer_views,
            final(self).accessors == old(self).accessors,
            final(self).samplers == old(self).samplers,
            final(self).textures == old(self).textures,
            final(self).texture_map@ == old(self).texture_map@,
    {
        let image = match source {
            ImageSource::Embedded { mime_type, data } => {
                let byte_offset = self.buffer_data.len();
                append_bytes(&mut self.buffer_data, data.as_slice());
                let byte_length = data.len();
                let buffer_view_idx = self.buffer_views.len();
                self.buffer_views.push(
                    BufferView {
                        buffer: 0,
                        byte_offset,
                        byte_length,
                        byte_stride: None,
                        target: None,
                        name: None,
                    },
                );
                proof {
                    assert(self.buffer_views@.take(old(self).buffer_views@.len() as int)
                        =~= old(self).buffer_views@);
                }
                Image {
                    uri: None,
                    mime_type: Some(mime_type.clone()),
                    buffer_view: Some(buffer_view_idx),
                    name: None,
                }
            },
            ImageSource::External { uri } => {
                proof {
                    assert(self.buffer_data@ =~= old(self).buffer_data@ + image_bytes(*source));
                }
                Image { uri: Some(uri.clone()), mime_type: None, buffer_view: None, name: None }
            },
        };
        let image_idx = self.images.len();
        self.images.push(image);
        proof {
            assert(self.images@.take(image_idx as int) =~= old(self).images@);
        }
        image_idx
    }

    /// Add a sampler for scene sampler settings. Returns its index.
    pub fn add_sampler(&mut self, sampler: &Sampler) -> (r: usize)
        ensures
            r == old(self).samplers@.len(),
            final(self).samplers@.len() == old(self).samplers@.len() + 1,
            final(self).samplers@.take(r as int) == old(self).samplers@,
            ({
                let s = final(self).samplers@[r as int];
                &&& s.mag_filter == Some(filter_code(sampler.mag_filter))
                &&& s.min_filter == Some(filter_code(sampler.min_filter))
                &&& s.wrap_s == wrap_code(sampler.wrap_u)
                &&& s.wrap_t == wrap_code(sampler.wrap_v)
                &&& s.name is None
            }),
            final(self).buffer_data == old(self).buffer_data,
            final(self).buffer_views == old(self).buffer_views,
            final(self).accessors == old(self).accessors,
            final(self).images == old(self).images,
            final(self).textures == old(self).textures,
            final(self).texture_map@ == old(self).texture_map@,
    {
        let gltf_sampler = sampler_to_gltf(sampler);
        let sampler_idx = self.samplers.len();
        self.samplers.push(gltf_sampler);
        proof {
            assert(self.samplers@.take(sampler_idx as int) =~= old(self).samplers@);
        }
        sampler_idx
    }

    /// Add a texture with its image and sampler. Returns the texture's index.
    pub fn add_texture(&mut self, texture: &Texture) -> (r: usize)
        requires
            old(self).buffer_data@.len() + image_bytes(texture.source).len() <= usize::MAX,
        ensures
            r == old(self).textures@.len(),
            final(self).textures@.len() == old(self).textures@.len() + 1,
            final(self).textures@.take(r as int) == old(self).textures@,
            final(self).images@.len() == old(self).images@.len() + 1,
            final(self).images@.take(old(self).images@.len() as int) == old(self).images@,
            image_written(final(self).images@.last(), texture.source, old(self).buffer_views@.len()),
            final(self).buffer_data@ == old(self).buffer_data@ + image_bytes(texture.source),
            texture.source is Embedded ==> final(self).buffer_views@.len()
                == old(self).buffer_views@.len() + 1 && final(self).buffer_views@.take(
                old(self).buffer_views@.len() as int,
            ) == old(self).buffer_views@ && image_view_written(
                final(self).buffer_views@.last(),
                old(self).buffer_data@.len(),
                image_bytes(texture.source).len(),
            ),
            texture.source is External ==> final(self).buffer_views == old(self).buffer_views,
            final(self).samplers@.len() == old(self).samplers@.len() + 1,
            final(self).samplers@.take(old(self).samplers@.len() as int) == old(self).samplers@,
            ({
                let s = final(self).samplers@.last();
                &&& s.mag_filter == Some(filter_code(texture.sampler.mag_filter))
                &&& s.min_filter == Some(filter_code(texture.sampler.min_filter))
                &&& s.wrap_s == wrap_code(texture.sampler.wrap_u)
                &&& s.wrap_t == wrap_code(texture.sampler.wrap_v)
            }),
            ({
                let t = final(self).textures@[r as int];
                &&& t.sampler == Some(old(self).samplers@.len() as usize)
                &&& t.source == Some(old(self).images@.len() as usize)
                &&& if texture.name@.len() == 0 {
                    t.name is None
                } else {
                    t.name matches Some(n) && n@ == texture.name@
                }
            }),
            final(self).accessors == old(self).accessors,
            final(self).texture_map@ == old(self).texture_map@,
    {
        let image_idx = self.add_image(&texture.source);
        let sampler_idx = self.add_sampler(&texture.sampler);
        let texture_idx = self.textures.len();
        let name = if texture.name.as_str().unicode_len() == 0 {
            None
        } else {
            Some(texture.name.clone())
        };
        self.textures.push(GltfTexture { sampler: Some(sampler_idx), source: Some(image_idx), name });
        proof {
            assert(self.textures@.take(texture_idx as int) =~= old(self).textures@);
        }
        texture_idx
    }

    /// The glTF texture for scene texture `scene_tex_idx`, adding it the
    /// first time it is asked for.
    pub fn ensure_texture(&mut self, scene_textures: &[Texture], scene_tex_idx: usize) -> (r: usize)
        requires
            scene_tex_idx < scene_textures@.len(),
            old(self).buffer_data@.len() + image_bytes(
                scene_textures@[scene_tex_idx as int].source,
            ).len() <= usize::MAX,
        ensures
            old(self).texture_map@.contains_key(scene_tex_idx) ==> r == old(
                self,
            ).texture_map@[scene_tex_idx] && final(self).textures == old(self).textures,
            !old(self).texture_map@.contains_key(scene_tex_idx) ==> r == old(self).textures@.len()
                && final(self).textures@.len() == old(self).textures@.len() + 1,
            final(self).texture_map@ == old(self).texture_map@.insert(scene_tex_idx, r),
    {
        match self.texture_map.get(&scene_tex_idx) {
            Some(idx) => {
                let i = *idx;
                proof {
                    assert(self.texture_map@.insert(scene_tex_idx, i) =~= self.texture_map@);
                }
                return i;
            },
            None => {},
        }
        let idx = self.add_texture(&scene_textures[scene_tex_idx]);
        self.texture_map.insert(scene_tex_idx, idx);
        idx
    }
}

/// Sixteen-bit index data takes two bytes per index.
pub proof fn lemma_u16_len(s: Seq<u32>)
    ensures
        indices_as_u16(s).len() == 2 * s.len(),
    decreases s.len(),
{
    if s.len() > 0 {
        lemma_u16_len(s.drop_last());
    }
}

/// Thirty-two-bit index data takes four bytes per index.
pub proof fn lemma_u32_len(s: Seq<u32>)
    ensures
        indices_as_u32(s).len() == 4 * s.len(),
    decreases s.len(),
{
    if s.len() > 0 {
        lemma_u32_len(s.drop_last());
    }
}

/// Every index is at most the largest one.
pub proof fn lemma_max_index(s: Seq<u32>, k: int)
    requires
        0 <= k < s.len(),
    ensures
        s[k] <= max_index(s),
    decreases s.len(),
{
    if k < s.len() - 1 {
        lemma_max_index(s.drop_last(), k);
    }
}

/// The sixteen-bit encoding holds index `k` at byte `2k`.
pub proof fn lemma_u16_at(s: Seq<u32>, k: int)
    requires
        0 <= k < s.len(),
    ensures
        le_u16(indices_as_u16(s), 2 * k) == s[k] as u16,
    decreases s.len(),
{
    let p = indices_as_u16(s.drop_last());
    lemma_u16_len(s.drop_last());
    let b = u16_le_bytes(s.last() as u16);
    assert(indices_as_u16(s) == p + b);
    if k < s.len() - 1 {
        lemma_u16_at(s.drop_last(), k);
        assert((p + b)[2 * k] == p[2 * k]);
        assert((p + b)[2 * k + 1] == p[2 * k + 1]);
    } else {
        lemma_u16_le_roundtrip(s.last() as u16);
        assert((p + b)[2 * k] == b[0]);
        assert((p + b)[2 * k + 1] == b[1]);
    }
}

/// The thirty-two-bit encoding holds index `k` at byte `4k`.
pub proof fn lemma_u32_at(s: Seq<u32>, k: int)
    requires
        0 <= k < s.len(),
    ensures
        le_u32(indices_as_u32(s), 4 * k) == s[k],
    decreases s.len(),
{
    let p = indices_as_u32(s.drop_last());
    lemma_u32_len(s.drop_last());
    let b = u32_le_bytes(s.last());
    assert(indices_as_u32(s) == p + b);
    if k < s.len() - 1 {
        lemma_u32_at(s.drop_last(), k);
        assert((p + b)[4 * k] == p[4 * k]);
        assert((p + b)[4 * k + 1] == p[4 * k + 1]);
        assert((p + b)[4 * k + 2] == p[4 * k + 2]);
        assert((p + b)[4 * k + 3] == p[4 * k + 3]);
    } else {
        lemma_u32_le_roundtrip(s.last());
        assert((p + b)[4 * k] == b[0]);
        assert((p + b)[4 * k + 1] == b[1]);
        assert((p + b)[4 * k + 2] == b[2]);
        assert((p + b)[4 * k + 3] == b[3]);
    }
}

/// Index data written after any earlier buffer contents, with the view and
/// accessor that `add_accessor_indices` adds for it, reads back through
/// `read_accessor_indices` (whose result is `accessor_indices`) as exactly
/// the indices written.
pub proof fn lemma_indices_roundtrip(
    accessors: Seq<Accessor>,
    views: Seq<BufferView>,
    data: Seq<u8>,
    indices: Seq<u32>,
    acc: Accessor,
    view: BufferView,
)
    requires
        acc.buffer_view == Some(views.len() as usize),
        views.len() <= usize::MAX,
        acc.byte_offset == 0,
        acc.component_type == index_component_type(indices),
        acc.count == indices.len(),
        acc.accessor_type@ == "SCALAR"@,
        view.buffer == 0,
        view.byte_offset == data.len(),
        view.byte_stride is None,
    ensures
        accessor_indices(
            accessors.push(acc),
            views.push(view),
            seq![data + index_bytes(indices)],
            accessors.len() as int,
        ) == Some(indices),
{
    let accs = accessors.push(acc);
    let vs = views.push(view);
    let buf = data + index_bytes(indices);
    let bufs = seq![buf];
    let n = indices.len() as int;
    let start = data.len() as int;
    assert(accs[accessors.len() as int] == acc);
    assert(vs[views.len() as int] == view);
    assert(bufs[0] == buf);
    if indices_fit_u16(indices) {
        lemma_u16_len(indices);
        assert forall|i: int| 0 <= i < n implies #[trigger] (start + i * 2) + 2 <= buf.len() by {
        }
        assert forall|i: int| 0 <= i < n implies index_value(buf, start + i * 2, 2)
            == indices[i] by {
            lemma_u16_at(indices, i);
            lemma_max_index(indices, i);
            assert(buf[start + i * 2] == index_bytes(indices)[2 * i]);
            assert(buf[start + i * 2 + 1] == index_bytes(indices)[2 * i + 1]);
        }
        assert(indices_at(buf, start, 2, 2, n) =~= indices);
    } else {
        lemma_u32_len(indices);
        assert forall|i: int| 0 <= i < n implies #[trigger] (start + i * 4) + 4 <= buf.len() by {
        }
        assert forall|i: int| 0 <= i < n implies index_value(buf, start + i * 4, 4)
            == indices[i] by {
            lemma_u32_at(indices, i);
            assert(buf[start + i * 4] == index_bytes(indices)[4 * i]);
            assert(buf[start + i * 4 + 1] == index_bytes(indices)[4 * i + 1]);
            assert(buf[start + i * 4 + 2] == index_bytes(indices)[4 * i + 2]);
            assert(buf[start + i * 4 + 3] == index_bytes(indices)[4 * i + 3]);
        }
        assert(indices_at(buf, start, 4, 4, n) =~= indices);
    }
}

/// Sampler settings written to glTF read back unchanged.
pub proof fn lemma_sampler_roundtrip(s: Sampler, g: GltfSampler)
    requires
        g.mag_filter == Some(filter_code(s.mag_filter)),
        g.min_filter == Some(filter_code(s.min_filter)),
        g.wrap_s == wrap_code(s.wrap_u),
        g.wrap_t == wrap_code(s.wrap_v),
    ensures
        sampler_from(g) == s,
{
}

/// An alpha mode written by its glTF name reads back unchanged.
pub proof fn lemma_alpha_mode_roundtrip(m: AlphaMode)
    ensures
        alpha_mode_from(alpha_mode_text(m)) == m,
{
    reveal_strlit("OPAQUE");
    reveal_strlit("MASK");
    reveal_strlit("BLEND");
    assert("OPAQUE"@[0] != "MASK"@[0]);
    assert("OPAQUE"@[0] != "BLEND"@[0]);
    assert("MASK"@[0] != "BLEND"@[0]);
}

/// A buffer embedded as a data URI loads back as the same bytes, given the
/// base64 round trip that `data_uri` guarantees for them.
pub proof fn lemma_data_uri_roundtrip(bytes: Seq<u8>)
    requires
        base64_decoded(base64_encoded(bytes)) == Some(bytes),
    ensures
        uri_bytes(buffer_data_uri(bytes)) == Some(bytes),
{
    let head = "data:application/octet-stream;base64,"@;
    reveal_strlit("data:application/octet-stream;base64,");
    reveal_strlit("data:");
    reveal_strlit(";base64");
    let uri = buffer_data_uri(bytes);
    assert(head.len() == 37);
    assert(uri.subrange(0, 5) =~= "data:"@);
    assert(uri[36] == ',');
    assert forall|j: int| 0 <= j < 36 implies uri[j] != ',' by {
        assert(uri[j] == head[j]);
    }
    let c = choose|c: int|
        0 <= c < uri.len() && uri[c] == ',' && forall|j: int| 0 <= j < c ==> uri[j] != ',';
    assert(0 <= c < uri.len() && uri[c] == ',' && forall|j: int| 0 <= j < c ==> uri[j] != ',');
    if c < 36 {
        assert(uri[c] != ',');
    }
    if c > 36 {
        assert(uri[36] != ',');
    }
    assert(first_comma(uri) == Some(36int));
    assert(uri.take(36).subrange(29, 36) =~= ";base64"@);
    assert(occurs_at(uri.take(36), ";base64"@, 29));
    assert(uri.skip(37) =~= base64_encoded(bytes));
}

/// A texture written with `add_texture` reads back as the same texture:
/// its name, its sampler settings and its image (embedded bytes with their
/// MIME type, or the reference URI), when read from the images, samplers,
/// views and buffer as they are after the call. A reference whose URI is
/// itself a data URI is read as embedded data, so such URIs are left out.
pub proof fn lemma_texture_roundtrip(
    t: Texture,
    tex: GltfTexture,
    images: Seq<Image>,
    samplers: Seq<GltfSampler>,
    views: Seq<BufferView>,
    old_data: Seq<u8>,
    old_view_count: nat,
)
    requires
        tex.source matches Some(si) && si as int == images.len() - 1,
        tex.sampler matches Some(si) && si as int == samplers.len() - 1,
        old_view_count <= usize::MAX,
        if t.name@.len() == 0 {
            tex.name is None
        } else {
            tex.name matches Some(n) && n@ == t.name@
        },
        image_written(images.last(), t.source, old_view_count),
        ({
            let g = samplers.last();
            &&& g.mag_filter == Some(filter_code(t.sampler.mag_filter))
            &&& g.min_filter == Some(filter_code(t.sampler.min_filter))
            &&& g.wrap_s == wrap_code(t.sampler.wrap_u)
            &&& g.wrap_t == wrap_code(t.sampler.wrap_v)
        }),
        t.source is Embedded ==> views.len() == old_view_count + 1 && image_view_written(
            views.last(),
            old_data.len(),
            image_bytes(t.source).len(),
        ),
        t.source matches ImageSource::External { uri } ==> !starts_with_seq(uri@, "data:"@),
    ensures
        texture_image(tex, images, views, seq![old_data + image_bytes(t.source)]) == Some(
            Some(image_model(t.source)),
        ),
        texture_sampler(tex, samplers) == t.sampler,
        texture_name(tex) == t.name@,
{
    let buf = old_data + image_bytes(t.source);
    let img = images.last();
    assert(images[images.len() - 1] == img);
    lemma_sampler_roundtrip(t.sampler, samplers.last());
    assert(samplers[samplers.len() - 1] == samplers.last());
    match t.source {
        ImageSource::Embedded { mime_type, data } => {
            assert(seq![buf][0] == buf);
            assert(views[old_view_count as int] == views.last());
            assert(buf.subrange(old_data.len() as int, old_data.len() + data@.len() as int) =~= data@);
        },
        ImageSource::External { uri } => {},
    }
    if t.name@.len() == 0 {
        assert(t.name@ =~= Seq::<char>::empty());
    }
}

} // verus!
