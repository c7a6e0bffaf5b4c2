//! glTF 2.0 document objects, as far as the conversion logic reads them.
//!
//! Indices into the document's arrays are plain `usize` values; strings are
//! kept as `String`. Objects whose fields are floating-point factors
//! (nodes' transforms, material factors, accessor bounds, cameras) live with
//! the serialising side of the crate.

use vstd::prelude::*;
use crate::text::str_eq;

verus! {

/// Component type `BYTE`.
pub const COMPONENT_BYTE: u32 = 5120;
/// Component type `UNSIGNED_BYTE`.
pub const COMPONENT_UNSIGNED_BYTE: u32 = 5121;
/// Component type `SHORT`.
pub const COMPONENT_SHORT: u32 = 5122;
/// Component type `UNSIGNED_SHORT`.
pub const COMPONENT_UNSIGNED_SHORT: u32 = 5123;
/// Component type `UNSIGNED_INT`.
pub const COMPONENT_UNSIGNED_INT: u32 = 5125;
/// Component type `FLOAT`.
pub const COMPONENT_FLOAT: u32 = 5126;

/// Primitive mode `TRIANGLES`.
pub const MODE_TRIANGLES: u32 = 4;
/// Wrap mode `REPEAT`.
pub const WRAP_REPEAT: u32 = 10497;

/// Asset metadata.
#[derive(Debug, Clone)]
pub struct Asset {
    /// glTF version.
    pub version: String,
    /// Minimum glTF version required.
    pub min_version: Option<String>,
    /// Generator name.
    pub generator: Option<String>,
    /// Copyright.
    pub copyright: Option<String>,
}

impl Default for Asset {
    /// Version "2.0" and nothing else.
    fn default() -> (r: Self)
        ensures
            r.version@ == "2.0"@,
            r.min_version is None,
            r.generator is None,
            r.copyright is None,
    {
        Asset {
            version: String::from_str("2.0"),
            min_version: None,
            generator: None,
            copyright: None,
        }
    }
}

/// A scene containing root nodes.
#[derive(Debug, Clone)]
pub struct Scene {
    /// Scene name.
    pub name: Option<String>,
    /// Root node indices.
    pub nodes: Vec<usize>,
}

impl Default for Scene {
    /// No name and no root nodes.
    fn default() -> (r: Self)
        ensures
            r.name is None,
            r.nodes@.len() == 0,
    {
        Scene { name: None, nodes: Vec::new() }
    }
}

/// A mesh primitive.
#[derive(Debug, Clone)]
pub struct Primitive {
    /// Vertex attributes (`POSITION`, `NORMAL`, `TEXCOORD_0`, ...), each
    /// naming an accessor.
    pub attributes: Vec<(String, usize)>,
    /// Index accessor.
    pub indices: Option<usize>,
    /// Material index.
    pub material: Option<usize>,
    /// Rendering mode (0 = points, 1 = lines, 4 = triangles, ...).
    pub mode: u32,
    /// Morph targets.
    pub targets: Option<Vec<Vec<(String, usize)>>>,
}

/// The accessor that the first attribute named `name` refers to.
pub open spec fn attribute_of(attrs: Seq<(String, usize)>, name: Seq<char>) -> Option<usize>
    decreases attrs.len(),
{
    if attrs.len() == 0 {
        None
    } else if attrs[0].0@ == name {
        Some(attrs[0].1)
    } else {
        attribute_of(attrs.drop_first(), name)
    }
}

impl Primitive {
    /// The accessor of the attribute named `name`, if the primitive has one.
    pub fn attribute(&self, name: &str) -> (r: Option<usize>)
        ensures
            r == attribute_of(self.attributes@, name@),
    {
        let mut i: usize = 0;
        assert(self.attributes@.skip(0) =~= self.attributes@);
        while i < self.attributes.len()
            invariant
                i <= self.attributes@.len(),
                attribute_of(self.attributes@, name@)
                    == attribute_of(self.attributes@.skip(i as int), name@),
            decreases self.attributes@.len() - i,
        {
            proof {
                assert(self.attributes@.skip(i as int).drop_first()
                    =~= self.attributes@.skip(i as int + 1));
            }
            if str_eq(self.attributes[i].0.as_str(), name) {
                return Some(self.attributes[i].1);
            }
            i += 1;
        }
        None
    }
}

/// The primitive mode a document gets when it names none: triangles.
pub fn default_primitive_mode() -> (r: u32)
    ensures
        r == MODE_TRIANGLES,
{
    MODE_TRIANGLES
}

/// Where an accessor's elements lie and how they are typed.
#[derive(Debug, Clone)]
pub struct Accessor {
    /// Buffer view index.
    pub buffer_view: Option<usize>,
    /// Byte offset within the buffer view.
    pub byte_offset: usize,
    /// Component type (`COMPONENT_*`).
    pub component_type: u32,
    /// Number of elements.
    pub count: usize,
    /// Element type ("SCALAR", "VEC2", "VEC3", "VEC4", "MAT2", "MAT3", "MAT4").
    pub accessor_type: String,
    /// Whether values are normalized.
    pub normalized: bool,
    /// Accessor name.
    pub name: Option<String>,
}

/// Byte size of one component of the given type; 4 for unknown types.
pub open spec fn component_size_of(component_type: u32) -> nat {
    if component_type == COMPONENT_BYTE || component_type == COMPONENT_UNSIGNED_BYTE {
        1
    } else if component_type == COMPONENT_SHORT || component_type == COMPONENT_UNSIGNED_SHORT {
        2
    } else {
        4
    }
}

/// Components per element of the given element type; 1 for unknown types.
pub open spec fn component_count_of(accessor_type: Seq<char>) -> nat {
    if accessor_type == "SCALAR"@ {
        1
    } else if accessor_type == "VEC2"@ {
        2
    } else if accessor_type == "VEC3"@ {
        3
    } else if accessor_type == "VEC4"@ {
        4
    } else if accessor_type == "MAT2"@ {
        4
    } else if accessor_type == "MAT3"@ {
        9
    } else if accessor_type == "MAT4"@ {
        16
    } else {
        1
    }
}

impl Accessor {
    /// Byte size of a single component.
    pub fn component_size(&self) -> (r: usize)
        ensures
            r == component_size_of(self.component_type),
    {
        if self.component_type == COMPONENT_BYTE || self.component_type == COMPONENT_UNSIGNED_BYTE {
            1
        } else if self.component_type == COMPONENT_SHORT || self.component_type
            == COMPONENT_UNSIGNED_SHORT {
            2
        } else {
            4
        }
    }

    /// Number of components per element.
    pub fn component_count(&self) -> (r: usize)
        ensures
            r == component_count_of(self.accessor_type@),
    {
        let t = self.accessor_type.as_str();
        if str_eq(t, "SCALAR") {
            1
        } else if str_eq(t, "VEC2") {
            2
        } else if str_eq(t, "VEC3") {
            3
        } else if str_eq(t, "VEC4") {
            4
        } else if str_eq(t, "MAT2") {
            4
        } else if str_eq(t, "MAT3") {
            9
        } else if str_eq(t, "MAT4") {
            16
        } else {
            1
        }
    }

    /// Total byte size of all elements.
    pub fn byte_size(&self) -> (r: usize)
        requires
            self.count * component_count_of(self.accessor_type@) * component_size_of(
                self.component_type,
            ) <= usize::MAX,
        ensures
            r == self.count * component_count_of(self.accessor_type@) * component_size_of(
                self.component_type,
            ),
    {
        let cc = self.component_count();
        let cs = self.component_size();
        assert(self.count * cc <= self.count * cc * cs) by (nonlinear_arith)
            requires
                cs >= 1,
        ;
        self.count * cc * cs
    }
}

/// A view into a buffer.
#[derive(Debug, Clone)]
pub struct BufferView {
    /// Buffer index.
    pub buffer: usize,
    /// Byte offset into the buffer.
    pub byte_offset: usize,
    /// Byte length.
    pub byte_length: usize,
    /// Byte stride for vertex data.
    pub byte_stride: Option<usize>,
    /// Target (34962 = array buffer, 34963 = element array buffer).
    pub target: Option<u32>,
    /// Buffer view name.
    pub name: Option<String>,
}

/// A buffer containing binary data.
#[derive(Debug, Clone)]
pub struct Buffer {
    /// Byte length.
    pub byte_length: usize,
    /// URI (data URI or external file).
    pub uri: Option<String>,
    /// Buffer name.
    pub name: Option<String>,
}

/// Texture reference.
#[derive(Debug, Clone)]
pub struct TextureInfo {
    /// Texture index.
    pub index: usize,
    /// Texture coordinate set.
    pub tex_coord: u32,
}

/// A texture.
#[derive(Debug, Clone)]
pub struct Texture {
    /// Sampler index.
    pub sampler: Option<usize>,
    /// Image source index.
    pub source: Option<usize>,
    /// Texture name.
    pub name: Option<String>,
}

/// An image.
#[derive(Debug, Clone)]
pub struct Image {
    /// URI (data URI or external file).
    pub uri: Option<String>,
    /// MIME type.
    pub mime_type: Option<String>,
    /// Buffer view index (for GLB).
    pub buffer_view: Option<usize>,
    /// Image name.
    pub name: Option<String>,
}

/// A texture sampler.
#[derive(Debug, Clone)]
pub struct Sampler {
    /// Magnification filter.
    pub mag_filter: Option<u32>,
    /// Minification filter.
    pub min_filter: Option<u32>,
    /// S (U) wrap mode.
    pub wrap_s: u32,
    /// T (V) wrap mode.
    pub wrap_t: u32,
    /// Sampler name.
    pub name: Option<String>,
}

/// The wrap mode a sampler gets when it names none: repeat.
pub fn default_wrap_mode() -> (r: u32)
    ensures
        r == WRAP_REPEAT,
{
    WRAP_REPEAT
}

/// The alpha mode a material gets when it names none: "OPAQUE".
pub fn default_alpha_mode() -> (r: String)
    ensures
        r@ == "OPAQUE"@,
{
    String::from_str("OPAQUE")
}

/// An animation.
#[derive(Debug, Clone)]
pub struct Animation {
    /// Animation name.
    pub name: Option<String>,
    /// Animation channels.
    pub channels: Vec<AnimationChannel>,
    /// Animation samplers.
    pub samplers: Vec<AnimationSampler>,
}

/// An animation channel.
#[derive(Debug, Clone)]
pub struct AnimationChannel {
    /// Sampler index.
    pub sampler: usize,
    /// Target.
    pub target: AnimationTarget,
}

/// Animation target.
#[derive(Debug, Clone)]
pub struct AnimationTarget {
    /// Node index.
    pub node: Option<usize>,
    /// Target path ("translation", "rotation", "scale", "weights").
    pub path: String,
}

/// Animation sampler.
#[derive(Debug, Clone)]
pub struct AnimationSampler {
    /// Input accessor (time).
    pub input: usize,
    /// Output accessor (values).
    pub output: usize,
    /// Interpolation ("LINEAR", "STEP", "CUBICSPLINE").
    pub interpolation: String,
}

/// The interpolation an animation sampler gets when it names none: "LINEAR".
pub fn default_interpolation() -> (r: String)
    ensures
        r@ == "LINEAR"@,
{
    String::from_str("LINEAR")
}

/// A skin for skeletal animation.
#[derive(Debug, Clone)]
pub struct Skin {
    /// Skin name.
    pub name: Option<String>,
    /// Inverse bind matrices accessor.
    pub inverse_bind_matrices: Option<usize>,
    /// Skeleton root node.
    pub skeleton: Option<usize>,
    /// Joint node indices.
    pub joints: Vec<usize>,
}

} // verus!
