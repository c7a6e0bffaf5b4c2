//! Format-neutral scene vocabulary: texture sources and samplers, alpha
//! modes, units and axes.

use vstd::prelude::*;

verus! {

/// Alpha blending mode.
#[derive(Debug, Clone, Copy, PartialEq, Eq, Structural)]
pub enum AlphaMode {
    /// Fully opaque.
    Opaque,
    /// Masked (alpha test).
    Mask,
    /// Alpha blended.
    Blend,
}

impl Default for AlphaMode {
    /// Opaque.
    fn default() -> (r: Self)
        ensures
            r == AlphaMode::Opaque,
    {
        AlphaMode::Opaque
    }
}

/// Reference to a texture.
#[derive(Debug, Clone, Copy, PartialEq, Eq, Structural)]
pub struct TextureRef {
    /// Index into the scene's texture array.
    pub texture_index: usize,
    /// Texture coordinate set to use.
    pub texcoord: u32,
}

/// Texture data.
#[derive(Debug, Clone)]
pub struct Texture {
    /// Texture name.
    pub name: String,
    /// Image source.
    pub source: ImageSource,
    /// Sampler settings.
    pub sampler: Sampler,
}

/// Image source.
#[derive(Debug, Clone)]
pub enum ImageSource {
    /// Embedded image data.
    Embedded {
        /// MIME type (e.g., "image/png").
        mime_type: String,
        /// Raw image data.
        data: Vec<u8>,
    },
    /// External file reference.
    External {
        /// File path or URI.
        uri: String,
    },
}

/// Texture sampler settings.
#[derive(Debug, Clone, Copy, PartialEq, Eq, Structural)]
pub struct Sampler {
    /// Magnification filter.
    pub mag_filter: Filter,
    /// Minification filter.
    pub min_filter: Filter,
    /// U (horizontal) wrapping mode.
    pub wrap_u: Wrap,
    /// V (vertical) wrapping mode.
    pub wrap_v: Wrap,
}

impl Default for Sampler {
    /// Linear filtering, repeating in both directions.
    fn default() -> (r: Self)
        ensures
            r == (Sampler {
                mag_filter: Filter::Linear,
                min_filter: Filter::Linear,
                wrap_u: Wrap::Repeat,
                wrap_v: Wrap::Repeat,
            }),
    {
        Sampler {
            mag_filter: Filter::Linear,
            min_filter: Filter::Linear,
            wrap_u: Wrap::Repeat,
            wrap_v: Wrap::Repeat,
        }
    }
}

/// Texture filter mode.
#[derive(Debug, Clone, Copy, PartialEq, Eq, Structural)]
pub enum Filter {
    /// Nearest neighbor.
    Nearest,
    /// Bilinear.
    Linear,
}

impl Default for Filter {
    /// Linear.
    fn default() -> (r: Self)
        ensures
            r == Filter::Linear,
    {
        Filter::Linear
    }
}

/// Texture wrap mode.
#[derive(Debug, Clone, Copy, PartialEq, Eq, Structural)]
pub enum Wrap {
    /// Clamp to edge.
    ClampToEdge,
    /// Repeat.
    Repeat,
    /// Mirrored repeat.
    MirroredRepeat,
}

impl Default for Wrap {
    /// Repeat.
    fn default() -> (r: Self)
        ensures
            r == Wrap::Repeat,
    {
        Wrap::Repeat
    }
}

/// Unit system.
#[derive(Debug, Clone, Copy, PartialEq, Eq, Structural)]
pub enum Units {
    /// Millimeters (common in CAD).
    Millimeters,
    /// Centimeters.
    Centimeters,
    /// Meters (glTF default).
    Meters,
    /// Inches.
    Inches,
    /// Feet.
    Feet,
}

impl Default for Units {
    /// Meters.
    fn default() -> (r: Self)
        ensures
            r == Units::Meters,
    {
        Units::Meters
    }
}

/// Coordinate axis.
#[derive(Debug, Clone, Copy, PartialEq, Eq, Structural)]
pub enum Axis {
    /// X axis.
    X,
    /// Y axis (glTF, most game engines).
    Y,
    /// Z axis (CAD, Blender).
    Z,
}

impl Default for Axis {
    /// Y.
    fn default() -> (r: Self)
        ensures
            r == Axis::Y,
    {
        Axis::Y
    }
}

/// What an image source holds, as plain values.
pub enum ImageModel {
    /// Embedded bytes with their MIME type.
    Embedded { mime_type: Seq<char>, data: Seq<u8> },
    /// A reference by URI.
    External { uri: Seq<char> },
}

/// The plain-value model of an image source.
pub open spec fn image_model(s: ImageSource) -> ImageModel {
    match s {
        ImageSource::Embedded { mime_type, data } => ImageModel::Embedded {
            mime_type: mime_type@,
            data: data@,
        },
        ImageSource::External { uri } => ImageModel::External { uri: uri@ },
    }
}

/// What a texture holds, as plain values.
pub struct TextureModel {
    /// Texture name.
    pub name: Seq<char>,
    /// Image source.
    pub source: ImageModel,
    /// Sampler settings.
    pub sampler: Sampler,
}

/// The plain-value model of a texture.
pub open spec fn texture_model(t: Texture) -> TextureModel {
    TextureModel { name: t.name@, source: image_model(t.source), sampler: t.sampler }
}

} // verus!
