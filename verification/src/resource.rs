//! Identifiers and descriptors for the GPU resources that flow through the
//! graph: opaque texture/buffer/sampler handles, texture descriptors and the
//! byte-size arithmetic that buffer allocation relies on.

use vstd::prelude::*;

verus! {

/// Opaque handle to a texture owned by the resource context.
#[derive(Clone, Copy, PartialEq, Eq, Structural, Debug)]
pub struct TextureId(pub u64);

/// Opaque handle to a buffer owned by the resource context.
#[derive(Clone, Copy, PartialEq, Eq, Structural, Debug)]
pub struct BufferId(pub u64);

/// Opaque handle to a sampler owned by the resource context.
#[derive(Clone, Copy, PartialEq, Eq, Structural, Debug)]
pub struct SamplerId(pub u64);

/// The kind of resource a slot is declared to carry.
#[derive(Clone, Copy, PartialEq, Eq, Structural, Debug)]
pub enum RenderResourceType {
    Texture,
    Buffer,
    Sampler,
}

/// A resolved resource handle stored in a slot.
#[derive(Clone, Copy, PartialEq, Eq, Structural, Debug)]
pub enum RenderResourceId {
    Texture(TextureId),
    Buffer(BufferId),
    Sampler(SamplerId),
}

impl RenderResourceId {
    /// The declared kind this handle satisfies.
    pub open spec fn resource_type(self) -> RenderResourceType {
        match self {
            RenderResourceId::Texture(_) => RenderResourceType::Texture,
            RenderResourceId::Buffer(_) => RenderResourceType::Buffer,
            RenderResourceId::Sampler(_) => RenderResourceType::Sampler,
        }
    }
}

/// Width, height and depth of a texture, in texels.
#[derive(Clone, Copy, PartialEq, Eq, Structural, Debug)]
pub struct Extent3d {
    pub width: u32,
    pub height: u32,
    pub depth: u32,
}

impl Extent3d {
    /// Number of texels in the full extent.
    pub open spec fn volume_spec(self) -> nat {
        (self.width * self.height * self.depth) as nat
    }

    /// Number of texels in the full extent.
    pub fn volume(&self) -> (r: usize)
        requires
            self.volume_spec() <= usize::MAX,
        ensures
            r == self.volume_spec(),
    {
        if self.width == 0 || self.height == 0 || self.depth == 0 {
            proof {
                assert(self.width * self.height * self.depth == 0) by (nonlinear_arith)
                    requires self.width == 0 || self.height == 0 || self.depth == 0;
            }
            return 0;
        }
        proof {
            assert(self.width * self.height <= self.width * self.height * self.depth)
                by (nonlinear_arith)
                requires self.depth >= 1;
        }
        let wh: usize = (self.width as usize) * (self.height as usize);
        wh * (self.depth as usize)
    }
}

/// Texel layout of a texture.
#[derive(Clone, Copy, PartialEq, Eq, Structural, Debug)]
pub enum TextureFormat {
    R8Unorm,
    Rg8Unorm,
    Rgba8Unorm,
    Rgba8UnormSrgb,
    Bgra8UnormSrgb,
    Rgba16Uint,
    Rgba32Uint,
}

impl TextureFormat {
    /// Bytes per texel.
    pub open spec fn pixel_size_spec(self) -> nat {
        match self {
            TextureFormat::R8Unorm => 1,
            TextureFormat::Rg8Unorm => 2,
            TextureFormat::Rgba8Unorm => 4,
            TextureFormat::Rgba8UnormSrgb => 4,
            TextureFormat::Bgra8UnormSrgb => 4,
            TextureFormat::Rgba16Uint => 8,
            TextureFormat::Rgba32Uint => 16,
        }
    }

    /// Bytes per texel.
    pub fn pixel_size(&self) -> (r: usize)
        ensures
            r == self.pixel_size_spec(),
            1 <= r <= 16,
    {
        match self {
            TextureFormat::R8Unorm => 1,
            TextureFormat::Rg8Unorm => 2,
            TextureFormat::Rgba8Unorm => 4,
            TextureFormat::Rgba8UnormSrgb => 4,
            TextureFormat::Bgra8UnormSrgb => 4,
            TextureFormat::Rgba16Uint => 8,
            TextureFormat::Rgba32Uint => 16,
        }
    }
}

/// Dimensionality of a texture.
#[derive(Clone, Copy, PartialEq, Eq, Structural, Debug)]
pub enum TextureDimension {
    D1,
    D2,
    D3,
}

/// Texture usage bit: the texture can be the source of a copy.
pub const TEXTURE_USAGE_COPY_SRC: u32 = 1;

/// Texture usage bit: the texture can be the destination of a copy.
pub const TEXTURE_USAGE_COPY_DST: u32 = 2;

/// Texture usage bit: the texture can be sampled in a shader.
pub const TEXTURE_USAGE_SAMPLED: u32 = 4;

/// Texture usage bit: the texture can be used as a render attachment.
pub const TEXTURE_USAGE_OUTPUT_ATTACHMENT: u32 = 8;

/// Immutable description of a texture: extent, mip chain, sampling, layout
/// and intended usage.  Copied into allocation requests; never reinterpreted
/// after a node is constructed.
#[derive(Clone, Copy, PartialEq, Eq, Structural, Debug)]
pub struct TextureDescriptor {
    pub size: Extent3d,
    pub mip_level_count: u32,
    pub sample_count: u32,
    pub dimension: TextureDimension,
    pub format: TextureFormat,
    pub usage: u32,
}

impl TextureDescriptor {
    /// The row-aligned byte sizing a readout of this texture needs stays
    /// within machine limits: one row may be padded by the device up to 255
    /// texels, and the padded byte counts of a row, a layer and the whole
    /// texture must each fit in `usize`.
    pub open spec fn sizes_fit(self) -> bool {
        &&& self.size.width + 255 <= usize::MAX
        &&& (self.size.width + 255) * self.format.pixel_size_spec() <= usize::MAX
        &&& (self.size.width + 255) * self.format.pixel_size_spec() * self.size.height
            <= usize::MAX
        &&& (self.size.width + 255) * self.format.pixel_size_spec() * self.size.height
            * self.size.depth <= usize::MAX
    }
}

/// Buffer usage bit: the buffer can be mapped for reading.
pub const BUFFER_USAGE_MAP_READ: u32 = 1;

/// Buffer usage bit: the buffer can be mapped for writing.
pub const BUFFER_USAGE_MAP_WRITE: u32 = 2;

/// Buffer usage bit: the buffer can be the source of a copy.
pub const BUFFER_USAGE_COPY_SRC: u32 = 4;

/// Buffer usage bit: the buffer can be the destination of a copy.
pub const BUFFER_USAGE_COPY_DST: u32 = 8;

/// Allocation request for a buffer.
#[derive(Clone, Copy, PartialEq, Eq, Structural, Debug)]
pub struct BufferInfo {
    pub size: usize,
    pub buffer_usage: u32,
    pub mapped_at_creation: bool,
}

/// The mode a buffer is mapped in.
#[derive(Clone, Copy, PartialEq, Eq, Structural, Debug)]
pub enum BufferMapMode {
    Read,
    Write,
}

} // verus!
