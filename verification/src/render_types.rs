use vstd::prelude::*;

verus! {

/// How a vertex stream is assembled into primitives.
#[derive(Clone, Copy, Debug, PartialEq, Eq, Structural)]
pub enum DrawMode {
    Lines,
    Triangles,
    TriangleStrip,
    TriangleFan,
}

/// Why a GPU buffer operation failed.
#[derive(Clone, Copy, Debug, PartialEq, Eq, Structural)]
pub enum BufferError {
    InvalidSize,
    OutOfMemory,
}

/// The target a GPU buffer is bound to.
#[derive(Clone, Copy, Debug, PartialEq, Eq, Structural)]
pub enum BufferType {
    ArrayBuffer,
    UniformBuffer,
    ElementArrayBuffer,
}

/// How a GPU buffer's storage is used.
#[derive(Clone, Copy, Debug, PartialEq, Eq, Structural)]
pub enum BufferMode {
    Default,
    Immutable,
    Dynamic,
    Persistent,
    PersistentCoherent,
}

/// How a GPU buffer's storage is created.
#[derive(Clone, Copy, Debug, PartialEq, Eq, Structural)]
pub enum BufferCreationMode {
    BufferStorage,
}

/// Where a texture is attached to a framebuffer.
#[derive(Clone, Copy, Debug, PartialEq, Eq, Structural)]
pub enum TextureAttachPoint {
    Color0,
}

/// An index buffer: its id and the number of indices.
pub trait Indices {
    fn id(&self) -> u32;

    fn count(&self) -> usize;
}

/// The absent index buffer.
pub struct EmptyIndices;

impl Indices for EmptyIndices {
    fn id(&self) -> (r: u32)
        ensures
            r == 0,
    {
        0
    }

    fn count(&self) -> (r: usize)
        ensures
            r == 0,
    {
        0
    }
}

/// The parameters of one indirect draw.
#[derive(Clone, Copy, Debug, PartialEq, Eq, Structural)]
pub struct DrawArraysIndirectCommand {
    pub vertex_count: u32,
    pub instance_count: u32,
    pub first: u32,
    pub base_instance: u32,
}

/// How a texture is sampled when minified.
#[derive(Clone, Copy, Debug, PartialEq, Eq, Structural)]
pub enum TextureFilterMode {
    Linear,
    NearestMipmapLinear,
}

impl Default for TextureFilterMode {
    fn default() -> (m: Self)
        ensures
            m == TextureFilterMode::NearestMipmapLinear,
    {
        TextureFilterMode::NearestMipmapLinear
    }
}

/// The texel format of a texture.
#[derive(Clone, Copy, Debug, PartialEq, Eq, Structural)]
pub enum ColorMode {
    Rgba23f,
}

/// The sampling parameters of a texture.
#[derive(Clone, Copy, Debug, PartialEq, Eq, Structural)]
pub struct TextureParameters {
    pub min_filter: TextureFilterMode,
}

impl Default for TextureParameters {
    fn default() -> (p: Self)
        ensures
            p.min_filter == TextureFilterMode::NearestMipmapLinear,
    {
        TextureParameters { min_filter: TextureFilterMode::NearestMipmapLinear }
    }
}

/// The vertex type of meshes that have no per-instance data.
#[derive(Clone, Copy, Debug)]
pub struct EmptyVertex;

/// The sources of a shader program.
pub trait ProgramInternal {
    fn vertex() -> &'static str;

    fn fragment() -> &'static str;

    fn geometry() -> Option<&'static str>;
}

/// A value that can be written to a shader uniform at a location.
pub trait UniformValue {
    fn set_uniform(&self, location: usize);
}

/// A value that can be scaled to unit length.
pub trait Normalizable: Sized {
    fn normalize(&self) -> Self;
}

/// How the one-mesh-per-voxel renderer draws.
#[derive(Clone, Copy, Debug, PartialEq, Eq, Structural)]
pub enum BasicRenderType {
    Basic,
    Instanced,
    VertexPull,
}

/// How a chunk's faces are drawn: as instances, pulled from a buffer, or not by the chunk
/// itself (`NoRender`: a combined draw takes them).
#[derive(Clone, Copy, Debug, PartialEq, Eq, Structural)]
pub enum RenderType {
    Instance,
    VertexPull,
    NoRender,
}

/// Starts a profiler capture; without a profiler it does nothing.
pub fn start_capture() {
}

/// Stops a profiler capture; without a profiler it does nothing.
pub fn stop_capture(_name: &str) {
}

/// Marks a profiler frame; without a profiler it does nothing.
pub fn next_frame() {
}

} // verus!
