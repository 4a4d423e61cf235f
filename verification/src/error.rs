use vstd::prelude::*;

verus! {

/// Everything that can go wrong between a tile payload and a drawn tile.
#[derive(Clone, Copy, PartialEq, Eq, Structural, Debug)]
pub enum Error {
    /// The protobuf payload or the geometry command stream is malformed; the
    /// tile is dropped and ingestion continues.
    Decode,
    /// A tag pair points outside the layer's key or value dictionary; the
    /// feature is dropped and ingestion continues.
    TagIndexOutOfRange,
    /// The triangulator rejected a polygon; the feature is skipped.
    Triangulation,
    /// A GPU buffer could not be sized or allocated; the tile's tessellation
    /// is abandoned, never silently truncated.
    GpuResourceExhausted,
    /// A bind group was requested for a scope whose layout was never
    /// registered; a startup programming error.
    UnregisteredBindGroupScope,
}

} // verus!
