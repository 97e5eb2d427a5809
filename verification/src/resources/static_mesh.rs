use vstd::prelude::*;

verus! {

/// One end of a range of buffer positions.
#[derive(Clone, Copy, PartialEq, Eq, Structural)]
pub enum RangeBound {
    Included(u64),
    Excluded(u64),
    Unbounded,
}

/// A range of buffer positions: its start and its end.
pub type IndexRange = (RangeBound, RangeBound);

/// The part of a mesh that one draw call covers: a range of each vertex
/// buffer, maybe a range of the index buffer, and the number of elements.
pub struct SubMesh {
    pub vertex_ranges: Vec<IndexRange>,
    pub index_range: Option<IndexRange>,
    pub num_elements: u32,
}

} // verus!
