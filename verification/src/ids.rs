use vstd::prelude::*;

verus! {

/// Index of a node in a part's node arena.
#[derive(Debug, Clone, Copy, PartialEq, Eq, Hash, Structural)]
pub struct NodeId(pub u32);

/// Session-local index of a package part.
#[derive(Debug, Clone, Copy, PartialEq, Eq, Hash, Structural)]
pub struct PartId(pub u32);

/// A field of a part's field index.
#[derive(Debug, Clone, Copy, PartialEq, Eq, Structural, Hash)]
pub struct FieldId(pub u32);

} // verus!
