use vstd::prelude::*;
use crate::ids::{NodeId, PartId};

verus! {

/// Where a block lands in its container. `End(body)` lands before a trailing `w:sectPr`.
#[derive(Debug, Clone, Copy, PartialEq, Eq, Structural)]
pub enum BlockAt {
    Start(NodeId),
    Before(NodeId),
    After(NodeId),
    End(NodeId),
}

/// A block position: which part (`None` = the main part) and where in it.
#[derive(Debug, Clone, Copy, PartialEq, Eq, Structural)]
pub struct BlockPos {
    pub part: Option<PartId>,
    pub at: BlockAt,
}

impl BlockPos {
    /// A position in the main part.
    pub fn main(at: BlockAt) -> (p: BlockPos)
        ensures
            p == (BlockPos { part: None, at }),
    {
        BlockPos { part: None, at }
    }

    /// A position in a given part (header, footer, ...).
    pub fn in_part(part: PartId, at: BlockAt) -> (p: BlockPos)
        ensures
            p == (BlockPos { part: Some(part), at }),
    {
        BlockPos { part: Some(part), at }
    }

    /// First position inside `container` in the main part.
    pub fn start(container: NodeId) -> (p: BlockPos)
        ensures
            p == (BlockPos { part: None, at: BlockAt::Start(container) }),
    {
        Self::main(BlockAt::Start(container))
    }

    /// Right before `block` in the main part.
    pub fn before(block: NodeId) -> (p: BlockPos)
        ensures
            p == (BlockPos { part: None, at: BlockAt::Before(block) }),
    {
        Self::main(BlockAt::Before(block))
    }

    /// Right after `block` in the main part.
    pub fn after(block: NodeId) -> (p: BlockPos)
        ensures
            p == (BlockPos { part: None, at: BlockAt::After(block) }),
    {
        Self::main(BlockAt::After(block))
    }

    /// Last position inside `container` in the main part.
    pub fn end(container: NodeId) -> (p: BlockPos)
        ensures
            p == (BlockPos { part: None, at: BlockAt::End(container) }),
    {
        Self::main(BlockAt::End(container))
    }

    /// The node the position refers to (container or reference block).
    pub open spec fn spec_node(&self) -> NodeId {
        match self.at {
            BlockAt::Start(c) | BlockAt::End(c) => c,
            BlockAt::Before(n) | BlockAt::After(n) => n,
        }
    }

    /// The node the position refers to (container or reference block).
    pub fn node(&self) -> (n: NodeId)
        ensures
            n == self.spec_node(),
    {
        match self.at {
            BlockAt::Start(c) | BlockAt::End(c) => c,
            BlockAt::Before(n) | BlockAt::After(n) => n,
        }
    }
}

/// An offset in UTF-16 code units.
#[derive(Debug, Clone, Copy, PartialEq, Eq, Structural, Hash, Default)]
pub struct Utf16Offset(pub u32);

/// A position inside a paragraph: `para` is a `w:p`, `0 <= offset <= len`; `part == None` is
/// the main part.
#[derive(Debug, Clone, Copy, PartialEq, Eq, Structural, Hash)]
pub struct InlinePos {
    pub part: Option<PartId>,
    pub para: NodeId,
    pub offset: Utf16Offset,
}

impl InlinePos {
    /// A position in the main part.
    pub fn new(para: NodeId, offset: u32) -> (p: InlinePos)
        ensures
            p == (InlinePos { part: None, para, offset: Utf16Offset(offset) }),
    {
        InlinePos { part: None, para, offset: Utf16Offset(offset) }
    }

    /// A position in a given part (header, footer, note, comment).
    pub fn in_part(part: PartId, para: NodeId, offset: u32) -> (p: InlinePos)
        ensures
            p == (InlinePos { part: Some(part), para, offset: Utf16Offset(offset) }),
    {
        InlinePos { part: Some(part), para, offset: Utf16Offset(offset) }
    }

    /// Another offset in the same paragraph of the same part.
    pub fn with_offset(self, offset: u32) -> (p: InlinePos)
        ensures
            p == (InlinePos { offset: Utf16Offset(offset), ..self }),
    {
        InlinePos { part: self.part, para: self.para, offset: Utf16Offset(offset) }
    }
}

/// The result of locating an offset in a paragraph.
#[derive(Debug, Clone, Copy, PartialEq, Eq, Structural)]
pub enum Loc {
    /// Between two inlines: `index` inlines come before (`0 <= index <= len`).
    Boundary { index: usize },
    /// Inside run `inline`, between two segments: `segment` is the later one (>= 1).
    InRun { inline: usize, segment: usize },
    /// Strictly inside a `Text` / `DelText` segment; `byte` is the UTF-8 offset in its text.
    InText { inline: usize, segment: usize, byte: usize },
}

} // verus!
