use vstd::prelude::*;
use crate::ids::NodeId;

verus! {

/// The kind of a break.
#[derive(Debug, Clone, Copy, PartialEq, Eq, Structural)]
pub enum BreakKind {
    TextWrapping,
    Page,
    Column,
}

/// What a run segment is.
#[derive(Debug, Clone, Copy, PartialEq, Eq, Structural)]
pub enum SegmentKind {
    Text,
    DelText,
    Tab,
    Break,
    Cr,
    FldChar,
    InstrText,
    DelInstrText,
    Other,
}

/// One child of a run in the coordinate stream.
#[derive(Debug)]
pub struct Segment {
    pub node: NodeId,
    pub kind: SegmentKind,
    /// The segment's text (`w:t` / `w:delText` / `w:instrText`); empty for the others.
    pub text: String,
    /// Width in the coordinate stream (UTF-16 units of the text; 1 for an atom segment).
    pub utf16_len: u32,
}

/// A run: its segments in order.
#[derive(Debug)]
pub struct Run {
    pub node: NodeId,
    pub segments: Vec<Segment>,
}

/// An inline of a paragraph.
#[derive(Debug)]
pub enum Inline {
    Run(Run),
    /// Anything that is not a run (drawing, field result container, ...), of fixed width.
    Atom { node: NodeId, utf16_len: u32 },
    /// A range marker (bookmark, comment range): zero width.
    Marker { node: NodeId },
}

/// A text paragraph of the projection.
#[derive(Debug)]
pub struct TextBlock {
    pub node: NodeId,
    pub inlines: Vec<Inline>,
}

/// A `w:tblGrid/w:gridCol` and its declared width (`w:w`).
#[derive(Debug, Clone, Copy, PartialEq, Eq, Structural)]
pub struct GridCol {
    pub node: NodeId,
    pub w: Option<i32>,
}

/// A table cell of the projection.
#[derive(Debug, Clone, Copy, PartialEq, Eq, Structural)]
pub struct Cell {
    pub node: NodeId,
    /// `w:gridSpan` (1 when absent).
    pub span: u32,
}

/// A table row of the projection.
#[derive(Debug)]
pub struct Row {
    pub node: NodeId,
    /// `w:trPr/w:gridBefore`.
    pub grid_before: Option<i32>,
    /// `w:trPr/w:gridAfter`.
    pub grid_after: Option<i32>,
    pub cells: Vec<Cell>,
}

/// A table of the projection.
#[derive(Debug)]
pub struct TableBlock {
    pub node: NodeId,
    pub grid: Vec<GridCol>,
    pub rows: Vec<Row>,
}

/// Sum of the widths of the first `k` segments.
pub open spec fn segs_len(segs: Seq<Segment>, k: int) -> int
    decreases k,
{
    if k <= 0 {
        0
    } else {
        segs_len(segs, k - 1) + segs[k - 1].utf16_len
    }
}

/// Width of an inline in the coordinate stream.
pub open spec fn inline_len(i: Inline) -> int {
    match i {
        Inline::Run(r) => segs_len(r.segments@, r.segments@.len() as int),
        Inline::Atom { utf16_len, .. } => utf16_len as int,
        Inline::Marker { .. } => 0,
    }
}

/// Sum of the widths of the first `k` inlines.
pub open spec fn inlines_len(inl: Seq<Inline>, k: int) -> int
    decreases k,
{
    if k <= 0 {
        0
    } else {
        inlines_len(inl, k - 1) + inline_len(inl[k - 1])
    }
}

pub proof fn lemma_segs_len_mono(segs: Seq<Segment>, a: int, b: int)
    requires
        0 <= a <= b,
    ensures
        segs_len(segs, a) <= segs_len(segs, b),
    decreases b - a,
{
    if a < b {
        lemma_segs_len_mono(segs, a, b - 1);
    }
}

pub proof fn lemma_inlines_len_mono(inl: Seq<Inline>, a: int, b: int)
    requires
        0 <= a <= b,
    ensures
        inlines_len(inl, a) <= inlines_len(inl, b),
    decreases b - a,
{
    if a < b {
        lemma_inlines_len_mono(inl, a, b - 1);
        lemma_inline_len_nonneg(inl[b - 1]);
    }
}

pub proof fn lemma_inline_len_nonneg(i: Inline)
    ensures
        inline_len(i) >= 0,
{
    if let Inline::Run(r) = i {
        lemma_segs_len_mono(r.segments@, 0, r.segments@.len() as int);
    }
}

impl Run {
    /// Width of the run (sum of its segments).
    pub fn utf16_len(&self) -> (r: u64)
        requires
            self.segments@.len() < 0x1_0000_0000,
        ensures
            r == segs_len(self.segments@, self.segments@.len() as int),
    {
        let mut sum: u64 = 0;
        for k in 0..self.segments.len()
            invariant
                self.segments@.len() < 0x1_0000_0000,
                sum == segs_len(self.segments@, k as int),
                sum <= k * 0x1_0000_0000,
        {
            sum = sum + self.segments[k].utf16_len as u64;
        }
        sum
    }
}

impl Inline {
    /// Width of the inline in the coordinate stream.
    pub fn utf16_len(&self) -> (r: u64)
        requires
            self matches Inline::Run(r) ==> r.segments@.len() < 0x1_0000_0000,
        ensures
            r == inline_len(*self),
    {
        match self {
            Inline::Run(r) => r.utf16_len(),
            Inline::Atom { utf16_len, .. } => *utf16_len as u64,
            Inline::Marker { .. } => 0,
        }
    }
}

} // verus!
