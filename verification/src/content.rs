use vstd::prelude::*;
use crate::chars::str_eq;
use crate::diag::{DiagCode, Error, text};
use crate::emit::NewRun;
use crate::ids::{FieldId, NodeId};
use crate::model::BreakKind;
use crate::xml::{LocalName, NewElement, QName};

verus! {

/// The nine ways an image can wrap.
#[derive(Debug, Clone, Copy, PartialEq, Eq, Structural)]
pub enum ImageWrap {
    SquareLeft,
    SquareRight,
    TightLeft,
    TightRight,
    ThroughLeft,
    ThroughRight,
    TopBottom,
    Front,
    Behind,
}

/// Where `wp:positionH` aligns when no position is given: right for the right-hand wraps,
/// centred for top-and-bottom, left otherwise.
pub open spec fn default_align_text(w: ImageWrap) -> Seq<char> {
    if w == ImageWrap::SquareRight || w == ImageWrap::TightRight || w == ImageWrap::ThroughRight {
        "right"@
    } else if w == ImageWrap::TopBottom {
        "center"@
    } else {
        "left"@
    }
}

/// The wire spelling of an [`ImageWrap`].
pub open spec fn image_wrap_text(w: ImageWrap) -> Seq<char> {
    match w {
        ImageWrap::SquareLeft => "square-left"@,
        ImageWrap::SquareRight => "square-right"@,
        ImageWrap::TightLeft => "tight-left"@,
        ImageWrap::TightRight => "tight-right"@,
        ImageWrap::ThroughLeft => "through-left"@,
        ImageWrap::ThroughRight => "through-right"@,
        ImageWrap::TopBottom => "topBottom"@,
        ImageWrap::Front => "front"@,
        ImageWrap::Behind => "behind"@,
    }
}

impl ImageWrap {
    /// The wire spelling.
    pub fn as_str(self) -> (r: &'static str)
        ensures
            r@ == image_wrap_text(self),
    {
        match self {
            ImageWrap::SquareLeft => "square-left",
            ImageWrap::SquareRight => "square-right",
            ImageWrap::TightLeft => "tight-left",
            ImageWrap::TightRight => "tight-right",
            ImageWrap::ThroughLeft => "through-left",
            ImageWrap::ThroughRight => "through-right",
            ImageWrap::TopBottom => "topBottom",
            ImageWrap::Front => "front",
            ImageWrap::Behind => "behind",
        }
    }

    /// The value whose wire spelling is `s`; `BindBadArgument` for any other text.
    pub fn parse(s: &str) -> (r: Result<ImageWrap, Error>)
        ensures
            r matches Ok(w) ==> image_wrap_text(w) == s@,
            r is Err ==> (forall|w: ImageWrap| image_wrap_text(w) != s@) && r->Err_0.has_code(DiagCode::BindBadArgument),
    {
        let all = [
            ImageWrap::SquareLeft,
            ImageWrap::SquareRight,
            ImageWrap::TightLeft,
            ImageWrap::TightRight,
            ImageWrap::ThroughLeft,
            ImageWrap::ThroughRight,
            ImageWrap::TopBottom,
            ImageWrap::Front,
            ImageWrap::Behind,
        ];
        for i in 0..9
            invariant
                all@ == seq![
                    ImageWrap::SquareLeft,
                    ImageWrap::SquareRight,
                    ImageWrap::TightLeft,
                    ImageWrap::TightRight,
                    ImageWrap::ThroughLeft,
                    ImageWrap::ThroughRight,
                    ImageWrap::TopBottom,
                    ImageWrap::Front,
                    ImageWrap::Behind,
                ],
                forall|j: int| 0 <= j < i ==> image_wrap_text(#[trigger] all@[j]) != s@,
        {
            let w = all[i];
            if str_eq(w.as_str(), s) {
                return Ok(w);
            }
        }
        proof {
            assert forall|w: ImageWrap| image_wrap_text(w) != s@ by {
                let j: int = match w {
                    ImageWrap::SquareLeft => 0,
                    ImageWrap::SquareRight => 1,
                    ImageWrap::TightLeft => 2,
                    ImageWrap::TightRight => 3,
                    ImageWrap::ThroughLeft => 4,
                    ImageWrap::ThroughRight => 5,
                    ImageWrap::TopBottom => 6,
                    ImageWrap::Front => 7,
                    ImageWrap::Behind => 8,
                };
                assert(all@[j] == w);
            }
        }
        let mut msg = text("unknown ImageWrap value: ");
        msg.append(s);
        Err(Error::edit(DiagCode::BindBadArgument, msg))
    }

    /// Where `wp:positionH` aligns when no position is given: right for the right-hand wraps,
    /// centred for top-and-bottom, left otherwise.
    pub fn default_align(self) -> (r: &'static str)
        ensures
            r@ == default_align_text(self),
    {
        match self {
            ImageWrap::SquareRight | ImageWrap::TightRight | ImageWrap::ThroughRight => "right",
            ImageWrap::TopBottom => "center",
            _ => "left",
        }
    }
}

impl std::str::FromStr for ImageWrap {
    type Err = Error;

    fn from_str(s: &str) -> Result<ImageWrap, Error> {
        ImageWrap::parse(s)
    }
}

/// Insertable lines and connectors.
#[derive(Debug, Clone, Copy, PartialEq, Eq, Structural)]
pub enum LineKind {
    Line,
    LineArrow,
    LineArrowDouble,
    LineBent,
    LineCurved,
}

/// The wire spelling of a [`LineKind`].
pub open spec fn line_kind_text(k: LineKind) -> Seq<char> {
    match k {
        LineKind::Line => "line"@,
        LineKind::LineArrow => "lineArrow"@,
        LineKind::LineArrowDouble => "lineArrowDouble"@,
        LineKind::LineBent => "lineBent"@,
        LineKind::LineCurved => "lineCurved"@,
    }
}

impl LineKind {
    /// The wire spelling.
    pub fn as_str(self) -> (r: &'static str)
        ensures
            r@ == line_kind_text(self),
    {
        match self {
            LineKind::Line => "line",
            LineKind::LineArrow => "lineArrow",
            LineKind::LineArrowDouble => "lineArrowDouble",
            LineKind::LineBent => "lineBent",
            LineKind::LineCurved => "lineCurved",
        }
    }

    /// The value whose wire spelling is `s`; `BindBadArgument` for any other text.
    pub fn parse(s: &str) -> (r: Result<LineKind, Error>)
        ensures
            r matches Ok(k) ==> line_kind_text(k) == s@,
            r is Err ==> (forall|k: LineKind| line_kind_text(k) != s@) && r->Err_0.has_code(DiagCode::BindBadArgument),
    {
        let all = [LineKind::Line, LineKind::LineArrow, LineKind::LineArrowDouble, LineKind::LineBent, LineKind::LineCurved];
        for i in 0..5
            invariant
                all@ == seq![LineKind::Line, LineKind::LineArrow, LineKind::LineArrowDouble, LineKind::LineBent, LineKind::LineCurved],
                forall|j: int| 0 <= j < i ==> line_kind_text(#[trigger] all@[j]) != s@,
        {
            let k = all[i];
            if str_eq(k.as_str(), s) {
                return Ok(k);
            }
        }
        proof {
            assert forall|k: LineKind| line_kind_text(k) != s@ by {
                let j: int = match k {
                    LineKind::Line => 0,
                    LineKind::LineArrow => 1,
                    LineKind::LineArrowDouble => 2,
                    LineKind::LineBent => 3,
                    LineKind::LineCurved => 4,
                };
                assert(all@[j] == k);
            }
        }
        let mut msg = text("unknown LineKind value: ");
        msg.append(s);
        Err(Error::edit(DiagCode::BindBadArgument, msg))
    }

    /// The preset geometry, and whether the line starts / ends with an arrow.
    pub fn geom(self) -> (r: (&'static str, bool, bool))
        ensures
            r.0@ == (match self {
                LineKind::Line => "line"@,
                LineKind::LineArrow | LineKind::LineArrowDouble => "straightConnector1"@,
                LineKind::LineBent => "bentConnector3"@,
                LineKind::LineCurved => "curvedConnector3"@,
            }),
            r.1 == (self == LineKind::LineArrowDouble),
            r.2 == (self == LineKind::LineArrow || self == LineKind::LineArrowDouble),
    {
        match self {
            LineKind::Line => ("line", false, false),
            LineKind::LineArrow => ("straightConnector1", false, true),
            LineKind::LineArrowDouble => ("straightConnector1", true, true),
            LineKind::LineBent => ("bentConnector3", false, false),
            LineKind::LineCurved => ("curvedConnector3", false, false),
        }
    }
}

/// `a:prstGeom/@prst`: an open set of preset shape names, written as given.
#[derive(Debug, Clone, PartialEq, Eq)]
pub struct PresetGeom(pub String);

impl PresetGeom {
    /// The rectangle.
    pub fn rect() -> (r: PresetGeom)
        ensures
            r.0@ == "rect"@,
    {
        PresetGeom(text("rect"))
    }
}

/// An anchored position in EMU; relative to the page on both axes when `page`.
#[derive(Debug, Clone, Copy, PartialEq, Eq, Structural)]
pub struct PosOffset {
    pub x: i64,
    pub y: i64,
    pub page: bool,
}

/// Look and position shared by new text boxes and shapes.
#[derive(Debug, Clone, PartialEq, Eq, Default)]
pub struct ShapeLook {
    /// Size in EMU.
    pub extent_emu: Option<(i64, i64)>,
    /// Anchored position.
    pub pos_offset_emu: Option<PosOffset>,
    /// Wrapping; square when `None`.
    pub wrap: Option<ImageWrap>,
    /// Added to the base `relativeHeight`.
    pub z_order: Option<i64>,
    /// Fill colour (six hex digits); `None` = no fill.
    pub fill: Option<String>,
    /// Outline colour; `None` = no line.
    pub outline: Option<String>,
}

/// `w:spacing` of an image paragraph.
#[derive(Debug, Clone, Default, PartialEq, Eq)]
pub struct ParaSpacing {
    pub before_twips: Option<i64>,
    pub after_twips: Option<i64>,
    pub line_twips: Option<i64>,
    /// `exact` / `atLeast`.
    pub line_rule: Option<String>,
}

/// A new image.
#[derive(Debug, PartialEq, Eq)]
pub struct NewImage {
    pub bytes: Vec<u8>,
    /// `image/png`, `image/jpeg`, ...
    pub mime: String,
    /// Size in EMU.
    pub extent_emu: (i64, i64),
    /// `w:jc`: `center` / `right`.
    pub align: Option<String>,
    /// Inline when `None`; anchored otherwise.
    pub wrap: Option<ImageWrap>,
    pub pos_offset_emu: Option<PosOffset>,
    pub z_order: Option<i64>,
    pub rot_deg: Option<i64>,
    pub flip_h: bool,
    pub flip_v: bool,
    pub para_spacing: Option<ParaSpacing>,
}

/// The formula of a math atom.
#[derive(Debug, Clone, PartialEq, Eq)]
pub enum NewMath {
    /// OMML, with or without the `m:oMath` wrapper.
    Omml(String),
    /// LaTeX source.
    Latex(String),
}

/// What an atom insertion puts in; each takes one unit in the coordinate stream.
#[derive(Debug, PartialEq, Eq)]
pub enum NewAtom {
    /// `w:r/w:br`; `clear` only matters for text wrapping breaks.
    Break { kind: BreakKind, clear: Option<String> },
    /// `w:r/w:sym`: a code point of a symbol font.
    Symbol { font: String, code: u32 },
    /// A footnote or endnote: the entry and its reference run.
    NoteRef { endnote: bool, content: Vec<Vec<NewRun>> },
    /// An inline image.
    Image(NewImage),
    /// An `m:oMath` atom.
    Math(NewMath),
}

/// A new comment; `\n` in `text` separates paragraphs.
#[derive(Debug, Clone, Default, PartialEq, Eq)]
pub struct NewComment {
    pub author: String,
    pub initials: Option<String>,
    /// ISO time stamp; no `w:date` when `None`.
    pub date: Option<String>,
    pub text: String,
    /// The comment this one replies to.
    pub parent_id: Option<String>,
    pub done: bool,
}

/// Which link a link edit changes.
#[derive(Debug, Clone, Copy, PartialEq, Eq, Structural)]
pub enum LinkRef {
    /// A HYPERLINK field.
    Field(FieldId),
    /// A `w:hyperlink` element.
    Element(NodeId),
}

/// A link destination.
#[derive(Debug, Clone, PartialEq, Eq)]
pub enum LinkDest {
    /// An external URL.
    Url(String),
    /// A bookmark in the document.
    Anchor(String),
    /// An existing relationship id (elements only).
    Rel(String),
}

/// A new complex field; `instr` without the surrounding spaces.
#[derive(Debug, Default, PartialEq, Eq)]
pub struct NewField {
    pub instr: String,
    /// The result content (empty: an empty result).
    pub result: Vec<crate::emit::NewInline>,
    /// `w:dirty="true"` on the begin `w:fldChar`.
    pub mark_dirty: bool,
}

/// `a:srcRect`: the share cut from each side, in thousandths of a percent.
#[derive(Debug, Clone, Copy, Default, PartialEq, Eq, Structural)]
pub struct SrcRect {
    pub l: i64,
    pub t: i64,
    pub r: i64,
    pub b: i64,
}

/// One geometry change of a drawing (`None` = leave as is).
#[derive(Debug, Clone, Default, PartialEq, Eq)]
pub struct DrawingGeometry {
    /// Size in EMU.
    pub extent_emu: Option<(i64, i64)>,
    /// Anchored position in EMU.
    pub pos_offset_emu: Option<(i64, i64)>,
    /// Rotation in degrees; `Some(None)` removes it.
    pub rot_deg: Option<Option<i64>>,
    pub flip_h: Option<bool>,
    pub flip_v: Option<bool>,
    /// Crop window; `Some(None)` removes it.
    pub crop: Option<Option<SrcRect>>,
}

/// A position on one anchor axis: an offset or an alignment.
#[derive(Debug, Clone, PartialEq, Eq)]
pub enum AxisPos {
    /// `wp:posOffset` in EMU.
    Offset(i64),
    /// `wp:align`.
    Align(String),
}

/// One axis of an anchored drawing.
#[derive(Debug, Clone, PartialEq, Eq)]
pub struct AnchorAxis {
    /// `@relativeFrom`.
    pub relative_from: String,
    pub pos: AxisPos,
}

/// Both axes of an anchored drawing.
#[derive(Debug, Clone, PartialEq, Eq)]
pub struct AnchorPos {
    pub h: AnchorAxis,
    pub v: AnchorAxis,
}


/// An upper-case hexadecimal digit.
pub open spec fn hex_digit(v: int) -> char {
    if v < 10 { ((v + 48) as u8) as char } else { ((v - 10 + 65) as u8) as char }
}

/// The low sixteen bits of `v` as four upper-case hexadecimal digits.
pub open spec fn hex4(v: u32) -> Seq<char> {
    let w = (v % 65536) as int;
    seq![hex_digit(w / 4096), hex_digit((w / 256) % 16), hex_digit((w / 16) % 16), hex_digit(w % 16)]
}

fn hex_char(v: u32) -> (c: char)
    requires
        v < 16,
    ensures
        c == hex_digit(v as int),
{
    if v < 10 { ((v + 48) as u8) as char } else { ((v - 10 + 65) as u8) as char }
}

/// The low sixteen bits of `v` as four upper-case hexadecimal digits.
pub fn hex4_text(v: u32) -> (s: String)
    ensures
        s@ == hex4(v),
{
    let w = v % 65536;
    let mut s = String::new();
    crate::text::push_char(&mut s, hex_char(w / 4096));
    crate::text::push_char(&mut s, hex_char((w / 256) % 16));
    crate::text::push_char(&mut s, hex_char((w / 16) % 16));
    crate::text::push_char(&mut s, hex_char(w % 16));
    assert(s@ =~= hex4(v));
    s
}

/// The `w:type` of a break kind (`None` for a text wrapping break).
pub open spec fn break_type(kind: BreakKind) -> Option<Seq<char>> {
    match kind {
        BreakKind::Page => Some("page"@),
        BreakKind::Column => Some("column"@),
        BreakKind::TextWrapping => None,
    }
}

impl NewAtom {
    /// `w:br`: `w:type` for page and column breaks; `w:clear` (when given) only for text
    /// wrapping breaks.
    pub fn break_element(kind: BreakKind, clear: Option<&str>) -> (e: NewElement)
        ensures
            e.name == crate::tables::wn(LocalName::Br),
            e.children@.len() == 0,
            crate::tables::attrs_are(e.attrs@, match break_type(kind) {
                Some(t) => seq![(crate::tables::wn(LocalName::Type), t)],
                None => match clear {
                    Some(c) => seq![(crate::tables::wn(LocalName::Clear), c@)],
                    None => seq![],
                },
            }),
    {
        let mut e = NewElement::new(QName::w(LocalName::Br));
        match kind {
            BreakKind::Page => e.push_attr(QName::w(LocalName::Type), text("page")),
            BreakKind::Column => e.push_attr(QName::w(LocalName::Type), text("column")),
            BreakKind::TextWrapping => {
                if let Some(c) = clear {
                    e.push_attr(QName::w(LocalName::Clear), c.to_string());
                }
            },
        }
        e
    }

    /// `w:sym`: the font and the code point as four upper-case hexadecimal digits (the low
    /// sixteen bits, which is how private-use symbol code points are written).
    pub fn symbol_element(font: &str, code: u32) -> (e: NewElement)
        ensures
            e.name == crate::tables::wn(LocalName::Sym),
            e.children@.len() == 0,
            crate::tables::attrs_are(e.attrs@, seq![
                (crate::tables::wn(LocalName::Font), font@),
                (crate::tables::wn(LocalName::Char), hex4(code)),
            ]),
    {
        let mut e = NewElement::new(QName::w(LocalName::Sym));
        e.push_attr(QName::w(LocalName::Font), font.to_string());
        e.push_attr(QName::w(LocalName::Char), hex4_text(code));
        e
    }

    /// `w:footnoteReference` / `w:endnoteReference` with the note id.
    pub fn note_ref_element(endnote: bool, id: &str) -> (e: NewElement)
        ensures
            e.name == crate::tables::wn(if endnote { LocalName::EndnoteReference } else { LocalName::FootnoteReference }),
            e.children@.len() == 0,
            crate::tables::attrs_are(e.attrs@, seq![(crate::tables::wn(LocalName::Id), id@)]),
    {
        let local = if endnote { LocalName::EndnoteReference } else { LocalName::FootnoteReference };
        NewElement::new(QName::w(local)).with_attr(QName::w(LocalName::Id), id.to_string())
    }
}

} // verus!
