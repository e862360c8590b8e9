use vstd::prelude::*;
use crate::content::{ImageWrap, PosOffset, ShapeLook, default_align_text};
use crate::diag::text;
use crate::drawing::{Z_BASE, signed_text, signed_decimal, strip_hashes, strip_leading_hashes};
use crate::package::PartFlavor;
use crate::content::NewImage;
use crate::tables::wn;
use crate::xml::{LocalName, NewElement, NewNode, QName, element_same};

verus! {

/// An opening tag's start in the prefix `wp`: `<wp:`.
pub open spec fn lt(wp: Seq<char>) -> Seq<char> {
    "<"@ + wp + ":"@
}

/// A closing tag's start in the prefix `wp`: `</wp:`.
pub open spec fn lts(wp: Seq<char>) -> Seq<char> {
    "</"@ + wp + ":"@
}

fn push_lt(out: &mut String, wp: &str)
    ensures
        final(out)@ == old(out)@ + lt(wp@),
{
    out.append("<");
    out.append(wp);
    out.append(":");
    assert(final(out)@ =~= old(out)@ + lt(wp@));
}

fn push_lts(out: &mut String, wp: &str)
    ensures
        final(out)@ == old(out)@ + lts(wp@),
{
    out.append("</");
    out.append(wp);
    out.append(":");
    assert(final(out)@ =~= old(out)@ + lts(wp@));
}

fn push_signed(out: &mut String, v: i64)
    ensures
        final(out)@ == old(out)@ + signed_text(v as int),
{
    let d = signed_decimal(v);
    out.append(d.as_str());
}

fn lt_string(wp: &str) -> (r: String)
    ensures
        r@ == lt(wp@),
{
    let mut out = text("<");
    out.append(wp);
    out.append(":");
    assert(out@ =~= lt(wp@));
    out
}

/// `"1"` behind the text, `"0"` in front of it.
pub open spec fn behind_text(w: ImageWrap) -> Seq<char> {
    if w == ImageWrap::Behind { "1"@ } else { "0"@ }
}

/// The opening `wp:anchor` tag: Word's distances, `relativeHeight` = base + `z`.
pub open spec fn anchor_tag_text(wp: Seq<char>, z: int, w: ImageWrap) -> Seq<char> {
    lt(wp) + "anchor distT=\"0\" distB=\"0\" distL=\"114300\" distR=\"114300\" simplePos=\"0\" relativeHeight=\""@
        + signed_text(Z_BASE + z) + "\" behindDoc=\""@ + behind_text(w)
        + "\" locked=\"0\" layoutInCell=\"1\" allowOverlap=\"1\">"@
}

fn anchor_tag(wp: &str, z: i64, w: ImageWrap) -> (r: String)
    requires
        Z_BASE + z <= i64::MAX,
    ensures
        r@ == anchor_tag_text(wp@, z as int, w),
{
    let mut out = lt_string(wp);
    out.append("anchor distT=\"0\" distB=\"0\" distL=\"114300\" distR=\"114300\" simplePos=\"0\" relativeHeight=\"");
    push_signed(&mut out, Z_BASE + z);
    out.append("\" behindDoc=\"");
    out.append(if w == ImageWrap::Behind { "1" } else { "0" });
    out.append("\" locked=\"0\" layoutInCell=\"1\" allowOverlap=\"1\">");
    out
}

/// `wp:positionH` and `wp:positionV`: the offsets of `pos` (from the page, or from the column
/// and the paragraph), or without one aligned to `h` in the column, at the top of the
/// paragraph.
pub open spec fn position_text(wp: Seq<char>, pos: Option<PosOffset>, h: Seq<char>) -> Seq<char> {
    match pos {
        Some(p) => lt(wp) + "positionH relativeFrom=\""@ + (if p.page { "page"@ } else { "column"@ }) + "\">"@ + lt(wp)
            + "posOffset>"@ + signed_text(p.x as int) + lts(wp) + "posOffset>"@ + lts(wp) + "positionH>"@ + lt(wp)
            + "positionV relativeFrom=\""@ + (if p.page { "page"@ } else { "paragraph"@ }) + "\">"@ + lt(wp)
            + "posOffset>"@ + signed_text(p.y as int) + lts(wp) + "posOffset>"@ + lts(wp) + "positionV>"@,
        None => lt(wp) + "positionH relativeFrom=\"column\">"@ + lt(wp) + "align>"@ + h + lts(wp) + "align>"@
            + lts(wp) + "positionH>"@ + lt(wp) + "positionV relativeFrom=\"paragraph\">"@ + lt(wp) + "posOffset>0"@
            + lts(wp) + "posOffset>"@ + lts(wp) + "positionV>"@,
    }
}

fn position_xml(wp: &str, pos: Option<PosOffset>, h: &str) -> (r: String)
    ensures
        r@ == position_text(wp@, pos, h@),
{
    let mut out = lt_string(wp);
    match pos {
        Some(p) => {
            out.append("positionH relativeFrom=\"");
            out.append(if p.page { "page" } else { "column" });
            out.append("\">");
            push_lt(&mut out, wp);
            out.append("posOffset>");
            push_signed(&mut out, p.x);
            push_lts(&mut out, wp);
            out.append("posOffset>");
            push_lts(&mut out, wp);
            out.append("positionH>");
            push_lt(&mut out, wp);
            out.append("positionV relativeFrom=\"");
            out.append(if p.page { "page" } else { "paragraph" });
            out.append("\">");
            push_lt(&mut out, wp);
            out.append("posOffset>");
            push_signed(&mut out, p.y);
            push_lts(&mut out, wp);
            out.append("posOffset>");
            push_lts(&mut out, wp);
            out.append("positionV>");
        },
        None => {
            out.append("positionH relativeFrom=\"column\">");
            push_lt(&mut out, wp);
            out.append("align>");
            out.append(h);
            push_lts(&mut out, wp);
            out.append("align>");
            push_lts(&mut out, wp);
            out.append("positionH>");
            push_lt(&mut out, wp);
            out.append("positionV relativeFrom=\"paragraph\">");
            push_lt(&mut out, wp);
            out.append("posOffset>0");
            push_lts(&mut out, wp);
            out.append("posOffset>");
            push_lts(&mut out, wp);
            out.append("positionV>");
        },
    }
    out
}

/// The wrapping element: top and bottom, none (in front of or behind the text), or square
/// on both sides.
pub open spec fn wrap_el_text(wp: Seq<char>, w: ImageWrap) -> Seq<char> {
    match w {
        ImageWrap::TopBottom => lt(wp) + "wrapTopAndBottom/>"@,
        ImageWrap::Front | ImageWrap::Behind => lt(wp) + "wrapNone/>"@,
        _ => lt(wp) + "wrapSquare wrapText=\"bothSides\"/>"@,
    }
}

fn push_wrap_el(out: &mut String, wp: &str, w: ImageWrap)
    ensures
        final(out)@ == old(out)@ + wrap_el_text(wp@, w),
{
    push_lt(out, wp);
    match w {
        ImageWrap::TopBottom => out.append("wrapTopAndBottom/>"),
        ImageWrap::Front | ImageWrap::Behind => out.append("wrapNone/>"),
        _ => out.append("wrapSquare wrapText=\"bothSides\"/>"),
    }
    assert(final(out)@ =~= old(out)@ + wrap_el_text(wp@, w));
}

/// The wrapping of a shape: square on the left when none is given.
pub open spec fn look_wrap(look: ShapeLook) -> ImageWrap {
    match look.wrap {
        Some(w) => w,
        None => ImageWrap::SquareLeft,
    }
}

/// The head of a shape's `wp:anchor`, up to and with `wp:docPr` (`id`, named `name id`).
pub open spec fn anchor_open_text(wp: Seq<char>, cx: int, cy: int, look: ShapeLook, id: int, name: Seq<char>) -> Seq<char> {
    anchor_tag_text(wp, match look.z_order { Some(z) => z as int, None => 0 }, look_wrap(look)) + lt(wp)
        + "simplePos x=\"0\" y=\"0\"/>"@ + position_text(wp, look.pos_offset_emu, "center"@) + lt(wp) + "extent cx=\""@
        + signed_text(cx) + "\" cy=\""@ + signed_text(cy) + "\"/>"@ + lt(wp)
        + "effectExtent l=\"0\" t=\"0\" r=\"0\" b=\"0\"/>"@ + wrap_el_text(wp, look_wrap(look)) + lt(wp) + "docPr id=\""@
        + signed_text(id) + "\" name=\""@ + name + " "@ + signed_text(id) + "\"/>"@
}

/// The head of a new shape's `wp:anchor`, up to and with its `wp:docPr`.
pub fn anchor_open(wp: &str, cx: i64, cy: i64, look: &ShapeLook, id: i64, name: &str) -> (r: String)
    requires
        Z_BASE + (match look.z_order { Some(z) => z as int, None => 0 }) <= i64::MAX,
    ensures
        r@ == anchor_open_text(wp@, cx as int, cy as int, *look, id as int, name@),
{
    let wrap = match look.wrap {
        Some(w) => w,
        None => ImageWrap::SquareLeft,
    };
    let z: i64 = match look.z_order {
        Some(z) => z,
        None => 0,
    };
    let mut out = anchor_tag(wp, z, wrap);
    push_lt(&mut out, wp);
    out.append("simplePos x=\"0\" y=\"0\"/>");
    let position = position_xml(wp, look.pos_offset_emu, "center");
    out.append(position.as_str());
    push_lt(&mut out, wp);
    out.append("extent cx=\"");
    push_signed(&mut out, cx);
    out.append("\" cy=\"");
    push_signed(&mut out, cy);
    out.append("\"/>");
    push_lt(&mut out, wp);
    out.append("effectExtent l=\"0\" t=\"0\" r=\"0\" b=\"0\"/>");
    push_wrap_el(&mut out, wp, wrap);
    push_lt(&mut out, wp);
    out.append("docPr id=\"");
    push_signed(&mut out, id);
    out.append("\" name=\"");
    out.append(name);
    out.append(" ");
    push_signed(&mut out, id);
    out.append("\"/>");
    out
}

/// The fill of a shape: a solid colour (its leading `#`s dropped), or none.
pub open spec fn fill_text(c: Option<Seq<char>>) -> Seq<char> {
    match c {
        Some(rgb) => "<a:solidFill><a:srgbClr val=\""@ + strip_hashes(rgb) + "\"/></a:solidFill>"@,
        None => "<a:noFill/>"@,
    }
}

/// The outline of a shape: a solid colour (its leading `#`s dropped), or none.
pub open spec fn line_text(c: Option<Seq<char>>) -> Seq<char> {
    match c {
        Some(rgb) => "<a:ln><a:solidFill><a:srgbClr val=\""@ + strip_hashes(rgb) + "\"/></a:solidFill></a:ln>"@,
        None => "<a:ln><a:noFill/></a:ln>"@,
    }
}

/// An optional string's view.
pub open spec fn opt_view(o: Option<String>) -> Option<Seq<char>> {
    match o {
        Some(s) => Some(s@),
        None => None,
    }
}

fn fill_xml(c: &Option<String>, outline: bool) -> (r: String)
    ensures
        r@ == (if outline { line_text(opt_view(*c)) } else { fill_text(opt_view(*c)) }),
{
    match c {
        Some(rgb) => {
            let h = strip_leading_hashes(rgb.as_str());
            let mut out = if outline { text("<a:ln><a:solidFill><a:srgbClr val=\"") } else { text("<a:solidFill><a:srgbClr val=\"") };
            out.append(h.as_str());
            out.append(if outline { "\"/></a:solidFill></a:ln>" } else { "\"/></a:solidFill>" });
            out
        },
        None => if outline { text("<a:ln><a:noFill/></a:ln>") } else { text("<a:noFill/>") },
    }
}

/// A shape's `wps:spPr`: the size, the preset geometry, the fill and the outline.
pub open spec fn sp_pr_text(preset: Seq<char>, cx: int, cy: int, look: ShapeLook) -> Seq<char> {
    "<wps:spPr><a:xfrm><a:off x=\"0\" y=\"0\"/><a:ext cx=\""@ + signed_text(cx) + "\" cy=\""@ + signed_text(cy)
        + "\"/></a:xfrm><a:prstGeom prst=\""@ + preset + "\"><a:avLst/></a:prstGeom>"@ + fill_text(opt_view(look.fill))
        + line_text(opt_view(look.outline)) + "</wps:spPr>"@
}

/// A shape's `wps:spPr`.
pub fn sp_pr(preset: &str, cx: i64, cy: i64, look: &ShapeLook) -> (r: String)
    ensures
        r@ == sp_pr_text(preset@, cx as int, cy as int, *look),
{
    let fill = fill_xml(&look.fill, false);
    let line = fill_xml(&look.outline, true);
    let mut out = text("<wps:spPr><a:xfrm><a:off x=\"0\" y=\"0\"/><a:ext cx=\"");
    push_signed(&mut out, cx);
    out.append("\" cy=\"");
    push_signed(&mut out, cy);
    out.append("\"/></a:xfrm><a:prstGeom prst=\"");
    out.append(preset);
    out.append("\"><a:avLst/></a:prstGeom>");
    out.append(fill.as_str());
    out.append(line.as_str());
    out.append("</wps:spPr>");
    out
}

/// The `w:drawing` around an anchor head and a `wps:wsp`.
pub open spec fn drawing_text(wp: Seq<char>, wp_decl: Seq<char>, anchor_head: Seq<char>, wsp: Seq<char>) -> Seq<char> {
    "<w:drawing"@ + wp_decl + ">"@ + anchor_head
        + "<a:graphic xmlns:a=\"http://schemas.openxmlformats.org/drawingml/2006/main\"><a:graphicData uri=\"http://schemas.microsoft.com/office/word/2010/wordprocessingShape\">"@
        + wsp + "</a:graphicData></a:graphic>"@ + lts(wp) + "anchor></w:drawing>"@
}

/// A paragraph holding a shape: in a strict part, or without a VML twin, just the drawing;
/// otherwise a markup-compatibility choice of the drawing with the VML twin as fallback.
pub open spec fn wrap_paragraph_text(flavor: PartFlavor, wp: Seq<char>, wp_decl: Seq<char>, anchor_head: Seq<char>,
    wsp: Seq<char>, vml: Option<Seq<char>>) -> Seq<char> {
    let drawing = drawing_text(wp, wp_decl, anchor_head, wsp);
    match vml {
        Some(v) => if flavor == PartFlavor::Strict {
            "<w:p><w:r>"@ + drawing + "</w:r></w:p>"@
        } else {
            "<w:p><w:r><mc:AlternateContent xmlns:mc=\"http://schemas.openxmlformats.org/markup-compatibility/2006\" xmlns:wps=\"http://schemas.microsoft.com/office/word/2010/wordprocessingShape\"><mc:Choice Requires=\"wps\">"@
                + drawing + "</mc:Choice><mc:Fallback><w:pict>"@ + v + "</w:pict></mc:Fallback></mc:AlternateContent></w:r></w:p>"@
        },
        None => "<w:p><w:r>"@ + drawing + "</w:r></w:p>"@,
    }
}

/// Wraps a `wps:wsp` into a paragraph.
pub fn wrap_paragraph(flavor: PartFlavor, wp: &str, wp_decl: &str, anchor_head: &str, wsp: &str, vml: Option<&str>) -> (r: String)
    ensures
        r@ == wrap_paragraph_text(flavor, wp@, wp_decl@, anchor_head@, wsp@, match vml { Some(v) => Some(v@), None => None }),
{
    let mut drawing = text("<w:drawing");
    drawing.append(wp_decl);
    drawing.append(">");
    drawing.append(anchor_head);
    drawing.append("<a:graphic xmlns:a=\"http://schemas.openxmlformats.org/drawingml/2006/main\"><a:graphicData uri=\"http://schemas.microsoft.com/office/word/2010/wordprocessingShape\">");
    drawing.append(wsp);
    drawing.append("</a:graphicData></a:graphic>");
    push_lts(&mut drawing, wp);
    drawing.append("anchor></w:drawing>");
    let strict = match flavor {
        PartFlavor::Strict => true,
        PartFlavor::Transitional => false,
    };
    match vml {
        Some(v) if !strict => {
            let mut out = text("<w:p><w:r><mc:AlternateContent xmlns:mc=\"http://schemas.openxmlformats.org/markup-compatibility/2006\" xmlns:wps=\"http://schemas.microsoft.com/office/word/2010/wordprocessingShape\"><mc:Choice Requires=\"wps\">");
            out.append(drawing.as_str());
            out.append("</mc:Choice><mc:Fallback><w:pict>");
            out.append(v);
            out.append("</w:pict></mc:Fallback></mc:AlternateContent></w:r></w:p>");
            out
        },
        _ => {
            let mut out = text("<w:p><w:r>");
            out.append(drawing.as_str());
            out.append("</w:r></w:p>");
            out
        },
    }
}

/// The middle of an image's `wp:anchor`: the position, a NUL, and the wrapping element (which
/// goes after the extents and before `wp:docPr`).
pub open spec fn anchor_middle_text(wp: Seq<char>, wrap: ImageWrap, pos: Option<PosOffset>) -> Seq<char> {
    lt(wp) + "simplePos x=\"0\" y=\"0\"/>"@ + position_text(wp, pos, default_align_text(wrap)) + "\u{0}"@
        + wrap_el_text(wp, wrap)
}

impl NewImage {
    /// The three pieces of an image's `wp:anchor`: the opening tag, `position NUL wrapping`,
    /// and the closing tag.
    pub fn anchor_parts(wp: &str, wrap: ImageWrap, pos: Option<PosOffset>, z_order: Option<i64>) -> (r: (String, String, String))
        requires
            Z_BASE + (match z_order { Some(z) => z as int, None => 0 }) <= i64::MAX,
        ensures
            r.0@ == anchor_tag_text(wp@, match z_order { Some(z) => z as int, None => 0 }, wrap),
            r.1@ == anchor_middle_text(wp@, wrap, pos),
            r.2@ == lts(wp@) + "anchor>"@,
    {
        let z: i64 = match z_order {
            Some(z) => z,
            None => 0,
        };
        let open = anchor_tag(wp, z, wrap);
        let mut middle = lt_string(wp);
        middle.append("simplePos x=\"0\" y=\"0\"/>");
        let position = position_xml(wp, pos, wrap.default_align());
        middle.append(position.as_str());
        middle.append("\u{0}");
        push_wrap_el(&mut middle, wp, wrap);
        let mut close = text("</");
        close.append(wp);
        close.append(":");
        close.append("anchor>");
        assert(close@ =~= lts(wp@) + "anchor>"@);
        (open, middle, close)
    }
}

/// `b` is `a` with copies of `blocks` appended to every `w:txbxContent` in it (nothing below
/// a `w:txbxContent` changes).
pub open spec fn filled(a: NewElement, b: NewElement, blocks: Seq<NewElement>) -> bool
    decreases a,
{
    &&& b.name == a.name
    &&& b.attrs == a.attrs
    &&& if a.name == wn(LocalName::TxbxContent) {
        &&& b.children@.len() == a.children@.len() + blocks.len()
        &&& forall|i: int| 0 <= i < a.children@.len() ==> b.children@[i] == a.children@[i]
        &&& forall|j: int| 0 <= j < blocks.len() ==> (#[trigger] b.children@[a.children@.len() + j] matches NewNode::Element(x)
            && element_same(blocks[j], x))
    } else {
        &&& b.children@.len() == a.children@.len()
        &&& forall|i: int| 0 <= i < a.children@.len() ==> filled_node(a.children@[i], #[trigger] b.children@[i], blocks)
    }
}

/// [`filled`] on nodes: text stays as it is.
pub open spec fn filled_node(a: NewNode, b: NewNode, blocks: Seq<NewElement>) -> bool
    decreases a,
{
    match a {
        NewNode::Element(x) => b matches NewNode::Element(y) && filled(x, y, blocks),
        NewNode::Text(_) => b == a,
    }
}

/// Every empty-or-not `w:txbxContent` in the tree gets copies of `blocks` (the drawing and its
/// VML twin each hold one).
pub fn fill_txbx(node: &mut NewElement, blocks: &Vec<NewElement>)
    ensures
        filled(*old(node), *final(node), blocks@),
    decreases *old(node),
{
    let ghost orig = *node;
    if node.name == QName::w(LocalName::TxbxContent) {
        let n0 = node.children.len();
        for i in 0..blocks.len()
            invariant
                node.name == orig.name,
                node.attrs == orig.attrs,
                n0 == orig.children@.len(),
                node.children@.len() == n0 + i,
                forall|k: int| 0 <= k < n0 ==> node.children@[k] == orig.children@[k],
                forall|j: int| 0 <= j < i ==> (#[trigger] node.children@[n0 + j] matches NewNode::Element(x)
                    && element_same(blocks@[j], x)),
        {
            let c = blocks[i].copy();
            let ghost before = node.children@;
            node.children.push(NewNode::Element(c));
            proof {
                assert(node.children@ == before.push(NewNode::Element(c)));
                assert forall|j: int| 0 <= j < i + 1 implies (#[trigger] node.children@[n0 + j] matches NewNode::Element(x)
                    && element_same(blocks@[j], x)) by {
                    if j < i {
                        assert(before.push(NewNode::Element(c))[n0 + j] == before[n0 + j]);
                    }
                }
            }
        }
        return;
    }
    let mut kids: Vec<NewNode> = Vec::new();
    std::mem::swap(&mut kids, &mut node.children);
    let n = kids.len();
    let mut rev: Vec<NewNode> = Vec::new();
    while kids.len() > 0
        invariant
            n == orig.children@.len(),
            rev@.len() + kids@.len() == n,
            kids@ == orig.children@.take(kids@.len() as int),
            forall|j: int| 0 <= j < rev@.len() ==> #[trigger] rev@[j] == orig.children@[n - 1 - j],
            orig == *old(node),
        decreases kids@.len(),
    {
        let c = kids.pop().unwrap();
        proof {
            assert(c == orig.children@[n - 1 - rev@.len()]);
            assert(kids@ =~= orig.children@.take(kids@.len() as int));
        }
        rev.push(c);
    }
    let mut out: Vec<NewNode> = Vec::new();
    while rev.len() > 0
        invariant
            n == orig.children@.len(),
            out@.len() + rev@.len() == n,
            forall|j: int| 0 <= j < rev@.len() ==> #[trigger] rev@[j] == orig.children@[n - 1 - j],
            forall|i: int| 0 <= i < out@.len() ==> filled_node(orig.children@[i], #[trigger] out@[i], blocks@),
            orig.name != wn(LocalName::TxbxContent),
            orig == *old(node),
        decreases rev@.len(),
    {
        let ghost k = out@.len() as int;
        let c = rev.pop().unwrap();
        proof {
            assert(c == orig.children@[k]);
        }
        let ghost before = out@;
        match c {
            NewNode::Element(mut e) => {
                proof {
                    assert(decreases_to!(orig => orig.children));
                    assert(decreases_to!(orig.children => orig.children@));
                    assert(decreases_to!(orig.children@ => orig.children@[k]));
                    assert(decreases_to!(orig.children@[k] => e));
                }
                fill_txbx(&mut e, blocks);
                out.push(NewNode::Element(e));
                proof {
                    assert(filled_node(orig.children@[k], NewNode::Element(e), blocks@));
                }
            },
            NewNode::Text(t) => {
                out.push(NewNode::Text(t));
            },
        }
        proof {
            assert forall|i: int| 0 <= i < out@.len() implies filled_node(orig.children@[i], #[trigger] out@[i], blocks@) by {
                if i < k {
                    assert(out@[i] == before[i]);
                }
            }
        }
    }
    node.children = out;
}

} // verus!
