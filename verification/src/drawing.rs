use vstd::prelude::*;
use crate::chars::{chars_of, string_of};
use crate::diag::{DiagCode, Error};
use crate::dom::{Attr, Dom, NodeKind};
use crate::edit::{NodeEdit, Target};
use crate::ids::NodeId;
use crate::image::named_pred;
use crate::plan::{MutationPlan, MutationResult};
use crate::session::EditSession;
use crate::image::host_paragraph;
use crate::tables::wn;
use crate::track::{find_first, select};
use crate::content::{AnchorAxis, AnchorPos, AxisPos, ImageWrap};
use crate::diag::text;
use crate::image::{aq, nq};
use crate::tables::{attrs_are, is_leaf};
use crate::text::{decimal, spec_decimal};
use crate::xml::{LocalName, NewElement, NewNode, NsId, QName};

verus! {

/// The `relativeHeight` of z-order 0; higher values are drawn on top.
pub const Z_BASE: i64 = 251_658_240;

/// A name in the WordprocessingML drawing namespace.
pub open spec fn wpq(l: LocalName) -> QName {
    QName { ns: NsId::Wp, local: l }
}

/// `s` without its leading `#` characters.
pub open spec fn strip_hashes(s: Seq<char>) -> Seq<char>
    decreases s.len(),
{
    if s.len() > 0 && s[0] == '#' {
        strip_hashes(s.drop_first())
    } else {
        s
    }
}

/// The decimal text of a signed value.
pub open spec fn signed_text(v: int) -> Seq<char> {
    if v < 0 {
        seq!['-'] + spec_decimal((-v) as nat)
    } else {
        spec_decimal(v as nat)
    }
}

/// The decimal text of a signed value.
pub fn signed_decimal(v: i64) -> (s: String)
    ensures
        s@ == signed_text(v as int),
{
    if v < 0 {
        let m: u64 = (0i128 - (v as i128)) as u64;
        let mut s = text("-");
        let d = decimal(m);
        s.append(d.as_str());
        proof {
            reveal_strlit("-");
        }
        s
    } else {
        decimal(v as u64)
    }
}

/// `n` is the fill a colour gives: `a:solidFill` with an `a:srgbClr` of the colour (its
/// leading `#` dropped), or `a:noFill` without one.
pub open spec fn is_fill(n: NewElement, color: Option<Seq<char>>) -> bool {
    match color {
        Some(rgb) => n.name == aq(LocalName::SolidFill) && n.attrs@.len() == 0 && n.children@.len() == 1
            && is_leaf(n.children@[0], aq(LocalName::SrgbClr), seq![(nq(LocalName::Val), strip_hashes(rgb))]),
        None => n.name == aq(LocalName::NoFill) && n.attrs@.len() == 0 && n.children@.len() == 0,
    }
}

pub(crate) fn strip_leading_hashes(s: &str) -> (r: String)
    ensures
        r@ == strip_hashes(s@),
{
    let cs = chars_of(s);
    let mut i: usize = 0;
    assert(cs@.skip(0) =~= cs@);
    while i < cs.len() && cs[i] == '#'
        invariant
            cs@ == s@,
            i <= cs@.len(),
            strip_hashes(s@) == strip_hashes(cs@.skip(i as int)),
        decreases cs@.len() - i,
    {
        proof {
            assert(cs@.skip(i as int).drop_first() =~= cs@.skip(i + 1));
        }
        i = i + 1;
    }
    proof {
        assert(cs@.skip(i as int) =~= cs@.subrange(i as int, cs@.len() as int));
    }
    string_of(&cs, i, cs.len())
}

/// The fill element for a colour (`None`: no fill).
pub fn fill_element(color: Option<&str>) -> (e: NewElement)
    ensures
        is_fill(e, match color { Some(c) => Some(c@), None => None }),
{
    match color {
        Some(rgb) => {
            let clr = NewElement::new(QName::new(NsId::A, LocalName::SrgbClr)).with_attr(
                QName::new(NsId::NoNamespace, LocalName::Val), strip_leading_hashes(rgb));
            let e = NewElement::new(QName::new(NsId::A, LocalName::SolidFill)).with_child(clr);
            proof {
                assert(e.children@[0] == NewNode::Element(clr));
            }
            e
        },
        None => NewElement::new(QName::new(NsId::A, LocalName::NoFill)),
    }
}

/// `n` is a `wp:<name>` point at (`x`, `y`).
pub open spec fn is_point(n: NewNode, name: LocalName, x: Seq<char>, y: Seq<char>) -> bool {
    is_leaf(n, wpq(name), seq![(nq(LocalName::X), x), (nq(LocalName::Y), y)])
}

/// `e` is the polygon around the whole picture: a start point at the origin and lines
/// round the 21600 × 21600 square.
pub open spec fn is_rect_polygon(e: NewElement) -> bool {
    &&& e.name == wpq(LocalName::WrapPolygon)
    &&& attrs_are(e.attrs@, seq![(nq(LocalName::Edited), "0"@)])
    &&& e.children@.len() == 5
    &&& is_point(e.children@[0], LocalName::Start, "0"@, "0"@)
    &&& is_point(e.children@[1], LocalName::LineTo, "0"@, "21600"@)
    &&& is_point(e.children@[2], LocalName::LineTo, "21600"@, "21600"@)
    &&& is_point(e.children@[3], LocalName::LineTo, "21600"@, "0"@)
    &&& is_point(e.children@[4], LocalName::LineTo, "0"@, "0"@)
}

fn point(name: LocalName, x: &str, y: &str) -> (e: NewElement)
    ensures
        is_point(NewNode::Element(e), name, x@, y@),
{
    NewElement::new(QName::new(NsId::Wp, name)).with_attr(QName::new(NsId::NoNamespace, LocalName::X), x.to_string())
        .with_attr(QName::new(NsId::NoNamespace, LocalName::Y), y.to_string())
}

/// The polygon around the whole picture.
pub fn rect_polygon() -> (e: NewElement)
    ensures
        is_rect_polygon(e),
{
    let p0 = point(LocalName::Start, "0", "0");
    let p1 = point(LocalName::LineTo, "0", "21600");
    let p2 = point(LocalName::LineTo, "21600", "21600");
    let p3 = point(LocalName::LineTo, "21600", "0");
    let p4 = point(LocalName::LineTo, "0", "0");
    let e = NewElement::new(QName::new(NsId::Wp, LocalName::WrapPolygon)).with_attr(
        QName::new(NsId::NoNamespace, LocalName::Edited), text("0")).with_child(p0).with_child(p1).with_child(p2)
        .with_child(p3).with_child(p4);
    proof {
        assert(e.children@[0] == NewNode::Element(p0));
        assert(e.children@[1] == NewNode::Element(p1));
        assert(e.children@[2] == NewNode::Element(p2));
        assert(e.children@[3] == NewNode::Element(p3));
        assert(e.children@[4] == NewNode::Element(p4));
    }
    e
}

/// The wrap element of a wrapping style.
pub open spec fn wrap_name(w: ImageWrap) -> LocalName {
    match w {
        ImageWrap::Front | ImageWrap::Behind => LocalName::WrapNone,
        ImageWrap::TopBottom => LocalName::WrapTopAndBottom,
        ImageWrap::SquareLeft | ImageWrap::SquareRight => LocalName::WrapSquare,
        ImageWrap::TightLeft | ImageWrap::TightRight => LocalName::WrapTight,
        ImageWrap::ThroughLeft | ImageWrap::ThroughRight => LocalName::WrapThrough,
    }
}

/// Wrapping styles that follow a polygon.
pub open spec fn polygonal(w: ImageWrap) -> bool {
    w == ImageWrap::TightLeft || w == ImageWrap::TightRight || w == ImageWrap::ThroughLeft || w == ImageWrap::ThroughRight
}

/// `e` is the wrap element of `w`: text on both sides for square, tight and through wraps,
/// and, for the polygonal ones when `fresh_polygon`, a rectangle polygon inside.
pub open spec fn is_wrap(e: NewElement, w: ImageWrap, fresh_polygon: bool) -> bool {
    let both = w == ImageWrap::SquareLeft || w == ImageWrap::SquareRight || polygonal(w);
    &&& e.name == wpq(wrap_name(w))
    &&& (both ==> attrs_are(e.attrs@, seq![(nq(LocalName::WrapText), "bothSides"@)]))
    &&& (!both ==> e.attrs@.len() == 0)
    &&& (polygonal(w) && fresh_polygon ==> e.children@.len() == 1 && (e.children@[0] matches NewNode::Element(p) && is_rect_polygon(p)))
    &&& (!(polygonal(w) && fresh_polygon) ==> e.children@.len() == 0)
}

/// The wrap element of a wrapping style.
pub fn wrap_element(wrap: ImageWrap, fresh_polygon: bool) -> (e: NewElement)
    ensures
        is_wrap(e, wrap, fresh_polygon),
{
    let both = QName::new(NsId::NoNamespace, LocalName::WrapText);
    match wrap {
        ImageWrap::Front | ImageWrap::Behind => NewElement::new(QName::new(NsId::Wp, LocalName::WrapNone)),
        ImageWrap::TopBottom => NewElement::new(QName::new(NsId::Wp, LocalName::WrapTopAndBottom)),
        ImageWrap::SquareLeft | ImageWrap::SquareRight => {
            NewElement::new(QName::new(NsId::Wp, LocalName::WrapSquare)).with_attr(both, text("bothSides"))
        },
        _ => {
            let name = match wrap {
                ImageWrap::TightLeft | ImageWrap::TightRight => LocalName::WrapTight,
                _ => LocalName::WrapThrough,
            };
            let mut e = NewElement::new(QName::new(NsId::Wp, name)).with_attr(both, text("bothSides"));
            if fresh_polygon {
                let p = rect_polygon();
                e.push_child(p);
                proof {
                    assert(e.children@[0] == NewNode::Element(p));
                }
            }
            e
        },
    }
}

/// `e` is a `wp:<which>` element with `relativeFrom` `rel` holding a `wp:posOffset` with
/// `offset` or, without one, a `wp:align` with `align`.
pub open spec fn is_axis(e: NewElement, which: LocalName, rel: Seq<char>, offset: Option<int>, align: Seq<char>) -> bool {
    &&& e.name == wpq(which)
    &&& attrs_are(e.attrs@, seq![(nq(LocalName::RelativeFrom), rel)])
    &&& e.children@.len() == 1
    &&& e.children@[0] matches NewNode::Element(c)
    &&& c.attrs@.len() == 0
    &&& c.children@.len() == 1
    &&& match offset {
        Some(v) => c.name == wpq(LocalName::PosOffset) && (c.children@[0] matches NewNode::Text(t) && t@ == signed_text(v)),
        None => c.name == wpq(LocalName::Align) && (c.children@[0] matches NewNode::Text(t) && t@ == align),
    }
}

/// `e` is the `wp:<which>` element of an axis.
pub open spec fn is_position(e: NewElement, which: LocalName, axis: AnchorAxis) -> bool {
    match axis.pos {
        AxisPos::Offset(v) => is_axis(e, which, axis.relative_from@, Some(v as int), seq![]),
        AxisPos::Align(a) => is_axis(e, which, axis.relative_from@, None, a@),
    }
}

/// The `wp:positionH` / `wp:positionV` element of an axis.
pub fn position_element(which: LocalName, axis: &AnchorAxis) -> (e: NewElement)
    ensures
        is_position(e, which, *axis),
{
    let inner = match &axis.pos {
        AxisPos::Offset(v) => NewElement::new(QName::new(NsId::Wp, LocalName::PosOffset)).with_text(signed_decimal(*v)),
        AxisPos::Align(a) => NewElement::new(QName::new(NsId::Wp, LocalName::Align)).with_text(a.clone()),
    };
    let e = NewElement::new(QName::new(NsId::Wp, which)).with_attr(
        QName::new(NsId::NoNamespace, LocalName::RelativeFrom), axis.relative_from.clone()).with_child(inner);
    proof {
        assert(e.children@[0] == NewNode::Element(inner));
    }
    e
}

/// The position used when none is given: horizontally aligned by the wrap's side within
/// the column, vertically at the paragraph's top.
pub fn default_pos(wrap: ImageWrap) -> (p: AnchorPos)
    ensures
        p.h.relative_from@ == "column"@,
        p.h.pos matches AxisPos::Align(a) && a@ == crate::content::default_align_text(wrap),
        p.v.relative_from@ == "paragraph"@,
        p.v.pos == AxisPos::Offset(0),
{
    AnchorPos {
        h: AnchorAxis { relative_from: text("column"), pos: AxisPos::Align(wrap.default_align().to_string()) },
        v: AnchorAxis { relative_from: text("paragraph"), pos: AxisPos::Offset(0) },
    }
}

/// The `relativeHeight` of a z-order.
pub open spec fn relative_height(z: int) -> Seq<char> {
    spec_decimal((if Z_BASE + z < 0 { 0 } else { Z_BASE + z }) as nat)
}

fn relative_height_text(z: i64) -> (s: String)
    requires
        z <= i64::MAX - Z_BASE,
    ensures
        s@ == relative_height(z as int),
{
    let h: i64 = Z_BASE + z;
    let v: i64 = if h < 0 { 0 } else { h };
    decimal(v as u64)
}

/// `e` is a new drawing shell: `wp:inline` with zero distances, or `wp:anchor` for `wrap`
/// with Word's default attributes, the z-order's `relativeHeight`, `behindDoc` for the
/// behind-text wrap, a `wp:simplePos` at the origin and the two position elements of `pos`
/// (or of the default position).
pub open spec fn is_shell(e: NewElement, wrap: Option<ImageWrap>, pos: Option<AnchorPos>, z: Option<i64>) -> bool {
    match wrap {
        None => e.name == wpq(LocalName::Inline) && e.children@.len() == 0 && attrs_are(e.attrs@, seq![
            (nq(LocalName::DistT), "0"@),
            (nq(LocalName::DistB), "0"@),
            (nq(LocalName::DistL), "0"@),
            (nq(LocalName::DistR), "0"@),
        ]),
        Some(w) => {
            &&& e.name == wpq(LocalName::Anchor)
            &&& attrs_are(e.attrs@, seq![
                (nq(LocalName::DistT), "0"@),
                (nq(LocalName::DistB), "0"@),
                (nq(LocalName::DistL), "114300"@),
                (nq(LocalName::DistR), "114300"@),
                (nq(LocalName::SimplePos), "0"@),
                (nq(LocalName::RelativeHeight), relative_height(match z { Some(v) => v as int, None => 0 })),
                (nq(LocalName::BehindDoc), if w == ImageWrap::Behind { "1"@ } else { "0"@ }),
                (nq(LocalName::Locked), "0"@),
                (nq(LocalName::LayoutInCell), "1"@),
                (nq(LocalName::AllowOverlap), "1"@),
            ])
            &&& e.children@.len() == 3
            &&& is_point(e.children@[0], LocalName::SimplePos, "0"@, "0"@)
            &&& match pos {
                Some(p) => (e.children@[1] matches NewNode::Element(h) && is_position(h, LocalName::PositionH, p.h))
                    && (e.children@[2] matches NewNode::Element(v) && is_position(v, LocalName::PositionV, p.v)),
                None => (e.children@[1] matches NewNode::Element(h)
                    && is_axis(h, LocalName::PositionH, "column"@, None, crate::content::default_align_text(w)))
                    && (e.children@[2] matches NewNode::Element(v) && is_axis(v, LocalName::PositionV, "paragraph"@, Some(0), seq![])),
            }
        },
    }
}

/// A new `wp:inline` (no wrap) or `wp:anchor` shell, without the children that are moved
/// into it and without its wrap element.
pub fn shell_element(wrap: Option<ImageWrap>, pos: Option<&AnchorPos>, z_order: Option<i64>) -> (e: NewElement)
    requires
        match z_order { Some(z) => z <= i64::MAX - Z_BASE, None => true },
    ensures
        is_shell(e, wrap, match pos { Some(p) => Some(*p), None => None }, z_order),
{
    let none = |l: LocalName| -> (q: QName)
        ensures q == nq(l),
    { QName::new(NsId::NoNamespace, l) };
    let w = match wrap {
        None => {
            let e = NewElement::new(QName::new(NsId::Wp, LocalName::Inline))
                .with_attr(none(LocalName::DistT), text("0"))
                .with_attr(none(LocalName::DistB), text("0"))
                .with_attr(none(LocalName::DistL), text("0"))
                .with_attr(none(LocalName::DistR), text("0"));
            return e;
        },
        Some(w) => w,
    };
    let z: i64 = match z_order { Some(v) => v, None => 0 };
    let behind = if w == ImageWrap::Behind { text("1") } else { text("0") };
    let sp = point(LocalName::SimplePos, "0", "0");
    let default = default_pos(w);
    let (h, v) = match pos {
        Some(p) => (position_element(LocalName::PositionH, &p.h), position_element(LocalName::PositionV, &p.v)),
        None => (position_element(LocalName::PositionH, &default.h), position_element(LocalName::PositionV, &default.v)),
    };
    let e = NewElement::new(QName::new(NsId::Wp, LocalName::Anchor))
        .with_attr(none(LocalName::DistT), text("0"))
        .with_attr(none(LocalName::DistB), text("0"))
        .with_attr(none(LocalName::DistL), text("114300"))
        .with_attr(none(LocalName::DistR), text("114300"))
        .with_attr(none(LocalName::SimplePos), text("0"))
        .with_attr(none(LocalName::RelativeHeight), relative_height_text(z))
        .with_attr(none(LocalName::BehindDoc), behind)
        .with_attr(none(LocalName::Locked), text("0"))
        .with_attr(none(LocalName::LayoutInCell), text("1"))
        .with_attr(none(LocalName::AllowOverlap), text("1"))
        .with_child(sp)
        .with_child(h)
        .with_child(v);
    proof {
        assert(e.children@[0] == NewNode::Element(sp));
        assert(e.children@[1] == NewNode::Element(h));
        assert(e.children@[2] == NewNode::Element(v));
        assert(attrs_are(e.attrs@, seq![
            (nq(LocalName::DistT), "0"@),
            (nq(LocalName::DistB), "0"@),
            (nq(LocalName::DistL), "114300"@),
            (nq(LocalName::DistR), "114300"@),
            (nq(LocalName::SimplePos), "0"@),
            (nq(LocalName::RelativeHeight), relative_height(match z_order { Some(v) => v as int, None => 0 })),
            (nq(LocalName::BehindDoc), if w == ImageWrap::Behind { "1"@ } else { "0"@ }),
            (nq(LocalName::Locked), "0"@),
            (nq(LocalName::LayoutInCell), "1"@),
            (nq(LocalName::AllowOverlap), "1"@),
        ]));
    }
    e
}


/// `xml:space`.
pub open spec fn xml_space() -> QName {
    QName { ns: NsId::Xml, local: LocalName::Space }
}

/// `e` sets attribute `name` of `node` to `v`.
pub open spec fn sets_attr(e: NodeEdit, node: NodeId, name: QName, v: Seq<char>) -> bool {
    e matches NodeEdit::SetAttr { node: t, name: q, value } && t == Target::Node(node) && q == name && value@ == v
}

/// The attributes of element `n` as names and values.
pub open spec fn attr_views(dom: Dom, n: NodeId) -> Seq<(QName, Seq<char>)> {
    match dom.at(n).kind {
        NodeKind::Element(e) => e.attrs@.map_values(|a: Attr| (a.name, a.value@)),
        NodeKind::Text(_) => seq![],
    }
}

/// `a` without its `xml:space` entries.
pub open spec fn drop_space(a: Seq<(QName, Seq<char>)>) -> Seq<(QName, Seq<char>)>
    decreases a.len(),
{
    if a.len() == 0 {
        a
    } else if a.last().0 == xml_space() {
        drop_space(a.drop_last())
    } else {
        drop_space(a.drop_last()).push(a.last())
    }
}

/// Text elements whose boundary white space must be kept.
pub open spec fn preserves_space(dom: Dom, seg: NodeId) -> bool {
    dom.name_of(seg) matches Some(q) && q.ns == NsId::W && (q.local == LocalName::T || q.local == LocalName::DelText
        || q.local == LocalName::InstrText || q.local == LocalName::DelInstrText)
}

fn is_space_kept(dom: &Dom, seg: NodeId) -> (r: bool)
    ensures
        r == preserves_space(*dom, seg),
{
    match dom.name(seg) {
        Some(q) => q.ns == NsId::W && (q.local == LocalName::T || q.local == LocalName::DelText
            || q.local == LocalName::InstrText || q.local == LocalName::DelInstrText),
        None => false,
    }
}

/// The attributes of element `n`, without `xml:space` when `drop`.
fn attrs_for(dom: &Dom, n: NodeId, drop: bool) -> (r: Vec<(QName, String)>)
    requires
        dom.is_element(n),
    ensures
        attrs_are(r@, if drop { drop_space(attr_views(*dom, n)) } else { attr_views(*dom, n) }),
{
    let el = dom.element(n).unwrap();
    let ghost all = attr_views(*dom, n);
    let mut out: Vec<(QName, String)> = Vec::new();
    for i in 0..el.attrs.len()
        invariant
            dom.at(n).kind == NodeKind::Element(*el),
            all == attr_views(*dom, n),
            attrs_are(out@, if drop { drop_space(all.take(i as int)) } else { all.take(i as int) }),
    {
        proof {
            assert(all.take(i + 1).drop_last() =~= all.take(i as int));
            assert(all.take(i + 1).last() == (el.attrs@[i as int].name, el.attrs@[i as int].value@));
        }
        if !(drop && el.attrs[i].name == QName::new(NsId::Xml, LocalName::Space)) {
            out.push((el.attrs[i].name, el.attrs[i].value.clone()));
        }
        proof {
            if !drop {
                assert(all.take(i + 1) =~= all.take(i as int).push(all[i as int]));
            }
        }
    }
    proof {
        assert(all.take(el.attrs@.len() as int) =~= all);
    }
    out
}

/// `tail` holds the edits that set the text of segment element `seg` to `text`: a `SetText`
/// on its only live text child (then `xml:space="preserve"` on a `w:t`-like element), or,
/// without such a child, a `Replace` by an element of the same name and attributes
/// (`xml:space="preserve"` last for a `w:t`-like element) holding just the text.
pub open spec fn seg_text_ok(dom: Dom, seg: NodeId, text: Seq<char>, tail: Seq<NodeEdit>) -> bool {
    match dom.sole_text(seg) {
        Some(tn) => {
            &&& tail.len() == (if preserves_space(dom, seg) { 2int } else { 1int })
            &&& tail[0] matches NodeEdit::SetText { node, text: t } && node == tn && t@ == text
            &&& preserves_space(dom, seg) ==> sets_attr(tail[1], seg, xml_space(), "preserve"@)
        },
        None => {
            &&& tail.len() == 1
            &&& tail[0] matches NodeEdit::Replace { old: o, node: e } && o == seg && Some(e.name) == dom.name_of(seg)
                && attrs_are(e.attrs@, if preserves_space(dom, seg) {
                    drop_space(attr_views(dom, seg)).push((xml_space(), "preserve"@))
                } else {
                    attr_views(dom, seg)
                })
                && e.children@.len() == 1 && (e.children@[0] matches NewNode::Text(t) && t@ == text)
        },
    }
}

impl MutationPlan {
    /// Sets the text of a segment element: the text of its only live text child changes
    /// (and a `w:t`-like element gets `xml:space="preserve"` so boundary spaces survive);
    /// otherwise the element is replaced by one with its name and attributes holding just
    /// the text.
    pub fn set_segment_text(&mut self, dom: &Dom, seg: NodeId, text: &str)
        requires
            dom.wf(),
            dom.is_element(seg),
        ensures
            same_but_edits(*old(self), *final(self)),
            final(self).node_edits@.len() > old(self).node_edits@.len(),
            final(self).node_edits@.subrange(0, old(self).node_edits@.len() as int) == old(self).node_edits@,
            seg_text_ok(*dom, seg, text@, final(self).node_edits@.subrange(old(self).node_edits@.len() as int, final(self).node_edits@.len() as int)),
    {
        let preserve = is_space_kept(dom, seg);
        match dom.sole_live_text_child(seg) {
            Some(tn) => {
                self.push(NodeEdit::SetText { node: tn, text: text.to_string() });
                if preserve {
                    self.push(NodeEdit::SetAttr { node: Target::Node(seg), name: QName::new(NsId::Xml, LocalName::Space), value: crate::diag::text("preserve") });
                    proof {
                        reveal_strlit("preserve");
                    }
                }
            },
            None => {
                let name = dom.name(seg).unwrap();
                let mut attrs = attrs_for(dom, seg, preserve);
                if preserve {
                    attrs.push((QName::new(NsId::Xml, LocalName::Space), crate::diag::text("preserve")));
                    proof {
                        reveal_strlit("preserve");
                    }
                }
                let e = NewElement { name, attrs, children: Vec::new() }.with_text(text.to_string());
                self.push(NodeEdit::Replace { old: seg, node: e });
            },
        }
    }
}

impl Dom {
    /// The only live child of `n`, when it is a text node.
    pub open spec fn sole_text(&self, n: NodeId) -> Option<NodeId> {
        if self.has(n) && self.spec_live_children(n).len() == 1 && self.is_text(self.spec_live_children(n)[0]) {
            Some(self.spec_live_children(n)[0])
        } else {
            None
        }
    }
}

/// `b` differs from `a` at most in its edits.
pub open spec fn same_but_edits(a: MutationPlan, b: MutationPlan) -> bool {
    crate::image::same_but_edits(a, b)
}

/// The `wp:inline` or `wp:anchor` of a drawing.
pub open spec fn shell_of(dom: Dom, drawing: NodeId) -> Option<NodeId> {
    find_first(dom.spec_live_children(drawing), |c: NodeId| dom.named(c, wpq(LocalName::Inline)) || dom.named(c, wpq(LocalName::Anchor)))
}

/// The first live child of `n` named `q`.
pub open spec fn child_named(dom: Dom, n: NodeId, q: QName) -> Option<NodeId> {
    find_first(dom.spec_live_children(n), named_pred(dom, q))
}

pub fn first_child_named(dom: &Dom, n: NodeId, q: QName) -> (r: Option<NodeId>)
    requires
        dom.wf(),
        dom.has(n),
    ensures
        r == child_named(*dom, n, q),
        r matches Some(c) ==> dom.has(c),
{
    let kids = dom.live_children(n);
    proof {
        dom.lemma_live_children_have(n);
    }
    let mut i: usize = 0;
    assert(kids@.skip(0) =~= kids@);
    while i < kids.len()
        invariant
            i <= kids@.len(),
            kids@ == dom.spec_live_children(n),
            forall|j: int| 0 <= j < kids@.len() ==> dom.has(#[trigger] kids@[j]),
            find_first(kids@, named_pred(*dom, q)) == find_first(kids@.skip(i as int), named_pred(*dom, q)),
        decreases kids@.len() - i,
    {
        proof {
            assert(kids@.skip(i as int).drop_first() =~= kids@.skip(i + 1));
            assert(kids@.skip(i as int)[0] == kids@[i as int]);
        }
        if dom.is(kids[i], q) {
            return Some(kids[i]);
        }
        i = i + 1;
    }
    None
}

/// The `wp:inline` or `wp:anchor` of a drawing; `EditBadPosition` when it has none.
pub fn shell(dom: &Dom, drawing: NodeId) -> (r: Result<NodeId, Error>)
    requires
        dom.wf(),
        dom.has(drawing),
    ensures
        match shell_of(*dom, drawing) {
            Some(s) => r == Ok::<NodeId, Error>(s) && dom.has(s),
            None => r matches Err(e) && e.has_code(DiagCode::EditBadPosition),
        },
{
    let kids = dom.live_children(drawing);
    proof {
        dom.lemma_live_children_have(drawing);
    }
    let mut i: usize = 0;
    assert(kids@.skip(0) =~= kids@);
    while i < kids.len()
        invariant
            i <= kids@.len(),
            kids@ == dom.spec_live_children(drawing),
            forall|j: int| 0 <= j < kids@.len() ==> dom.has(#[trigger] kids@[j]),
            shell_of(*dom, drawing) == find_first(kids@.skip(i as int), |c: NodeId| dom.named(c, wpq(LocalName::Inline)) || dom.named(c, wpq(LocalName::Anchor))),
        decreases kids@.len() - i,
    {
        proof {
            assert(kids@.skip(i as int).drop_first() =~= kids@.skip(i + 1));
            assert(kids@.skip(i as int)[0] == kids@[i as int]);
        }
        if dom.is(kids[i], QName::new(NsId::Wp, LocalName::Inline)) || dom.is(kids[i], QName::new(NsId::Wp, LocalName::Anchor)) {
            return Ok(kids[i]);
        }
        i = i + 1;
    }
    Err(Error::edit(DiagCode::EditBadPosition, crate::diag::text("w:drawing 里没有 inline / anchor")))
}

/// Is `n` a wrap element (`wp:wrapNone`, `wrapSquare`, `wrapTight`, `wrapThrough` or
/// `wrapTopAndBottom`)?
pub open spec fn is_wrap_node(dom: Dom, n: NodeId) -> bool {
    dom.named(n, wpq(LocalName::WrapNone)) || dom.named(n, wpq(LocalName::WrapSquare)) || dom.named(n, wpq(LocalName::WrapTight))
        || dom.named(n, wpq(LocalName::WrapThrough)) || dom.named(n, wpq(LocalName::WrapTopAndBottom))
}

/// Is `n` a wrap element?
pub fn is_wrap_element(dom: &Dom, n: NodeId) -> (r: bool)
    ensures
        r == is_wrap_node(*dom, n),
{
    dom.is(n, QName::new(NsId::Wp, LocalName::WrapNone)) || dom.is(n, QName::new(NsId::Wp, LocalName::WrapSquare))
        || dom.is(n, QName::new(NsId::Wp, LocalName::WrapTight)) || dom.is(n, QName::new(NsId::Wp, LocalName::WrapThrough))
        || dom.is(n, QName::new(NsId::Wp, LocalName::WrapTopAndBottom))
}

/// Between tight and through wraps the old wrap polygon is kept.
pub open spec fn keeps_poly(dom: Dom, old_wrap: Option<NodeId>, next: ImageWrap) -> bool {
    polygonal(next) && (old_wrap matches Some(w) && (dom.named(w, wpq(LocalName::WrapTight)) || dom.named(w, wpq(LocalName::WrapThrough))))
}

/// Is the old wrap polygon kept?
pub fn keeps_polygon(dom: &Dom, old_wrap: Option<NodeId>, next: ImageWrap) -> (r: bool)
    ensures
        r == keeps_poly(*dom, old_wrap, next),
{
    let poly = match next {
        ImageWrap::TightLeft | ImageWrap::TightRight | ImageWrap::ThroughLeft | ImageWrap::ThroughRight => true,
        _ => false,
    };
    poly && match old_wrap {
        Some(w) => dom.is(w, QName::new(NsId::Wp, LocalName::WrapTight)) || dom.is(w, QName::new(NsId::Wp, LocalName::WrapThrough)),
        None => false,
    }
}


/// The anchor's current wrap element.
pub open spec fn old_wrap_of(dom: Dom, anchor: NodeId) -> Option<NodeId> {
    find_first(dom.spec_live_children(anchor), |c: NodeId| is_wrap_node(dom, c))
}

/// The wrap polygon that moves into the new wrap element.
pub open spec fn kept_polygon(dom: Dom, anchor: NodeId, wrap: ImageWrap) -> Option<NodeId> {
    if keeps_poly(dom, old_wrap_of(dom, anchor), wrap) {
        child_named(dom, old_wrap_of(dom, anchor).unwrap(), wpq(LocalName::WrapPolygon))
    } else {
        None
    }
}

/// Where the new wrap element goes: in place of the old one, else before `wp:docPr`.
pub open spec fn wrap_site(dom: Dom, anchor: NodeId) -> Option<NodeId> {
    match old_wrap_of(dom, anchor) {
        Some(w) => Some(w),
        None => child_named(dom, anchor, wpq(LocalName::DocPr)),
    }
}

/// Where a missing position element goes: before the first live child that is not
/// `wp:simplePos`.
pub open spec fn position_site(dom: Dom, anchor: NodeId) -> Option<NodeId> {
    find_first(dom.spec_live_children(anchor), |c: NodeId| !dom.named(c, wpq(LocalName::SimplePos)))
}

/// `e` writes the position element of `axis` for `which`: it replaces the old one, or is
/// inserted where [`position_site`] says.
pub open spec fn position_edit_ok(dom: Dom, anchor: NodeId, which: LocalName, axis: AnchorAxis, e: NodeEdit) -> bool {
    match child_named(dom, anchor, wpq(which)) {
        Some(old) => e matches NodeEdit::Replace { old: o, node } && o == old && is_position(node, which, axis),
        None => e matches NodeEdit::Insert { parent, before, node } && parent == Target::Node(anchor)
            && before == position_site(dom, anchor) && is_position(node, which, axis),
    }
}

/// The alignment of the anchor's `wp:positionH`, when it has one.
pub open spec fn h_align_of(dom: Dom, anchor: NodeId) -> Option<NodeId> {
    match child_named(dom, anchor, wpq(LocalName::PositionH)) {
        Some(h) => child_named(dom, h, wpq(LocalName::Align)),
        None => None,
    }
}

/// The position part of an in-place anchor rewrite: with a position, the two position
/// elements; without one, a horizontal alignment (if any) follows the wrap's side.
pub open spec fn anchor_pos_ok(dom: Dom, anchor: NodeId, wrap: ImageWrap, pos: Option<AnchorPos>, tail: Seq<NodeEdit>) -> bool {
    match pos {
        Some(p) => tail.len() == 2 && position_edit_ok(dom, anchor, LocalName::PositionH, p.h, tail[0])
            && position_edit_ok(dom, anchor, LocalName::PositionV, p.v, tail[1]),
        None => match h_align_of(dom, anchor) {
            Some(a) => seg_text_ok(dom, a, crate::content::default_align_text(wrap), tail),
            None => tail.len() == 0,
        },
    }
}

/// `edits` (from index `k` of the plan on) rewrite anchor `anchor` in place for `wrap`:
/// `behindDoc`, the z-order's `relativeHeight` when given, the new wrap element where the
/// old one was (the old polygon moved into it between tight and through wraps, else a fresh
/// rectangle for polygonal wraps), the old wrap element deleted, then [`anchor_pos_ok`].
pub open spec fn in_place_ok(dom: Dom, anchor: NodeId, wrap: ImageWrap, pos: Option<AnchorPos>, z: Option<i64>,
    edits: Seq<NodeEdit>, k: int) -> bool {
    let zk: int = if z is Some { 1 } else { 0 };
    let at = k + 1 + zk;
    let pk: int = if kept_polygon(dom, anchor, wrap) is Some { 1 } else { 0 };
    let wk: int = if old_wrap_of(dom, anchor) is Some { 1 } else { 0 };
    let end = at + 1 + pk + wk;
    &&& end <= edits.len()
    &&& sets_attr(edits[k], anchor, nq(LocalName::BehindDoc), if wrap == ImageWrap::Behind { "1"@ } else { "0"@ })
    &&& (z matches Some(v) ==> sets_attr(edits[k + 1], anchor, nq(LocalName::RelativeHeight), relative_height(v as int)))
    &&& edits[at] matches NodeEdit::Insert { parent, before, node } && parent == Target::Node(anchor)
        && before == wrap_site(dom, anchor) && is_wrap(node, wrap, kept_polygon(dom, anchor, wrap) is None)
    &&& (kept_polygon(dom, anchor, wrap) matches Some(poly) ==> edits[at + 1] == (NodeEdit::Move {
        node: poly,
        parent: Target::New(at as usize),
        before: None,
    }))
    &&& (old_wrap_of(dom, anchor) matches Some(w) ==> edits[at + 1 + pk] == NodeEdit::Delete(w))
    &&& anchor_pos_ok(dom, anchor, wrap, pos, edits.subrange(end, edits.len() as int))
}

fn find_wrap(dom: &Dom, anchor: NodeId) -> (r: Option<NodeId>)
    requires
        dom.wf(),
        dom.has(anchor),
    ensures
        r == old_wrap_of(*dom, anchor),
        r matches Some(w) ==> dom.has(w),
{
    let kids = dom.live_children(anchor);
    proof {
        dom.lemma_live_children_have(anchor);
    }
    let mut i: usize = 0;
    assert(kids@.skip(0) =~= kids@);
    while i < kids.len()
        invariant
            i <= kids@.len(),
            kids@ == dom.spec_live_children(anchor),
            forall|j: int| 0 <= j < kids@.len() ==> dom.has(#[trigger] kids@[j]),
            old_wrap_of(*dom, anchor) == find_first(kids@.skip(i as int), |c: NodeId| is_wrap_node(*dom, c)),
        decreases kids@.len() - i,
    {
        proof {
            assert(kids@.skip(i as int).drop_first() =~= kids@.skip(i + 1));
            assert(kids@.skip(i as int)[0] == kids@[i as int]);
        }
        if is_wrap_element(dom, kids[i]) {
            return Some(kids[i]);
        }
        i = i + 1;
    }
    None
}

fn find_position_site(dom: &Dom, anchor: NodeId) -> (r: Option<NodeId>)
    requires
        dom.wf(),
        dom.has(anchor),
    ensures
        r == position_site(*dom, anchor),
{
    let kids = dom.live_children(anchor);
    let mut i: usize = 0;
    assert(kids@.skip(0) =~= kids@);
    while i < kids.len()
        invariant
            i <= kids@.len(),
            kids@ == dom.spec_live_children(anchor),
            position_site(*dom, anchor) == find_first(kids@.skip(i as int), |c: NodeId| !dom.named(c, wpq(LocalName::SimplePos))),
        decreases kids@.len() - i,
    {
        proof {
            assert(kids@.skip(i as int).drop_first() =~= kids@.skip(i + 1));
            assert(kids@.skip(i as int)[0] == kids@[i as int]);
        }
        if !dom.is(kids[i], QName::new(NsId::Wp, LocalName::SimplePos)) {
            return Some(kids[i]);
        }
        i = i + 1;
    }
    None
}

fn push_position(plan: &mut MutationPlan, dom: &Dom, anchor: NodeId, which: LocalName, axis: &AnchorAxis)
    requires
        dom.wf(),
        dom.has(anchor),
    ensures
        same_but_edits(*old(plan), *final(plan)),
        final(plan).node_edits@.len() == old(plan).node_edits@.len() + 1,
        final(plan).node_edits@.drop_last() == old(plan).node_edits@,
        position_edit_ok(*dom, anchor, which, *axis, final(plan).node_edits@.last()),
{
    let e = position_element(which, axis);
    match first_child_named(dom, anchor, QName::new(NsId::Wp, which)) {
        Some(old) => plan.push(NodeEdit::Replace { old, node: e }),
        None => {
            let before = find_position_site(dom, anchor);
            plan.push(NodeEdit::Insert { parent: Target::Node(anchor), before, node: e });
        },
    }
    assert(final(plan).node_edits@.drop_last() =~= old(plan).node_edits@);
}

fn push_anchor_pos(plan: &mut MutationPlan, dom: &Dom, anchor: NodeId, wrap: ImageWrap, pos: Option<&AnchorPos>)
    requires
        dom.wf(),
        dom.has(anchor),
    ensures
        same_but_edits(*old(plan), *final(plan)),
        final(plan).node_edits@.len() >= old(plan).node_edits@.len(),
        final(plan).node_edits@.subrange(0, old(plan).node_edits@.len() as int) == old(plan).node_edits@,
        anchor_pos_ok(*dom, anchor, wrap, match pos { Some(p) => Some(*p), None => None },
            final(plan).node_edits@.subrange(old(plan).node_edits@.len() as int, final(plan).node_edits@.len() as int)),
{
    let ghost k = plan.node_edits@.len() as int;
    match pos {
        Some(p) => {
            push_position(plan, dom, anchor, LocalName::PositionH, &p.h);
            let ghost one = plan.node_edits@;
            push_position(plan, dom, anchor, LocalName::PositionV, &p.v);
            proof {
                assert(plan.node_edits@.subrange(0, k) =~= old(plan).node_edits@);
                let tail = plan.node_edits@.subrange(k, plan.node_edits@.len() as int);
                assert(tail[0] == one.last());
                assert(tail[1] == plan.node_edits@.last());
            }
        },
        None => {
            let h = first_child_named(dom, anchor, QName::new(NsId::Wp, LocalName::PositionH));
            let a = match h {
                Some(h) => first_child_named(dom, h, QName::new(NsId::Wp, LocalName::Align)),
                None => None,
            };
            assert(a == h_align_of(*dom, anchor));
            match a {
                Some(a) => {
                    proof {
                        crate::image::lemma_find_first_in(dom.spec_live_children(h.unwrap()), named_pred(*dom, wpq(LocalName::Align)));
                    }
                    plan.set_segment_text(dom, a, wrap.default_align());
                },
                None => {
                    assert(plan.node_edits@.subrange(0, k) =~= old(plan).node_edits@);
                },
            }
        },
    }
}

fn push_wrap_swap(plan: &mut MutationPlan, dom: &Dom, anchor: NodeId, wrap: ImageWrap)
    requires
        dom.wf(),
        dom.has(anchor),
    ensures
        same_but_edits(*old(plan), *final(plan)),
        ({
            let k = old(plan).node_edits@.len() as int;
            let pk: int = if kept_polygon(*dom, anchor, wrap) is Some { 1 } else { 0 };
            let wk: int = if old_wrap_of(*dom, anchor) is Some { 1 } else { 0 };
            let edits = final(plan).node_edits@;
            &&& edits.len() == k + 1 + pk + wk
            &&& edits.subrange(0, k) == old(plan).node_edits@
            &&& edits[k] matches NodeEdit::Insert { parent, before, node } && parent == Target::Node(anchor)
                && before == wrap_site(*dom, anchor) && is_wrap(node, wrap, kept_polygon(*dom, anchor, wrap) is None)
            &&& (kept_polygon(*dom, anchor, wrap) matches Some(poly) ==> edits[k + 1] == (NodeEdit::Move {
                node: poly,
                parent: Target::New(k as usize),
                before: None,
            }))
            &&& (old_wrap_of(*dom, anchor) matches Some(w) ==> edits[k + 1 + pk] == NodeEdit::Delete(w))
        }),
{
    let old_wrap = find_wrap(dom, anchor);
    let polygon = if keeps_polygon(dom, old_wrap, wrap) {
        first_child_named(dom, old_wrap.unwrap(), QName::new(NsId::Wp, LocalName::WrapPolygon))
    } else {
        None
    };
    let before = match old_wrap {
        Some(w) => Some(w),
        None => first_child_named(dom, anchor, QName::new(NsId::Wp, LocalName::DocPr)),
    };
    let at = plan.node_edits.len();
    plan.push(NodeEdit::Insert { parent: Target::Node(anchor), before, node: wrap_element(wrap, polygon.is_none()) });
    let ghost e0 = plan.node_edits@[at as int];
    if let Some(poly) = polygon {
        plan.push(NodeEdit::Move { node: poly, parent: Target::New(at), before: None });
    }
    let ghost e1 = plan.node_edits@;
    if let Some(w) = old_wrap {
        plan.push(NodeEdit::Delete(w));
    }
    proof {
        assert(plan.node_edits@[at as int] == e0);
        assert(plan.node_edits@.subrange(0, at as int) =~= old(plan).node_edits@);
    }
}

/// Rewrites an anchored drawing's shell in place for a new wrap (see [`in_place_ok`]).
pub fn in_place_anchor(dom: &Dom, plan: &mut MutationPlan, anchor: NodeId, wrap: ImageWrap, pos: Option<&AnchorPos>,
    z_order: Option<i64>)
    requires
        dom.wf(),
        dom.has(anchor),
        match z_order { Some(z) => z <= i64::MAX - Z_BASE, None => true },
    ensures
        same_but_edits(*old(plan), *final(plan)),
        final(plan).node_edits@.subrange(0, old(plan).node_edits@.len() as int) == old(plan).node_edits@,
        in_place_ok(*dom, anchor, wrap, match pos { Some(p) => Some(*p), None => None }, z_order, final(plan).node_edits@,
            old(plan).node_edits@.len() as int),
{
    let ghost k = plan.node_edits@.len() as int;
    let behind = if wrap == ImageWrap::Behind { crate::diag::text("1") } else { crate::diag::text("0") };
    plan.push(NodeEdit::SetAttr { node: Target::Node(anchor), name: QName::new(NsId::NoNamespace, LocalName::BehindDoc), value: behind });
    if let Some(z) = z_order {
        plan.push(NodeEdit::SetAttr { node: Target::Node(anchor), name: QName::new(NsId::NoNamespace, LocalName::RelativeHeight), value: relative_height_text(z) });
    }
    let ghost head = plan.node_edits@;
    proof {
        assert(sets_attr(head[k], anchor, nq(LocalName::BehindDoc), if wrap == ImageWrap::Behind { "1"@ } else { "0"@ })) by {
            reveal_strlit("1");
            reveal_strlit("0");
        }
    }
    push_wrap_swap(plan, dom, anchor, wrap);
    let ghost mid = plan.node_edits@;
    push_anchor_pos(plan, dom, anchor, wrap, pos);
    proof {
        let end = mid.len() as int;
        let fin = plan.node_edits@;
        assert forall|i: int| 0 <= i < end implies fin[i] == mid[i] by {
            assert(fin.subrange(0, end)[i] == fin[i]);
        }
        assert forall|i: int| 0 <= i < head.len() implies mid[i] == head[i] by {
            assert(mid.subrange(0, head.len() as int)[i] == mid[i]);
        }
        assert(fin.subrange(0, k) =~= old(plan).node_edits@);
        let zk: int = if z_order is Some { 1 } else { 0 };
        assert(head.len() == k + 1 + zk);
        assert(fin[k] == head[k]);
        if z_order is Some {
            assert(fin[k + 1] == head[k + 1]);
        }
        assert(in_place_ok(*dom, anchor, wrap, match pos { Some(p) => Some(*p), None => None }, z_order, fin, k));
    }
}


/// The children a rebuilt shell takes over from the old one, in schema order: the first two
/// go before the wrap element, the rest after it.
pub open spec fn carried() -> Seq<QName> {
    seq![wpq(LocalName::Extent), wpq(LocalName::EffectExtent), wpq(LocalName::DocPr), wpq(LocalName::CNvGraphicFramePr),
        aq(LocalName::Graphic)]
}

fn carried_names() -> (r: Vec<QName>)
    ensures
        r@ == carried(),
{
    let r = vec![QName::new(NsId::Wp, LocalName::Extent), QName::new(NsId::Wp, LocalName::EffectExtent),
        QName::new(NsId::Wp, LocalName::DocPr), QName::new(NsId::Wp, LocalName::CNvGraphicFramePr),
        QName::new(NsId::A, LocalName::Graphic)];
    assert(r@ =~= carried());
    r
}

/// Moves of the old shell's first live child of each name in `qs` into the new shell
/// (created by edit `at`).
pub open spec fn carry_edits(dom: Dom, shell0: NodeId, qs: Seq<QName>, at: usize) -> Seq<NodeEdit>
    decreases qs.len(),
{
    if qs.len() == 0 {
        seq![]
    } else {
        let prev = carry_edits(dom, shell0, qs.drop_last(), at);
        match child_named(dom, shell0, qs.last()) {
            Some(n) => prev.push(NodeEdit::Move { node: n, parent: Target::New(at), before: None }),
            None => prev,
        }
    }
}

fn push_carry(plan: &mut MutationPlan, dom: &Dom, shell0: NodeId, qs: &Vec<QName>, from: usize, to: usize, at: usize)
    requires
        dom.wf(),
        dom.has(shell0),
        from <= to <= qs@.len(),
    ensures
        same_but_edits(*old(plan), *final(plan)),
        final(plan).node_edits@ == old(plan).node_edits@ + carry_edits(*dom, shell0, qs@.subrange(from as int, to as int), at),
{
    let mut i: usize = from;
    while i < to
        invariant
            from <= i <= to,
            to <= qs@.len(),
            dom.wf(),
            dom.has(shell0),
            same_but_edits(*old(plan), *plan),
            plan.node_edits@ == old(plan).node_edits@ + carry_edits(*dom, shell0, qs@.subrange(from as int, i as int), at),
        decreases to - i,
    {
        proof {
            assert(qs@.subrange(from as int, i + 1).drop_last() =~= qs@.subrange(from as int, i as int));
            assert(qs@.subrange(from as int, i + 1).last() == qs@[i as int]);
        }
        if let Some(n) = first_child_named(dom, shell0, qs[i]) {
            plan.push(NodeEdit::Move { node: n, parent: Target::New(at), before: None });
        }
        i = i + 1;
    }
}

/// `edits` (from index `k` on) rebuild the shell `old` of `drawing`: a new shell (see
/// [`is_shell`]) goes in before the old one, the old shell's extent and effect extent move
/// into it, then the wrap element (a fresh rectangle for polygonal wraps), then its
/// `docPr`, `cNvGraphicFramePr` and `a:graphic`; the old shell is deleted.
pub open spec fn rebuild_ok(dom: Dom, drawing: NodeId, shell0: NodeId, wrap: Option<ImageWrap>, pos: Option<AnchorPos>,
    z: Option<i64>, edits: Seq<NodeEdit>, k: int) -> bool {
    let first = carry_edits(dom, shell0, carried().subrange(0, 2), k as usize);
    let rest = carry_edits(dom, shell0, carried().subrange(2, 5), k as usize);
    let w: int = if wrap is Some { 1 } else { 0 };
    let m = k + 1 + first.len();
    &&& edits.len() == m + w + rest.len() + 1
    &&& edits[k] matches NodeEdit::Insert { parent, before, node } && parent == Target::Node(drawing) && before == Some(shell0)
        && is_shell(node, wrap, pos, z)
    &&& edits.subrange(k + 1, m) == first
    &&& (wrap matches Some(wr) ==> (edits[m] matches NodeEdit::Insert { parent, before, node } && parent == Target::New(k as usize)
        && before is None && is_wrap(node, wr, true)))
    &&& edits.subrange(m + w, m + w + rest.len()) == rest
    &&& edits.last() == NodeEdit::Delete(shell0)
}

/// Replaces the shell `old` of `drawing` by a new one (see [`rebuild_ok`]).
pub fn rebuild_shell(dom: &Dom, plan: &mut MutationPlan, drawing: NodeId, shell0: NodeId, wrap: Option<ImageWrap>,
    pos: Option<&AnchorPos>, z_order: Option<i64>)
    requires
        dom.wf(),
        dom.has(shell0),
        match z_order { Some(z) => z <= i64::MAX - Z_BASE, None => true },
    ensures
        same_but_edits(*old(plan), *final(plan)),
        final(plan).node_edits@.subrange(0, old(plan).node_edits@.len() as int) == old(plan).node_edits@,
        rebuild_ok(*dom, drawing, shell0, wrap, match pos { Some(p) => Some(*p), None => None }, z_order, final(plan).node_edits@,
            old(plan).node_edits@.len() as int),
{
    let shell_at = plan.node_edits.len();
    let ghost k = shell_at as int;
    plan.push(NodeEdit::Insert { parent: Target::Node(drawing), before: Some(shell0), node: shell_element(wrap, pos, z_order) });
    let ghost e0 = plan.node_edits@[k];
    let names = carried_names();
    push_carry(plan, dom, shell0, &names, 0, 2, shell_at);
    let ghost after_first = plan.node_edits@;
    if let Some(w) = wrap {
        plan.push(NodeEdit::Insert { parent: Target::New(shell_at), before: None, node: wrap_element(w, true) });
    }
    let ghost after_wrap = plan.node_edits@;
    push_carry(plan, dom, shell0, &names, 2, 5, shell_at);
    let ghost after_rest = plan.node_edits@;
    plan.push(NodeEdit::Delete(shell0));
    proof {
        let fin = plan.node_edits@;
        let first = carry_edits(*dom, shell0, carried().subrange(0, 2), shell_at);
        let rest = carry_edits(*dom, shell0, carried().subrange(2, 5), shell_at);
        let m = k + 1 + first.len();
        let w: int = if wrap is Some { 1 } else { 0 };
        assert(after_first.len() == m);
        assert(after_wrap.len() == m + w);
        assert(after_rest =~= after_wrap + rest);
        assert(fin =~= after_rest.push(NodeEdit::Delete(shell0)));
        assert(fin.subrange(k + 1, m) =~= first);
        assert(fin.subrange(m + w, m + w + rest.len()) =~= rest);
        assert(fin[k] == e0);
        if wrap is Some {
            assert(fin[m] == after_wrap[m]);
        }
        assert(fin.subrange(0, k) =~= old(plan).node_edits@);
    }
}

/// The old fills of a container (`a:solidFill`, `a:noFill`, `a:gradFill`, `a:blipFill`).
pub open spec fn is_fill_node(dom: Dom, c: NodeId) -> bool {
    dom.named(c, aq(LocalName::SolidFill)) || dom.named(c, aq(LocalName::NoFill)) || dom.named(c, aq(LocalName::GradFill))
        || dom.named(c, aq(LocalName::BlipFill))
}

/// The edits of [`replace_fill`], from index `k` on: the old fills deleted, then the new fill
/// inserted before `before`.
pub open spec fn replace_fill_ok(dom: Dom, container: NodeId, before: Option<NodeId>, color: Option<Seq<char>>,
    edits: Seq<NodeEdit>, k: int) -> bool {
    let stale = select(dom.spec_live_children(container), |c: NodeId| is_fill_node(dom, c));
    &&& edits.len() == k + stale.len() + 1
    &&& edits.subrange(k, k + stale.len()) == stale.map_values(|n: NodeId| NodeEdit::Delete(n))
    &&& edits.last() matches NodeEdit::Insert { parent, before: b, node } && parent == Target::Node(container) && b == before
        && is_fill(node, color)
}

/// Replaces the fills of `container` by the fill of `color` (`None`: no fill), inserted
/// before `before`.
pub fn replace_fill(dom: &Dom, plan: &mut MutationPlan, container: NodeId, before: Option<NodeId>, color: Option<&str>)
    requires
        dom.wf(),
        dom.has(container),
    ensures
        same_but_edits(*old(plan), *final(plan)),
        final(plan).node_edits@.subrange(0, old(plan).node_edits@.len() as int) == old(plan).node_edits@,
        replace_fill_ok(*dom, container, before, match color { Some(c) => Some(c@), None => None }, final(plan).node_edits@,
            old(plan).node_edits@.len() as int),
{
    let kids = dom.live_children(container);
    let mut stale: Vec<NodeId> = Vec::new();
    for i in 0..kids.len()
        invariant
            stale@ == select(kids@.take(i as int), |c: NodeId| is_fill_node(*dom, c)),
    {
        proof {
            assert(kids@.take(i + 1).drop_last() =~= kids@.take(i as int));
            assert(kids@.take(i + 1).last() == kids@[i as int]);
        }
        let c = kids[i];
        if dom.is(c, QName::new(NsId::A, LocalName::SolidFill)) || dom.is(c, QName::new(NsId::A, LocalName::NoFill))
            || dom.is(c, QName::new(NsId::A, LocalName::GradFill)) || dom.is(c, QName::new(NsId::A, LocalName::BlipFill)) {
            stale.push(c);
        }
    }
    proof {
        assert(kids@.take(kids@.len() as int) =~= kids@);
    }
    let ghost k = plan.node_edits@.len() as int;
    for j in 0..stale.len()
        invariant
            same_but_edits(*old(plan), *plan),
            k == old(plan).node_edits@.len(),
            plan.node_edits@ == old(plan).node_edits@ + stale@.take(j as int).map_values(|n: NodeId| NodeEdit::Delete(n)),
    {
        plan.push(NodeEdit::Delete(stale[j]));
        proof {
            assert(plan.node_edits@ =~= old(plan).node_edits@ + stale@.take(j + 1).map_values(|n: NodeId| NodeEdit::Delete(n)));
        }
    }
    proof {
        assert(stale@.take(stale@.len() as int) =~= stale@);
    }
    let ghost mid = plan.node_edits@;
    plan.push(NodeEdit::Insert { parent: Target::Node(container), before, node: fill_element(color) });
    proof {
        assert(plan.node_edits@.subrange(k, k + stale@.len()) =~= stale@.map_values(|n: NodeId| NodeEdit::Delete(n)));
        assert(plan.node_edits@.subrange(0, k) =~= old(plan).node_edits@);
    }
}

/// The live `a:xfrm` of a drawing (of the picture and of shapes).
pub open spec fn xfrms_of(dom: Dom, drawing: NodeId) -> Seq<NodeId> {
    select(dom.spec_descendants(drawing), named_pred(dom, aq(LocalName::Xfrm)))
}

/// The first live `a:ext` of each of `xs`.
pub open spec fn exts_of(dom: Dom, xs: Seq<NodeId>) -> Seq<NodeId>
    decreases xs.len(),
{
    if xs.len() == 0 {
        seq![]
    } else {
        match child_named(dom, xs.last(), aq(LocalName::Ext)) {
            Some(e) => exts_of(dom, xs.drop_last()).push(e),
            None => exts_of(dom, xs.drop_last()),
        }
    }
}

/// The live `a:blipFill` / `pic:blipFill` of a drawing.
pub open spec fn blip_fills_of(dom: Dom, drawing: NodeId) -> Seq<NodeId> {
    select(dom.spec_descendants(drawing), |n: NodeId| dom.named(n, aq(LocalName::BlipFill))
        || dom.named(n, QName { ns: NsId::Pic, local: LocalName::BlipFill }))
}

/// The live `a:xfrm` of a drawing.
pub fn xfrms(dom: &Dom, drawing: NodeId) -> (r: Vec<NodeId>)
    requires
        dom.wf(),
        dom.has(drawing),
    ensures
        r@ == xfrms_of(*dom, drawing),
        forall|i: int| 0 <= i < r@.len() ==> dom.has(#[trigger] r@[i]),
{
    let desc = dom.descendants(drawing);
    let mut out: Vec<NodeId> = Vec::new();
    for i in 0..desc.len()
        invariant
            forall|j: int| 0 <= j < desc@.len() ==> dom.has(#[trigger] desc@[j]),
            out@ == select(desc@.take(i as int), named_pred(*dom, aq(LocalName::Xfrm))),
            forall|j: int| 0 <= j < out@.len() ==> dom.has(#[trigger] out@[j]),
    {
        proof {
            assert(desc@.take(i + 1).drop_last() =~= desc@.take(i as int));
            assert(desc@.take(i + 1).last() == desc@[i as int]);
        }
        if dom.is(desc[i], QName::new(NsId::A, LocalName::Xfrm)) {
            out.push(desc[i]);
        }
    }
    proof {
        assert(desc@.take(desc@.len() as int) =~= desc@);
    }
    out
}

/// The `a:ext` of each `a:xfrm` of a drawing.
pub fn xfrm_exts(dom: &Dom, drawing: NodeId) -> (r: Vec<NodeId>)
    requires
        dom.wf(),
        dom.has(drawing),
    ensures
        r@ == exts_of(*dom, xfrms_of(*dom, drawing)),
{
    let xs = xfrms(dom, drawing);
    let mut out: Vec<NodeId> = Vec::new();
    for i in 0..xs.len()
        invariant
            dom.wf(),
            forall|j: int| 0 <= j < xs@.len() ==> dom.has(#[trigger] xs@[j]),
            out@ == exts_of(*dom, xs@.take(i as int)),
    {
        proof {
            assert(xs@.take(i + 1).drop_last() =~= xs@.take(i as int));
            assert(xs@.take(i + 1).last() == xs@[i as int]);
        }
        if let Some(e) = first_child_named(dom, xs[i], QName::new(NsId::A, LocalName::Ext)) {
            out.push(e);
        }
    }
    proof {
        assert(xs@.take(xs@.len() as int) =~= xs@);
    }
    out
}

/// The live blip fills of a drawing.
pub fn blip_fills(dom: &Dom, drawing: NodeId) -> (r: Vec<NodeId>)
    requires
        dom.wf(),
        dom.has(drawing),
    ensures
        r@ == blip_fills_of(*dom, drawing),
        forall|i: int| 0 <= i < r@.len() ==> dom.has(#[trigger] r@[i]),
{
    let desc = dom.descendants(drawing);
    let mut out: Vec<NodeId> = Vec::new();
    for i in 0..desc.len()
        invariant
            forall|j: int| 0 <= j < desc@.len() ==> dom.has(#[trigger] desc@[j]),
            out@ == select(desc@.take(i as int), |n: NodeId| dom.named(n, aq(LocalName::BlipFill))
                || dom.named(n, QName { ns: NsId::Pic, local: LocalName::BlipFill })),
            forall|j: int| 0 <= j < out@.len() ==> dom.has(#[trigger] out@[j]),
    {
        proof {
            assert(desc@.take(i + 1).drop_last() =~= desc@.take(i as int));
            assert(desc@.take(i + 1).last() == desc@[i as int]);
        }
        if dom.is(desc[i], QName::new(NsId::A, LocalName::BlipFill)) || dom.is(desc[i], QName::new(NsId::Pic, LocalName::BlipFill)) {
            out.push(desc[i]);
        }
    }
    proof {
        assert(desc@.take(desc@.len() as int) =~= desc@);
    }
    out
}


/// `s` without leading white space.
pub open spec fn trim_front(s: Seq<char>) -> Seq<char>
    decreases s.len(),
{
    if s.len() > 0 && crate::text::is_ws(s[0]) {
        trim_front(s.drop_first())
    } else {
        s
    }
}

/// `s` without trailing white space.
pub open spec fn trim_back(s: Seq<char>) -> Seq<char>
    decreases s.len(),
{
    if s.len() > 0 && crate::text::is_ws(s.last()) {
        trim_back(s.drop_last())
    } else {
        s
    }
}

/// `s` without leading and trailing white space.
pub open spec fn trim_spec(s: Seq<char>) -> Seq<char> {
    trim_back(trim_front(s))
}

fn white(c: char) -> (r: bool)
    ensures
        r == crate::text::is_ws(c),
{
    let u = c as u32;
    (0x09 <= u && u <= 0x0D) || u == 0x20 || u == 0x85 || u == 0xA0 || u == 0x1680 || (0x2000 <= u && u <= 0x200A)
        || u == 0x2028 || u == 0x2029 || u == 0x202F || u == 0x205F || u == 0x3000
}

/// `s` without leading and trailing white space.
pub(crate) fn trimmed_chars(s: &str) -> (r: Vec<char>)
    ensures
        r@ == trim_spec(s@),
{
    let cs = chars_of(s);
    let mut i: usize = 0;
    assert(cs@.skip(0) =~= cs@);
    while i < cs.len() && white(cs[i])
        invariant
            cs@ == s@,
            i <= cs@.len(),
            trim_front(s@) == trim_front(cs@.skip(i as int)),
        decreases cs@.len() - i,
    {
        proof {
            assert(cs@.skip(i as int).drop_first() =~= cs@.skip(i + 1));
        }
        i = i + 1;
    }
    let ghost front = cs@.skip(i as int);
    assert(trim_front(s@) == front);
    let mut j: usize = cs.len();
    assert(front.subrange(0, (j - i) as int) =~= front);
    while j > i && white(cs[j - 1])
        invariant
            cs@ == s@,
            i <= j <= cs@.len(),
            front == cs@.skip(i as int),
            trim_back(front) == trim_back(front.subrange(0, (j - i) as int)),
        decreases j,
    {
        proof {
            assert(front.subrange(0, (j - i) as int).drop_last() =~= front.subrange(0, (j - 1 - i) as int));
            assert(front.subrange(0, (j - i) as int).last() == cs@[j - 1]);
        }
        j = j - 1;
    }
    let mut out: Vec<char> = Vec::new();
    let mut k: usize = i;
    while k < j
        invariant
            i <= k <= j <= cs@.len(),
            out@ == cs@.subrange(i as int, k as int),
        decreases j - k,
    {
        out.push(cs[k]);
        proof {
            assert(cs@.subrange(i as int, k + 1) =~= cs@.subrange(i as int, k as int).push(cs@[k as int]));
        }
        k = k + 1;
    }
    proof {
        assert(front.subrange(0, (j - i) as int) =~= cs@.subrange(i as int, j as int));
    }
    out
}

/// Every character of `s` is a decimal digit.
pub open spec fn all_digits(s: Seq<char>) -> bool {
    forall|i: int| 0 <= i < s.len() ==> '0' <= #[trigger] s[i] && s[i] <= '9'
}

/// The digits of an optionally signed number (without its sign).
pub open spec fn unsigned_part(s: Seq<char>) -> Seq<char> {
    if s.len() > 0 && (s[0] == '-' || s[0] == '+') { s.drop_first() } else { s }
}

/// The value of an optionally signed decimal integer that fits in an `i64`.
pub open spec fn i64_value(s: Seq<char>) -> Option<int> {
    let ds = unsigned_part(s);
    if ds.len() > 0 && all_digits(ds) {
        let m = crate::session::digits_value(ds) as int;
        let v: int = if s.len() > 0 && s[0] == '-' { -m } else { m };
        if i64::MIN <= v && v <= i64::MAX {
            Some(v)
        } else {
            None
        }
    } else {
        None
    }
}

proof fn lemma_digits_prefix_le(ds: Seq<char>, i: int)
    requires
        0 <= i <= ds.len(),
    ensures
        crate::session::digits_value(ds.take(i)) <= crate::session::digits_value(ds),
    decreases ds.len(),
{
    if i < ds.len() {
        lemma_digits_prefix_le(ds.drop_last(), i);
        assert(ds.drop_last().take(i) =~= ds.take(i));
    } else {
        assert(ds.take(i) =~= ds);
    }
}

/// Parses an optionally signed decimal `i64`.
pub fn parse_i64(cs: &Vec<char>) -> (r: Option<i64>)
    ensures
        match i64_value(cs@) {
            Some(v) => r == Some(v as i64),
            None => r is None,
        },
{
    let neg = cs.len() > 0 && cs[0] == '-';
    let start: usize = if cs.len() > 0 && (cs[0] == '-' || cs[0] == '+') { 1 } else { 0 };
    let ghost ds = unsigned_part(cs@);
    assert(ds =~= cs@.skip(start as int));
    if start >= cs.len() {
        return None;
    }
    let limit: u128 = 9_223_372_036_854_775_808;
    let mut v: u128 = 0;
    let mut i: usize = start;
    assert(ds.take(0) =~= Seq::<char>::empty());
    while i < cs.len()
        invariant
            start <= i <= cs@.len(),
            ds == cs@.skip(start as int),
            ds == unsigned_part(cs@),
            all_digits(ds.take(i - start)),
            v == crate::session::digits_value(ds.take(i - start)),
            v <= limit,
            limit == 9_223_372_036_854_775_808u128,
        decreases cs@.len() - i,
    {
        let c = cs[i];
        if !('0' <= c && c <= '9') {
            proof {
                assert(ds[i - start] == c);
                assert(!all_digits(ds));
                assert(i64_value(cs@) is None);
            }
            return None;
        }
        proof {
            assert(ds.take(i + 1 - start).drop_last() =~= ds.take(i - start));
            assert(ds.take(i + 1 - start).last() == c);
        }
        v = v * 10 + ((c as u32) - ('0' as u32)) as u128;
        i = i + 1;
        if v > limit {
            proof {
                assert(v == crate::session::digits_value(ds.take(i - start)));
                lemma_digits_prefix_le(ds, i - start);
                assert(crate::session::digits_value(ds) > limit);
                assert(i64_value(cs@) is None);
            }
            return None;
        }
    }
    proof {
        assert(ds.take(i - start) =~= ds);
    }
    if neg {
        Some((0i128 - (v as i128)) as i64)
    } else if v <= 9_223_372_036_854_775_807 {
        Some(v as i64)
    } else {
        None
    }
}

/// The rotation written on an `a:xfrm`, in 60000ths of a degree.
pub open spec fn rot_of(dom: Dom, x: NodeId) -> Option<int> {
    match dom.spec_attr(x, nq(LocalName::Rot)) {
        Some(v) => i64_value(trim_spec(v)),
        None => None,
    }
}

/// The first readable rotation among `xs`.
pub open spec fn first_rot(dom: Dom, xs: Seq<NodeId>) -> Option<int>
    decreases xs.len(),
{
    if xs.len() == 0 {
        None
    } else {
        match rot_of(dom, xs[0]) {
            Some(v) => Some(v),
            None => first_rot(dom, xs.drop_first()),
        }
    }
}

/// Division that truncates toward zero.
pub open spec fn trunc_div(v: int, d: int) -> int {
    if v >= 0 { v / d } else { -((-v) / d) }
}

/// The rotation a drawing has after a geometry change, in degrees: the one the change
/// gives (`Some(None)`: none), else the first readable `@rot` of its `a:xfrm`, else 0.
pub open spec fn rot_after(dom: Dom, drawing: NodeId, rot_deg: Option<Option<i64>>) -> int {
    match rot_deg {
        Some(r) => match r {
            Some(v) => v as int,
            None => 0,
        },
        None => match first_rot(dom, xfrms_of(dom, drawing)) {
            Some(v) => trunc_div(v, 60000),
            None => 0,
        },
    }
}

/// The rotation a drawing has after the geometry change `geom`, in degrees.
pub fn current_rot(dom: &Dom, drawing: NodeId, geom: &crate::content::DrawingGeometry) -> (r: i64)
    requires
        dom.wf(),
        dom.has(drawing),
    ensures
        r as int == rot_after(*dom, drawing, geom.rot_deg),
{
    if let Some(r) = geom.rot_deg {
        return match r {
            Some(v) => v,
            None => 0,
        };
    }
    let xs = xfrms(dom, drawing);
    let mut i: usize = 0;
    assert(xs@.skip(0) =~= xs@);
    while i < xs.len()
        invariant
            i <= xs@.len(),
            xs@ == xfrms_of(*dom, drawing),
            geom.rot_deg is None,
            first_rot(*dom, xs@) == first_rot(*dom, xs@.skip(i as int)),
        decreases xs@.len() - i,
    {
        proof {
            assert(xs@.skip(i as int).drop_first() =~= xs@.skip(i + 1));
            assert(xs@.skip(i as int)[0] == xs@[i as int]);
        }
        if let Some(v) = dom.attr(xs[i], QName::new(NsId::NoNamespace, LocalName::Rot)) {
            let t = trimmed_chars(v.as_str());
            if let Some(x) = parse_i64(&t) {
                proof {
                    assert(rot_of(*dom, xs@[i as int]) == Some(x as int));
                    assert(first_rot(*dom, xs@) == Some(x as int));
                    assert(geom.rot_deg is None);
                    assert(rot_after(*dom, drawing, geom.rot_deg) == trunc_div(x as int, 60000));
                }
                let q: i64 = if x >= 0 {
                    x / 60000
                } else {
                    (0i128 - ((0i128 - (x as i128)) / 60000)) as i64
                };
                return q;
            }
        }
        i = i + 1;
    }
    0
}


/// `d` is a live `w:drawing`.
pub open spec fn is_live_drawing(dom: Dom, d: NodeId) -> bool {
    dom.live(d) && dom.named(d, wn(LocalName::Drawing))
}

/// The plan of a wrap change of `drawing` whose shell is `shell0`: an anchor keeping a wrap
/// is rewritten in place ([`in_place_ok`]); an inline drawing without a wrap is left alone;
/// otherwise the shell is rebuilt ([`rebuild_ok`]). The paragraph is refreshed.
pub open spec fn wrap_plan_ok(dom: Dom, drawing: NodeId, shell0: NodeId, wrap: Option<ImageWrap>, pos: Option<AnchorPos>,
    z: Option<i64>, edits: Seq<NodeEdit>) -> bool {
    let was_anchor = dom.named(shell0, wpq(LocalName::Anchor));
    if was_anchor && wrap is Some {
        in_place_ok(dom, shell0, wrap.unwrap(), pos, z, edits, 0)
    } else if !was_anchor && wrap is None {
        edits.len() == 0
    } else {
        rebuild_ok(dom, drawing, shell0, wrap, pos, z, edits, 0)
    }
}

/// The moves that carry the old shell's children are moves of live children that have a
/// parent into the node edit `at` creates, at the end.
proof fn lemma_carry_moves(d: Dom, shell0: NodeId, qs: Seq<QName>, at: usize)
    requires
        d.wf(),
        d.has(shell0),
    ensures
        forall|k: int| 0 <= k < carry_edits(d, shell0, qs, at).len() ==> (#[trigger] carry_edits(d, shell0, qs, at)[k] matches
            NodeEdit::Move { node, parent, before } && parent == Target::New(at) && before is None && d.live(node)
            && d.at(node).parent is Some),
    decreases qs.len(),
{
    if qs.len() > 0 {
        lemma_carry_moves(d, shell0, qs.drop_last(), at);
        crate::geometry::lemma_child_named_live(d, shell0, qs.last());
        let prev = carry_edits(d, shell0, qs.drop_last(), at);
        if let Some(n) = child_named(d, shell0, qs.last()) {
            let all = prev.push(NodeEdit::Move { node: n, parent: Target::New(at), before: None });
            assert forall|k: int| 0 <= k < all.len() implies (#[trigger] all[k] matches NodeEdit::Move { node, parent, before }
                && parent == Target::New(at) && before is None && d.live(node) && d.at(node).parent is Some) by {
                if k < prev.len() {
                    assert(all[k] == prev[k]);
                }
            }
        }
    }
}

/// A live child of `n` is in its child list and addressed.
proof fn lemma_live_child_in(d: Dom, n: NodeId, c: NodeId)
    requires
        d.wf(),
        d.has(n),
        d.spec_live_children(n).contains(c),
    ensures
        d.has(c),
        d.kids(n).contains(c),
        d.live(c),
        d.at(c).parent is Some,
{
    crate::image::lemma_live_child(d, n, c);
    d.kids(n).lemma_filter_contains_rev(|x: NodeId| d.live(x), c);
    let j = choose|j: int| 0 <= j < d.kids(n).len() && d.kids(n)[j] == c;
    assert(d.nodes@[n.0 as int].children@[j] == c);
    crate::geometry::lemma_kid_parented(d, n, c);
}

/// The edits that set the text of a live segment element that has a parent pass the plan
/// check.
proof fn lemma_seg_valid(d: Dom, seg: NodeId, text: Seq<char>, edits: Seq<NodeEdit>, lo: int)
    requires
        d.wf(),
        0 <= lo <= edits.len(),
        d.live(seg),
        d.is_element(seg),
        d.at(seg).parent is Some,
        seg_text_ok(d, seg, text, edits.subrange(lo, edits.len() as int)),
    ensures
        forall|i: int| lo <= i < edits.len() ==> crate::edit::edit_ok(d, edits, i),
{
    let tail = edits.subrange(lo, edits.len() as int);
    if let Some(tn) = d.sole_text(seg) {
        d.kids(seg).lemma_filter_pred(|x: NodeId| d.live(x), 0);
    }
    assert forall|i: int| lo <= i < edits.len() implies crate::edit::edit_ok(d, edits, i) by {
        assert(tail[i - lo] == edits[i]);
    }
}

/// The anchor's position edits pass the plan check.
proof fn lemma_anchor_pos_valid(d: Dom, anchor: NodeId, wrap: ImageWrap, pos: Option<AnchorPos>, edits: Seq<NodeEdit>, lo: int)
    requires
        d.wf(),
        d.has(anchor),
        d.live(anchor),
        d.is_element(anchor),
        0 <= lo <= edits.len(),
        anchor_pos_ok(d, anchor, wrap, pos, edits.subrange(lo, edits.len() as int)),
    ensures
        forall|i: int| lo <= i < edits.len() ==> crate::edit::edit_ok(d, edits, i),
{
    let tail = edits.subrange(lo, edits.len() as int);
    match pos {
        Some(p) => {
            crate::geometry::lemma_child_named_live(d, anchor, wpq(LocalName::PositionH));
            crate::geometry::lemma_child_named_live(d, anchor, wpq(LocalName::PositionV));
            let lc = d.spec_live_children(anchor);
            crate::image::lemma_find_first_in(lc, |c: NodeId| !d.named(c, wpq(LocalName::SimplePos)));
            if let Some(b) = position_site(d, anchor) {
                lemma_live_child_in(d, anchor, b);
            }
            assert forall|i: int| lo <= i < edits.len() implies crate::edit::edit_ok(d, edits, i) by {
                assert(tail[i - lo] == edits[i]);
            }
        },
        None => {
            crate::geometry::lemma_child_named_live(d, anchor, wpq(LocalName::PositionH));
            if let Some(h) = child_named(d, anchor, wpq(LocalName::PositionH)) {
                crate::geometry::lemma_child_named_live(d, h, wpq(LocalName::Align));
                if let Some(a) = child_named(d, h, wpq(LocalName::Align)) {
                    lemma_seg_valid(d, a, crate::content::default_align_text(wrap), edits, lo);
                }
            }
        },
    }
}

/// The edits of a wrap change pass the plan check.
proof fn lemma_wrap_valid(d: Dom, drawing: NodeId, shell0: NodeId, wrap: Option<ImageWrap>, pos: Option<AnchorPos>,
    z: Option<i64>, edits: Seq<NodeEdit>)
    requires
        d.wf(),
        is_live_drawing(d, drawing),
        shell_of(d, drawing) == Some(shell0),
        wrap_plan_ok(d, drawing, shell0, wrap, pos, z, edits),
    ensures
        crate::edit::plan_valid(d, edits),
{
    let lcd = d.spec_live_children(drawing);
    crate::image::lemma_find_first_in(lcd, |c: NodeId| d.named(c, wpq(LocalName::Inline)) || d.named(c, wpq(LocalName::Anchor)));
    lemma_live_child_in(d, drawing, shell0);
    let was_anchor = d.named(shell0, wpq(LocalName::Anchor));
    if was_anchor && wrap is Some {
        let anchor = shell0;
        let w = wrap.unwrap();
        let zk: int = if z is Some { 1 } else { 0 };
        let at = 1 + zk;
        let pk: int = if kept_polygon(d, anchor, w) is Some { 1 } else { 0 };
        let wk: int = if old_wrap_of(d, anchor) is Some { 1 } else { 0 };
        let end = at + 1 + pk + wk;
        let lc = d.spec_live_children(anchor);
        crate::image::lemma_find_first_in(lc, |c: NodeId| is_wrap_node(d, c));
        if let Some(ow) = old_wrap_of(d, anchor) {
            lemma_live_child_in(d, anchor, ow);
            crate::geometry::lemma_child_named_live(d, ow, wpq(LocalName::WrapPolygon));
        }
        crate::geometry::lemma_child_named_live(d, anchor, wpq(LocalName::DocPr));
        lemma_anchor_pos_valid(d, anchor, w, pos, edits, end);
        assert forall|i: int| 0 <= i < edits.len() implies crate::edit::edit_ok(d, edits, i) by {
            if i < end {
                if i == at + 1 && pk == 1 {
                    assert(edits[at] matches NodeEdit::Insert { .. });
                }
            }
        }
    } else if !was_anchor && wrap is None {
    } else {
        let first = carry_edits(d, shell0, carried().subrange(0, 2), 0);
        let rest = carry_edits(d, shell0, carried().subrange(2, 5), 0);
        let wn: int = if wrap is Some { 1 } else { 0 };
        let m: int = 1 + first.len() as int;
        lemma_carry_moves(d, shell0, carried().subrange(0, 2), 0);
        lemma_carry_moves(d, shell0, carried().subrange(2, 5), 0);
        assert(d.kids(drawing).contains(shell0));
        assert forall|i: int| 0 <= i < edits.len() implies crate::edit::edit_ok(d, edits, i) by {
            if i == 0 {
            } else if i < m {
                assert(edits.subrange(1, m)[i - 1] == edits[i]);
                assert(first[i - 1] == edits[i]);
                assert(edits[0] matches NodeEdit::Insert { .. });
            } else if i < m + wn {
                assert(edits[0] matches NodeEdit::Insert { .. });
            } else if i < m + wn + rest.len() {
                assert(edits.subrange(m + wn, m + wn + rest.len())[i - m - wn] == edits[i]);
                assert(rest[i - m - wn] == edits[i]);
                assert(edits[0] matches NodeEdit::Insert { .. });
            } else {
                assert(edits[i] == edits.last());
            }
        }
    }
}

/// The plan of [`EditSession::set_wrap`].
pub fn wrap_plan(dom: &Dom, part: crate::ids::PartId, drawing: NodeId, shell0: NodeId, wrap: Option<ImageWrap>,
    pos: Option<&AnchorPos>, z_order: Option<i64>) -> (p: MutationPlan)
    requires
        dom.wf(),
        dom.has(shell0),
        match z_order { Some(z) => z <= i64::MAX - Z_BASE, None => true },
    ensures
        p.part == part,
        p.affected_blocks@ == host_paragraph(*dom, drawing),
        !p.structure_changed,
        p.diagnostics@.len() == 0,
        wrap_plan_ok(*dom, drawing, shell0, wrap, match pos { Some(x) => Some(*x), None => None }, z_order, p.node_edits@),
{
    let mut plan = MutationPlan::new(part);
    if let Some(para) = dom.closest_named(drawing, QName::w(LocalName::P)) {
        plan.touch(para);
    }
    assert(plan.affected_blocks@ =~= host_paragraph(*dom, drawing));
    let was_anchor = dom.is(shell0, QName::new(NsId::Wp, LocalName::Anchor));
    match (was_anchor, wrap) {
        (true, Some(w)) => {
            in_place_anchor(dom, &mut plan, shell0, w, pos, z_order);
        },
        (false, None) => {},
        _ => {
            rebuild_shell(dom, &mut plan, drawing, shell0, wrap, pos, z_order);
        },
    }
    plan
}

/// What `set_z_order` promises: `s0` is the session before, `s1` after, `r` the result.
pub open spec fn z_order_done(s0: EditSession, s1: EditSession, drawing: NodeId, z: i64, r: Result<MutationResult, Error>) -> bool {
    &&& (s1.spec_pkg().wf())
    &&& (r is Ok ==> s1.wf())
    &&& (s0.spec_pkg().at(s0.spec_pkg().main).dom matches Some(d) && {
                &&& !is_live_drawing(d, drawing) ==> (r matches Err(e) && e.has_code(DiagCode::EditBadPosition) && s1 == s0)
                &&& is_live_drawing(d, drawing) && shell_of(d, drawing) is None ==> (r matches Err(e)
                    && e.has_code(DiagCode::EditBadPosition) && s1 == s0)
                &&& is_live_drawing(d, drawing) && (shell_of(d, drawing) matches Some(sh) && !d.named(sh, wpq(LocalName::Anchor)))
                    ==> (r matches Err(e) && e.has_code(DiagCode::EditUnsupported) && s1 == s0)
                &&& is_live_drawing(d, drawing) && (shell_of(d, drawing) matches Some(sh) && d.named(sh, wpq(LocalName::Anchor)))
                    ==> (r is Ok <==> crate::document::projectable(s1.spec_pkg()))
                &&& r is Ok ==> (shell_of(d, drawing) matches Some(sh) && d.at(sh).kind matches NodeKind::Element(el)
                    && s1.spec_pkg().at(s1.spec_pkg().main).dom matches Some(d1)
                    && crate::edit::attrs_became(d, d1, sh, el.name, crate::edit::with_attr(crate::edit::attr_pairs(el.attrs@),
                        QName { ns: NsId::NoNamespace, local: LocalName::RelativeHeight }, relative_height(z as int))))
            })
}

/// What `set_wrap` promises: `s0` is the session before, `s1` after, `r` the result.
pub open spec fn wrap_done(s0: EditSession, s1: EditSession, drawing: NodeId, wrap: Option<ImageWrap>, pos: Option<AnchorPos>, z_order: Option<i64>, r: Result<MutationResult, Error>) -> bool {
    &&& (s1.spec_pkg().wf())
    &&& (r is Ok ==> s1.wf())
    &&& (s0.spec_pkg().at(s0.spec_pkg().main).dom matches Some(d) && {
                &&& !is_live_drawing(d, drawing) ==> (r matches Err(e) && e.has_code(DiagCode::EditBadPosition) && s1 == s0)
                &&& is_live_drawing(d, drawing) && shell_of(d, drawing) is None ==> (r matches Err(e)
                    && e.has_code(DiagCode::EditBadPosition) && s1 == s0)
                &&& is_live_drawing(d, drawing) && shell_of(d, drawing) is Some
                    ==> (r is Ok <==> crate::document::projectable(s1.spec_pkg()))
                &&& r matches Ok(res) ==> (shell_of(d, drawing) matches Some(sh)
                    && s1.spec_pkg().at(s1.spec_pkg().main).dom matches Some(d1)
                    && exists|edits: Seq<NodeEdit>| #![trigger crate::edit::applied(d, edits, res.created@, d1)]
                        wrap_plan_ok(d, drawing, sh, wrap, pos, z_order, edits)
                        && crate::edit::applied(d, edits, res.created@, d1))
            })
}

impl EditSession {
    /// `Ok` when `drawing` is a live `w:drawing` of the main part, else `EditBadPosition`.
    pub fn require_drawing(&self, drawing: NodeId) -> (r: Result<(), Error>)
        requires
            self.wf(),
        ensures
            self.spec_pkg().at(self.spec_pkg().main).dom matches Some(d) && (r is Ok <==> is_live_drawing(d, drawing)),
            r matches Err(e) ==> e.has_code(DiagCode::EditBadPosition),
    {
        let dom = self.dom();
        if !dom.is_live(drawing) || !dom.is(drawing, QName::w(LocalName::Drawing)) {
            return Err(Error::edit(DiagCode::EditBadPosition, crate::diag::text("目标不是活的 w:drawing")));
        }
        Ok(())
    }

    /// Sets the z-order of an anchored drawing (`relativeHeight` = base + `z`, at least 0).
    /// Not a live drawing, or no shell: `EditBadPosition`; an inline drawing has no z-order:
    /// `EditUnsupported`. Nothing changes on an error.
    pub fn set_z_order(&mut self, drawing: NodeId, z: i64) -> (r: Result<MutationResult, Error>)
        requires
            old(self).wf(),
            z <= i64::MAX - Z_BASE,
        ensures
            z_order_done(*old(self), *final(self), drawing, z, r),
    {
        self.require_drawing(drawing)?;
        let part = self.main_part();
        let dom = self.dom();
        let ghost d0 = *dom;
        let sh = shell(dom, drawing)?;
        if !dom.is(sh, QName::new(NsId::Wp, LocalName::Anchor)) {
            return Err(Error::edit(DiagCode::EditUnsupported, crate::diag::text("随文图片没有 z-order；先用 SetDrawingWrap 改成锚定")));
        }
        let mut plan = MutationPlan::new(part);
        if let Some(para) = dom.closest_named(drawing, QName::w(LocalName::P)) {
            plan.touch(para);
        }
        let value = relative_height_text(z);
        let edit = NodeEdit::SetAttr { node: Target::Node(sh), name: QName::new(NsId::NoNamespace, LocalName::RelativeHeight), value };
        let ghost e0 = edit;
        plan.push(edit);
        let ghost edits = plan.node_edits@;
        assert(edits =~= seq![e0]);
        proof {
            crate::image::lemma_find_first_in(d0.spec_live_children(drawing),
                |c: NodeId| d0.named(c, wpq(LocalName::Inline)) || d0.named(c, wpq(LocalName::Anchor)));
            d0.lemma_live_children_have(drawing);
            let k = choose|k: int| 0 <= k < d0.spec_live_children(drawing).len() && d0.spec_live_children(drawing)[k] == sh;
            d0.kids(drawing).lemma_filter_pred(|c: NodeId| d0.live(c), k);
            assert(crate::edit::edit_ok(d0, edits, 0));
        }
        let r = self.commit_plan(plan);
        proof {
            if r is Ok {
                let res = r->Ok_0;
                let d1 = self.spec_pkg().at(self.spec_pkg().main).dom->0;
                let tr = choose|tr: Seq<Dom>| crate::edit::applied_through(d0, edits, res.created@, tr, d1);
                assert(edits[0] == e0);
                assert(tr[0] == d0 && tr[1] == d1);
            }
        }
        r
    }

    /// Changes how a drawing wraps (see [`wrap_plan`]): `None` makes it inline.
    pub fn set_wrap(&mut self, drawing: NodeId, wrap: Option<ImageWrap>, pos: Option<&AnchorPos>, z_order: Option<i64>)
        -> (r: Result<MutationResult, Error>)
        requires
            old(self).wf(),
            match z_order { Some(z) => z <= i64::MAX - Z_BASE, None => true },
        ensures
            wrap_done(*old(self), *final(self), drawing, wrap, match pos { Some(x) => Some(*x), None => None }, z_order, r),
    {
        self.require_drawing(drawing)?;
        let part = self.main_part();
        let dom = self.dom();
        let sh = shell(dom, drawing)?;
        let plan = wrap_plan(dom, part, drawing, sh, wrap, pos, z_order);
        let ghost edits = plan.node_edits@;
        proof {
            lemma_wrap_valid(*dom, drawing, sh, wrap, match pos { Some(x) => Some(*x), None => None }, z_order, edits);
        }
        let r = self.commit_plan(plan);
        proof {
            if r is Ok {
                let d1 = self.spec_pkg().at(self.spec_pkg().main).dom->0;
                assert(crate::edit::applied(old(self).spec_pkg().at(old(self).spec_pkg().main).dom->0, edits, r->Ok_0.created@, d1));
            }
        }
        r
    }
}


/// The view of an optional optional text.
pub open spec fn oo_view(o: Option<Option<String>>) -> Option<Option<Seq<char>>> {
    match o {
        Some(Some(v)) => Some(Some(v@)),
        Some(None) => Some(None),
        None => None,
    }
}

/// The view of an optional text.
pub open spec fn o_view(o: Option<&str>) -> Option<Seq<char>> {
    match o {
        Some(v) => Some(v@),
        None => None,
    }
}

/// The number of edits `replace_fill` makes on `container`.
pub open spec fn fill_edit_count(dom: Dom, container: NodeId) -> int {
    select(dom.spec_live_children(container), |c: NodeId| is_fill_node(dom, c)).len() + 1int
}

/// The edits of a shape style change of `sp_pr`: with a fill, the fills of `sp_pr` are
/// replaced (the new one before `a:ln`); with an outline, the fills of `a:ln` are replaced,
/// or a new `a:ln` holding the outline's fill is appended.
pub open spec fn shape_style_ok(dom: Dom, sp_pr: NodeId, fill: Option<Option<Seq<char>>>, outline: Option<Option<Seq<char>>>,
    edits: Seq<NodeEdit>) -> bool {
    let ln = child_named(dom, sp_pr, aq(LocalName::Ln));
    let f: int = if fill is Some { fill_edit_count(dom, sp_pr) } else { 0 };
    &&& f <= edits.len()
    &&& (fill matches Some(c) ==> replace_fill_ok(dom, sp_pr, ln, c, edits.subrange(0, f), 0))
    &&& match outline {
        None => edits.len() == f,
        Some(o) => match ln {
            Some(l) => replace_fill_ok(dom, l, None, o, edits, f),
            None => edits.len() == f + 1 && (edits.last() matches NodeEdit::Insert { parent, before, node }
                && parent == Target::Node(sp_pr) && before is None && node.name == aq(LocalName::Ln) && node.attrs@.len() == 0
                && node.children@.len() == 1 && (node.children@[0] matches NewNode::Element(fe) && is_fill(fe, o))),
        },
    }
}

/// What `select` keeps comes from the list and passes the test.
pub proof fn lemma_select_in(s: Seq<NodeId>, p: spec_fn(NodeId) -> bool)
    ensures
        forall|i: int| 0 <= i < select(s, p).len() ==> s.contains(#[trigger] select(s, p)[i]) && p(select(s, p)[i]),
    decreases s.len(),
{
    if s.len() > 0 {
        lemma_select_in(s.drop_last(), p);
        assert forall|i: int| 0 <= i < select(s, p).len() implies s.contains(#[trigger] select(s, p)[i]) && p(select(s, p)[i]) by {
            let t = select(s.drop_last(), p);
            if i < t.len() {
                assert(select(s, p)[i] == t[i]);
                let j = choose|j: int| 0 <= j < s.drop_last().len() && s.drop_last()[j] == t[i];
                assert(s[j] == t[i]);
            } else {
                assert(select(s, p)[i] == s.last());
                assert(s[s.len() - 1] == s.last());
            }
        }
    }
}

/// The edits of a fill replacement name live nodes: the old fills are live children of the
/// container, and the new fill goes into the live container before one of its children.
proof fn lemma_fill_edits_valid(d: Dom, container: NodeId, before: Option<NodeId>, color: Option<Seq<char>>,
    edits: Seq<NodeEdit>, k: int)
    requires
        d.wf(),
        d.live(container),
        d.is_element(container),
        before matches Some(b) ==> d.has(b) && d.kids(container).contains(b),
        replace_fill_ok(d, container, before, color, edits, k),
        0 <= k,
    ensures
        forall|i: int| k <= i < edits.len() ==> crate::edit::edit_ok(d, edits, i),
{
    let stale = select(d.spec_live_children(container), |c: NodeId| is_fill_node(d, c));
    lemma_select_in(d.spec_live_children(container), |c: NodeId| is_fill_node(d, c));
    d.lemma_live_children_have(container);
    assert forall|i: int| k <= i < edits.len() implies crate::edit::edit_ok(d, edits, i) by {
        if i < k + stale.len() {
            assert(edits.subrange(k, k + stale.len())[i - k] == edits[i]);
            let n = stale[i - k];
            assert(edits[i] == NodeEdit::Delete(n));
            let j = choose|j: int| 0 <= j < d.spec_live_children(container).len() && d.spec_live_children(container)[j] == n;
            d.kids(container).lemma_filter_pred(|c: NodeId| d.live(c), j);
        } else {
            assert(i == edits.len() - 1);
        }
    }
}

/// A shape style plan passes the plan check when its `wps:spPr` is a live element.
proof fn lemma_style_plan_valid(d: Dom, sp: NodeId, fill: Option<Option<Seq<char>>>, outline: Option<Option<Seq<char>>>,
    edits: Seq<NodeEdit>)
    requires
        d.wf(),
        d.live(sp),
        d.is_element(sp),
        shape_style_ok(d, sp, fill, outline, edits),
    ensures
        crate::edit::plan_valid(d, edits),
{
    let ln = child_named(d, sp, aq(LocalName::Ln));
    let f: int = if fill is Some { fill_edit_count(d, sp) } else { 0 };
    crate::image::lemma_find_first_in(d.spec_live_children(sp), named_pred(d, aq(LocalName::Ln)));
    d.lemma_live_children_have(sp);
    if let Some(l) = ln {
        let j = choose|j: int| 0 <= j < d.spec_live_children(sp).len() && d.spec_live_children(sp)[j] == l;
        d.kids(sp).lemma_filter_pred(|c: NodeId| d.live(c), j);
        d.kids(sp).lemma_filter_contains_rev(|c: NodeId| d.live(c), l);
    }
    if let Some(c) = fill {
        let sub = edits.subrange(0, f);
        lemma_fill_edits_valid(d, sp, ln, c, sub, 0);
        assert forall|i: int| 0 <= i < f implies crate::edit::edit_ok(d, edits, i) by {
            assert(sub[i] == edits[i]);
            assert(crate::edit::edit_ok(d, sub, i));
        }
    }
    match outline {
        Some(o) => match ln {
            Some(l) => {
                lemma_fill_edits_valid(d, l, None, o, edits, f);
            },
            None => {
                assert(crate::edit::edit_ok(d, edits, edits.len() - 1));
            },
        },
        None => {},
    }
}

/// The plan of a shape style change of `sp_pr` (see [`shape_style_ok`]); the paragraph is
/// refreshed.
pub fn shape_style_plan(dom: &Dom, part: crate::ids::PartId, sp_pr: NodeId, fill: Option<Option<&str>>,
    outline: Option<Option<&str>>) -> (p: MutationPlan)
    requires
        dom.wf(),
        dom.has(sp_pr),
    ensures
        p.part == part,
        p.affected_blocks@ == host_paragraph(*dom, sp_pr),
        !p.structure_changed,
        p.diagnostics@.len() == 0,
        shape_style_ok(*dom, sp_pr, match fill { Some(c) => Some(o_view(c)), None => None },
            match outline { Some(c) => Some(o_view(c)), None => None }, p.node_edits@),
{
    let mut plan = MutationPlan::new(part);
    if let Some(para) = dom.closest_named(sp_pr, QName::w(LocalName::P)) {
        plan.touch(para);
    }
    assert(plan.affected_blocks@ =~= host_paragraph(*dom, sp_pr));
    let ln = first_child_named(dom, sp_pr, QName::new(NsId::A, LocalName::Ln));
    if let Some(f) = fill {
        replace_fill(dom, &mut plan, sp_pr, ln, f);
        assert(plan.node_edits@.subrange(0, plan.node_edits@.len() as int) =~= plan.node_edits@);
    }
    let ghost mid = plan.node_edits@;
    match outline {
        Some(o) => match ln {
            Some(l) => {
                replace_fill(dom, &mut plan, l, None, o);
            },
            None => {
                let mut e = NewElement::new(QName::new(NsId::A, LocalName::Ln));
                let fe = fill_element(o);
                e.push_child(fe);
                assert(e.children@[0] == NewNode::Element(fe));
                plan.push(NodeEdit::Insert { parent: Target::Node(sp_pr), before: None, node: e });
            },
        },
        None => {},
    }
    proof {
        let f: int = mid.len() as int;
        assert(plan.node_edits@.subrange(0, f) == mid);
    }
    plan
}

/// What `set_shape_style` promises: `s0` is the session before, `s1` after, `r` the result.
pub open spec fn shape_style_done(s0: EditSession, s1: EditSession, shape: NodeId, fill: Option<Option<String>>, outline: Option<Option<String>>, r: Result<MutationResult, Error>) -> bool {
    &&& (s1.spec_pkg().wf())
    &&& (r is Ok ==> s1.wf())
    &&& (s0.spec_pkg().at(s0.spec_pkg().main).dom matches Some(d) && {
                &&& !d.live(shape) ==> (r matches Err(e) && e.has_code(DiagCode::EditBadPosition) && s1 == s0)
                &&& d.live(shape) && !d.named(shape, QName { ns: NsId::Wps, local: LocalName::SpPr })
                    && child_named(d, shape, QName { ns: NsId::Wps, local: LocalName::SpPr }) is None
                    ==> (r matches Err(e) && e.has_code(DiagCode::EditBadPosition) && s1 == s0)
                &&& r matches Ok(res) ==> (s1.spec_pkg().at(s1.spec_pkg().main).dom matches Some(d1)
                    && exists|edits: Seq<NodeEdit>| #![trigger crate::edit::applied(d, edits, res.created@, d1)]
                        shape_style_ok(d, if d.named(shape, QName { ns: NsId::Wps, local: LocalName::SpPr }) { shape } else {
                            child_named(d, shape, QName { ns: NsId::Wps, local: LocalName::SpPr })->0 }, oo_view(fill), oo_view(outline), edits)
                        && crate::edit::applied(d, edits, res.created@, d1))
            })
    &&& (s0.spec_pkg().at(s0.spec_pkg().main).dom matches Some(d) && (d.live(shape) && (d.named(shape, QName { ns: NsId::Wps, local: LocalName::SpPr })
        || child_named(d, shape, QName { ns: NsId::Wps, local: LocalName::SpPr }) is Some)
        ==> (r is Ok <==> crate::document::projectable(s1.spec_pkg()))))
}

impl EditSession {
    /// Changes the fill and outline of a shape (`wps:wsp` or its `wps:spPr`); `None` leaves
    /// one alone, `Some(None)` removes it (see [`shape_style_plan`]). A shape that is not a
    /// live node, or without `wps:spPr`: `EditBadPosition`, nothing changes.
    pub fn set_shape_style(&mut self, shape: NodeId, fill: Option<Option<String>>, outline: Option<Option<String>>)
        -> (r: Result<MutationResult, Error>)
        requires
            old(self).wf(),
        ensures
            shape_style_done(*old(self), *final(self), shape, fill, outline, r),
    {
        let part = self.main_part();
        let dom = self.dom();
        if !dom.is_live(shape) {
            return Err(Error::edit(DiagCode::EditBadPosition, crate::diag::text("形状节点不存在")));
        }
        let sp_pr = if dom.is(shape, QName::new(NsId::Wps, LocalName::SpPr)) {
            shape
        } else {
            match first_child_named(dom, shape, QName::new(NsId::Wps, LocalName::SpPr)) {
                Some(x) => x,
                None => {
                    return Err(Error::edit(DiagCode::EditBadPosition, crate::diag::text("形状里没有 wps:spPr")));
                },
            }
        };
        let f = match &fill {
            Some(c) => Some(match c { Some(v) => Some(v.as_str()), None => None }),
            None => None,
        };
        let o = match &outline {
            Some(c) => Some(match c { Some(v) => Some(v.as_str()), None => None }),
            None => None,
        };
        let plan = shape_style_plan(dom, part, sp_pr, f, o);
        let ghost edits = plan.node_edits@;
        proof {
            let d = *dom;
            if sp_pr != shape {
                crate::image::lemma_find_first_in(d.spec_live_children(shape), named_pred(d, QName { ns: NsId::Wps, local: LocalName::SpPr }));
                d.lemma_live_children_have(shape);
                let j = choose|j: int| 0 <= j < d.spec_live_children(shape).len() && d.spec_live_children(shape)[j] == sp_pr;
                d.kids(shape).lemma_filter_pred(|c: NodeId| d.live(c), j);
            }
            lemma_style_plan_valid(d, sp_pr, oo_view(fill), oo_view(outline), edits);
        }
        let r = self.commit_plan(plan);
        proof {
            if r is Ok {
                let d1 = self.spec_pkg().at(self.spec_pkg().main).dom->0;
                assert(crate::edit::applied(old(self).spec_pkg().at(old(self).spec_pkg().main).dom->0, edits, r->Ok_0.created@, d1));
            }
        }
        r
    }
}

} // verus!
