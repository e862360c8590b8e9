use vstd::prelude::*;
use crate::content::{DrawingGeometry, SrcRect};
use crate::diag::{DiagCode, Error};
use crate::dom::Dom;
use crate::drawing::{child_named, first_child_named, is_live_drawing, seg_text_ok, shell, shell_of, signed_decimal,
    signed_text, wpq, xfrms, xfrms_of, xfrm_exts, exts_of, blip_fills, blip_fills_of};
use crate::edit::{NodeEdit, Target};
use crate::ids::{NodeId, PartId};
use crate::image::{aq, host_paragraph, nq};
use crate::plan::{MutationPlan, MutationResult};
use crate::session::EditSession;
use crate::tables::attrs_are;
use crate::track::find_first;
use crate::xml::{LocalName, NewElement, NewNode, NsId, QName};

verus! {

/// An attribute edit: `Some(v)` sets attribute `name` of `node` to `v`, `None` removes it.
pub type AttrEdit = (NodeId, QName, Option<Seq<char>>);

/// `e` is the attribute edit `d`.
pub open spec fn attr_edit_is(e: NodeEdit, d: AttrEdit) -> bool {
    match d.2 {
        Some(v) => e matches NodeEdit::SetAttr { node, name, value } && node == Target::Node(d.0) && name == d.1 && value@ == v,
        None => e == (NodeEdit::RemoveAttr { node: Target::Node(d.0), name: d.1 }),
    }
}

/// `es` are the attribute edits `ds`, in order.
pub open spec fn attr_edits_are(es: Seq<NodeEdit>, ds: Seq<AttrEdit>) -> bool {
    &&& es.len() == ds.len()
    &&& forall|i: int| 0 <= i < es.len() ==> attr_edit_is(#[trigger] es[i], ds[i])
}

/// A value at least `lo`.
pub open spec fn at_least(v: int, lo: int) -> int {
    if v < lo { lo } else { v }
}

/// The size edits: `cx`/`cy` of `wp:extent`, the four margins of `wp:effectExtent`, and
/// `cx`/`cy` of each `a:ext` in `exts`.
pub open spec fn size_edits(dom: Dom, sh: NodeId, exts: Seq<NodeId>, cx: int, cy: int, ex: int, ey: int) -> Seq<AttrEdit> {
    let c = Some(signed_text(cx));
    let d = Some(signed_text(cy));
    (match child_named(dom, sh, wpq(LocalName::Extent)) {
        Some(e) => seq![(e, nq(LocalName::Cx), c), (e, nq(LocalName::Cy), d)],
        None => seq![],
    }) + (match child_named(dom, sh, wpq(LocalName::EffectExtent)) {
        Some(e) => seq![(e, nq(LocalName::L), Some(signed_text(ex))), (e, nq(LocalName::T), Some(signed_text(ey))),
            (e, nq(LocalName::R), Some(signed_text(ex))), (e, nq(LocalName::B), Some(signed_text(ey)))],
        None => seq![],
    }) + ext_size_edits(exts, cx, cy)
}

/// `cx`/`cy` of each of `exts`.
pub open spec fn ext_size_edits(exts: Seq<NodeId>, cx: int, cy: int) -> Seq<AttrEdit>
    decreases exts.len(),
{
    if exts.len() == 0 {
        seq![]
    } else {
        ext_size_edits(exts.drop_last(), cx, cy) + seq![(exts.last(), nq(LocalName::Cx), Some(signed_text(cx))),
            (exts.last(), nq(LocalName::Cy), Some(signed_text(cy)))]
    }
}

/// The rotation and flip edits of each of `xs`.
pub open spec fn xfrm_edits(xs: Seq<NodeId>, rot: Option<Option<i64>>, fh: Option<bool>, fv: Option<bool>) -> Seq<AttrEdit>
    decreases xs.len(),
{
    if xs.len() == 0 {
        seq![]
    } else {
        let x = xs.last();
        xfrm_edits(xs.drop_last(), rot, fh, fv) + (match rot {
            Some(Some(d)) => seq![(x, nq(LocalName::Rot), Some(signed_text(d * 60000)))],
            Some(None) => seq![(x, nq(LocalName::Rot), None)],
            None => seq![],
        }) + flip_edit(x, LocalName::FlipH, fh) + flip_edit(x, LocalName::FlipV, fv)
    }
}

/// A flip: set to `1`, or removed.
pub open spec fn flip_edit(x: NodeId, name: LocalName, f: Option<bool>) -> Seq<AttrEdit> {
    match f {
        Some(true) => seq![(x, nq(name), Some("1"@))],
        Some(false) => seq![(x, nq(name), None)],
        None => seq![],
    }
}

/// The offset edits of one axis: the text of its `wp:posOffset` set, or a new one appended.
pub open spec fn axis_offset_ok(dom: Dom, sh: NodeId, which: LocalName, v: i64, part: Seq<NodeEdit>) -> bool {
    match child_named(dom, sh, wpq(which)) {
        Some(pos) => match child_named(dom, pos, wpq(LocalName::PosOffset)) {
            Some(off) => seg_text_ok(dom, off, signed_text(v as int), part),
            None => part.len() == 1 && (part[0] matches NodeEdit::Insert { parent, before, node } && parent == Target::Node(pos)
                && before is None && node.name == wpq(LocalName::PosOffset) && node.attrs@.len() == 0 && node.children@.len() == 1
                && (node.children@[0] matches NewNode::Text(t) && t@ == signed_text(v as int))),
        },
        None => part.len() == 0,
    }
}

/// `e` is the new crop window of `r`: `a:srcRect` with the sides that are not zero.
pub open spec fn is_src_rect(e: NewElement, r: SrcRect) -> bool {
    e.name == aq(LocalName::SrcRect) && e.children@.len() == 0 && attrs_are(e.attrs@,
        side(LocalName::L, r.l) + side(LocalName::T, r.t) + side(LocalName::R, r.r) + side(LocalName::B, r.b))
}

/// One side of a crop window, when not zero.
pub open spec fn side(l: LocalName, v: i64) -> Seq<(QName, Seq<char>)> {
    if v != 0 { seq![(nq(l), signed_text(v as int))] } else { seq![] }
}

/// Where a new crop window goes in a blip fill: before the first live child that is not
/// `a:blip`.
pub open spec fn crop_site(dom: Dom, fill: NodeId) -> Option<NodeId> {
    find_first(dom.spec_live_children(fill), |c: NodeId| !dom.named(c, aq(LocalName::Blip)))
}

/// The crop edits of one blip fill.
pub open spec fn crop_fill_ok(dom: Dom, fill: NodeId, crop: Option<SrcRect>, part: Seq<NodeEdit>) -> bool {
    let existing = child_named(dom, fill, aq(LocalName::SrcRect));
    match crop {
        None => match existing {
            Some(n) => part == seq![NodeEdit::Delete(n)],
            None => part.len() == 0,
        },
        Some(r) => part.len() == 1 && match existing {
            Some(o) => part[0] matches NodeEdit::Replace { old, node } && old == o && is_src_rect(node, r),
            None => part[0] matches NodeEdit::Insert { parent, before, node } && parent == Target::Node(fill)
                && before == crop_site(dom, fill) && is_src_rect(node, r),
        },
    }
}

/// The crop edits of each of `fills`, in order.
pub open spec fn crop_all_ok(dom: Dom, fills: Seq<NodeId>, crop: Option<SrcRect>, edits: Seq<NodeEdit>) -> bool
    decreases fills.len(),
{
    if fills.len() == 0 {
        edits.len() == 0
    } else {
        exists|m: int| 0 <= m <= edits.len() && crop_all_ok(dom, fills.drop_last(), crop, #[trigger] edits.subrange(0, m))
            && crop_fill_ok(dom, fills.last(), crop, edits.subrange(m, edits.len() as int))
    }
}

/// The size part of a geometry change: when a size is given, at least 1 EMU each way, with
/// the effect margins (at least 0).
pub open spec fn size_part(dom: Dom, drawing: NodeId, sh: NodeId, geom: DrawingGeometry, effect: (i64, i64)) -> Seq<AttrEdit> {
    match geom.extent_emu {
        Some((cx, cy)) => size_edits(dom, sh, exts_of(dom, xfrms_of(dom, drawing)), at_least(cx as int, 1), at_least(cy as int, 1),
            at_least(effect.0 as int, 0), at_least(effect.1 as int, 0)),
        None => seq![],
    }
}

/// The position part of a geometry change: the horizontal then the vertical offset.
pub open spec fn pos_part_ok(dom: Dom, sh: NodeId, geom: DrawingGeometry, part: Seq<NodeEdit>) -> bool {
    match geom.pos_offset_emu {
        Some((x, y)) => exists|m: int| 0 <= m <= part.len() && axis_offset_ok(dom, sh, LocalName::PositionH, x, #[trigger] part.subrange(0, m))
            && axis_offset_ok(dom, sh, LocalName::PositionV, y, part.subrange(m, part.len() as int)),
        None => part.len() == 0,
    }
}

/// The crop part of a geometry change.
pub open spec fn crop_part_ok(dom: Dom, drawing: NodeId, geom: DrawingGeometry, part: Seq<NodeEdit>) -> bool {
    match geom.crop {
        Some(cr) => crop_all_ok(dom, blip_fills_of(dom, drawing), cr, part),
        None => part.len() == 0,
    }
}

/// The edits of a geometry change of `drawing` (shell `sh`), in four parts: the size
/// ([`size_part`]); the anchored offsets ([`pos_part_ok`]); rotation and flips on every
/// `a:xfrm`; the crop window on every blip fill ([`crop_part_ok`]).
pub open spec fn geometry_ok(dom: Dom, drawing: NodeId, sh: NodeId, geom: DrawingGeometry, effect: (i64, i64),
    edits: Seq<NodeEdit>) -> bool {
    exists|a: int, b: int, c: int| 0 <= a <= b <= c <= edits.len()
        && #[trigger] attr_edits_are(edits.subrange(0, a), size_part(dom, drawing, sh, geom, effect))
        && pos_part_ok(dom, sh, geom, edits.subrange(a, b))
        && #[trigger] attr_edits_are(edits.subrange(b, c), xfrm_edits(xfrms_of(dom, drawing), geom.rot_deg, geom.flip_h, geom.flip_v))
        && crop_part_ok(dom, drawing, geom, edits.subrange(c, edits.len() as int))
}


proof fn lemma_attr_concat(a: Seq<NodeEdit>, da: Seq<AttrEdit>, b: Seq<NodeEdit>, db: Seq<AttrEdit>)
    requires
        attr_edits_are(a, da),
        attr_edits_are(b, db),
    ensures
        attr_edits_are(a + b, da + db),
{
    assert forall|i: int| 0 <= i < (a + b).len() implies attr_edit_is(#[trigger] (a + b)[i], (da + db)[i]) by {
        if i < a.len() {
            assert((a + b)[i] == a[i]);
            assert((da + db)[i] == da[i]);
        } else {
            assert((a + b)[i] == b[i - a.len()]);
            assert((da + db)[i] == db[i - a.len()]);
        }
    }
}

/// The edits a plan gained since it had `k` edits.
pub open spec fn tail_from(p: MutationPlan, k: int) -> Seq<NodeEdit> {
    p.node_edits@.subrange(k, p.node_edits@.len() as int)
}

/// `b` extends `a`: the same bookkeeping and `a`'s edits first.
pub open spec fn extends(a: MutationPlan, b: MutationPlan) -> bool {
    &&& crate::image::same_but_edits(a, b)
    &&& b.node_edits@.len() >= a.node_edits@.len()
    &&& b.node_edits@.subrange(0, a.node_edits@.len() as int) == a.node_edits@
}

fn push_set(plan: &mut MutationPlan, node: NodeId, name: QName, value: String)
    ensures
        extends(*old(plan), *final(plan)),
        attr_edits_are(tail_from(*final(plan), old(plan).node_edits@.len() as int), seq![(node, name, Some(value@))]),
{
    let ghost v = value@;
    plan.push(NodeEdit::SetAttr { node: Target::Node(node), name, value });
    assert(final(plan).node_edits@.subrange(0, old(plan).node_edits@.len() as int) =~= old(plan).node_edits@);
    assert(tail_from(*final(plan), old(plan).node_edits@.len() as int) =~= seq![final(plan).node_edits@.last()]);
}

fn push_remove(plan: &mut MutationPlan, node: NodeId, name: QName)
    ensures
        extends(*old(plan), *final(plan)),
        attr_edits_are(tail_from(*final(plan), old(plan).node_edits@.len() as int), seq![(node, name, None::<Seq<char>>)]),
{
    plan.push(NodeEdit::RemoveAttr { node: Target::Node(node), name });
    assert(final(plan).node_edits@.subrange(0, old(plan).node_edits@.len() as int) =~= old(plan).node_edits@);
    assert(tail_from(*final(plan), old(plan).node_edits@.len() as int) =~= seq![final(plan).node_edits@.last()]);
}

proof fn lemma_extends_trans(a: MutationPlan, b: MutationPlan, c: MutationPlan)
    requires
        extends(a, b),
        extends(b, c),
    ensures
        extends(a, c),
        tail_from(c, a.node_edits@.len() as int) == tail_from(b, a.node_edits@.len() as int) + tail_from(c, b.node_edits@.len() as int),
{
    assert(c.node_edits@.subrange(0, a.node_edits@.len() as int) =~= c.node_edits@.subrange(0, b.node_edits@.len() as int).subrange(0, a.node_edits@.len() as int));
    assert(tail_from(c, a.node_edits@.len() as int) =~= tail_from(b, a.node_edits@.len() as int) + tail_from(c, b.node_edits@.len() as int));
}

proof fn lemma_extends_refl(a: MutationPlan)
    ensures
        extends(a, a),
        tail_from(a, a.node_edits@.len() as int) == Seq::<NodeEdit>::empty(),
{
    assert(a.node_edits@.subrange(0, a.node_edits@.len() as int) =~= a.node_edits@);
    assert(tail_from(a, a.node_edits@.len() as int) =~= Seq::<NodeEdit>::empty());
}

fn push_size(plan: &mut MutationPlan, dom: &Dom, drawing: NodeId, sh: NodeId, cx: i64, cy: i64, ex: i64, ey: i64)
    requires
        dom.wf(),
        dom.has(drawing),
        dom.has(sh),
    ensures
        extends(*old(plan), *final(plan)),
        attr_edits_are(tail_from(*final(plan), old(plan).node_edits@.len() as int),
            size_edits(*dom, sh, exts_of(*dom, xfrms_of(*dom, drawing)), cx as int, cy as int, ex as int, ey as int)),
{
    let ghost k = plan.node_edits@.len() as int;
    proof {
        lemma_extends_refl(*plan);
    }
    if let Some(e) = first_child_named(dom, sh, QName::new(NsId::Wp, LocalName::Extent)) {
        let ghost p0 = *plan;
        push_set(plan, e, QName::new(NsId::NoNamespace, LocalName::Cx), signed_decimal(cx));
        let ghost p1 = *plan;
        push_set(plan, e, QName::new(NsId::NoNamespace, LocalName::Cy), signed_decimal(cy));
        proof {
            lemma_extends_trans(p0, p1, *plan);
            lemma_attr_concat(tail_from(p1, k), seq![(e, nq(LocalName::Cx), Some(signed_text(cx as int)))],
                tail_from(*plan, p1.node_edits@.len() as int), seq![(e, nq(LocalName::Cy), Some(signed_text(cy as int)))]);
        }
    }
    let ghost d1 = match child_named(*dom, sh, wpq(LocalName::Extent)) {
        Some(e) => seq![(e, nq(LocalName::Cx), Some(signed_text(cx as int))), (e, nq(LocalName::Cy), Some(signed_text(cy as int)))],
        None => Seq::<AttrEdit>::empty(),
    };
    assert(seq![(child_named(*dom, sh, wpq(LocalName::Extent)).unwrap(), nq(LocalName::Cx), Some(signed_text(cx as int)))]
        + seq![(child_named(*dom, sh, wpq(LocalName::Extent)).unwrap(), nq(LocalName::Cy), Some(signed_text(cy as int)))] =~= d1
        || child_named(*dom, sh, wpq(LocalName::Extent)) is None);
    assert(attr_edits_are(tail_from(*plan, k), d1));
    let ghost q1 = *plan;
    if let Some(e) = first_child_named(dom, sh, QName::new(NsId::Wp, LocalName::EffectExtent)) {
        let ghost p0 = *plan;
        push_set(plan, e, QName::new(NsId::NoNamespace, LocalName::L), signed_decimal(ex));
        let ghost p1 = *plan;
        push_set(plan, e, QName::new(NsId::NoNamespace, LocalName::T), signed_decimal(ey));
        let ghost p2 = *plan;
        push_set(plan, e, QName::new(NsId::NoNamespace, LocalName::R), signed_decimal(ex));
        let ghost p3 = *plan;
        push_set(plan, e, QName::new(NsId::NoNamespace, LocalName::B), signed_decimal(ey));
        proof {
            let k0 = p0.node_edits@.len() as int;
            lemma_extends_trans(p0, p1, p2);
            lemma_extends_trans(p0, p2, p3);
            lemma_extends_trans(p0, p3, *plan);
            lemma_attr_concat(tail_from(p1, k0), seq![(e, nq(LocalName::L), Some(signed_text(ex as int)))],
                tail_from(p2, p1.node_edits@.len() as int), seq![(e, nq(LocalName::T), Some(signed_text(ey as int)))]);
            lemma_attr_concat(tail_from(p2, k0), seq![(e, nq(LocalName::L), Some(signed_text(ex as int)))] + seq![(e, nq(LocalName::T), Some(signed_text(ey as int)))],
                tail_from(p3, p2.node_edits@.len() as int), seq![(e, nq(LocalName::R), Some(signed_text(ex as int)))]);
            lemma_attr_concat(tail_from(p3, k0), seq![(e, nq(LocalName::L), Some(signed_text(ex as int)))] + seq![(e, nq(LocalName::T), Some(signed_text(ey as int)))]
                + seq![(e, nq(LocalName::R), Some(signed_text(ex as int)))],
                tail_from(*plan, p3.node_edits@.len() as int), seq![(e, nq(LocalName::B), Some(signed_text(ey as int)))]);
            assert(seq![(e, nq(LocalName::L), Some(signed_text(ex as int)))] + seq![(e, nq(LocalName::T), Some(signed_text(ey as int)))]
                + seq![(e, nq(LocalName::R), Some(signed_text(ex as int)))] + seq![(e, nq(LocalName::B), Some(signed_text(ey as int)))]
                =~= seq![(e, nq(LocalName::L), Some(signed_text(ex as int))), (e, nq(LocalName::T), Some(signed_text(ey as int))),
                    (e, nq(LocalName::R), Some(signed_text(ex as int))), (e, nq(LocalName::B), Some(signed_text(ey as int)))]);
        }
    } else {
        proof {
            lemma_extends_refl(*plan);
        }
    }
    let ghost d2 = match child_named(*dom, sh, wpq(LocalName::EffectExtent)) {
        Some(e) => seq![(e, nq(LocalName::L), Some(signed_text(ex as int))), (e, nq(LocalName::T), Some(signed_text(ey as int))),
            (e, nq(LocalName::R), Some(signed_text(ex as int))), (e, nq(LocalName::B), Some(signed_text(ey as int)))],
        None => Seq::<AttrEdit>::empty(),
    };
    proof {
        lemma_extends_trans(*old(plan), q1, *plan);
        lemma_attr_concat(tail_from(q1, k), d1, tail_from(*plan, q1.node_edits@.len() as int), d2);
    }
    let ghost q2 = *plan;
    let exts = xfrm_exts(dom, drawing);
    proof {
        lemma_extends_refl(*plan);
        assert(exts@.take(0) =~= Seq::<NodeId>::empty());
    }
    for i in 0..exts.len()
        invariant
            extends(q2, *plan),
            attr_edits_are(tail_from(*plan, q2.node_edits@.len() as int), ext_size_edits(exts@.take(i as int), cx as int, cy as int)),
    {
        let ghost p0 = *plan;
        push_set(plan, exts[i], QName::new(NsId::NoNamespace, LocalName::Cx), signed_decimal(cx));
        let ghost p1 = *plan;
        push_set(plan, exts[i], QName::new(NsId::NoNamespace, LocalName::Cy), signed_decimal(cy));
        proof {
            let x = exts@[i as int];
            assert(exts@.take(i + 1).drop_last() =~= exts@.take(i as int));
            assert(exts@.take(i + 1).last() == x);
            lemma_extends_trans(p0, p1, *plan);
            lemma_attr_concat(tail_from(p1, p0.node_edits@.len() as int), seq![(x, nq(LocalName::Cx), Some(signed_text(cx as int)))],
                tail_from(*plan, p1.node_edits@.len() as int), seq![(x, nq(LocalName::Cy), Some(signed_text(cy as int)))]);
            assert(seq![(x, nq(LocalName::Cx), Some(signed_text(cx as int)))] + seq![(x, nq(LocalName::Cy), Some(signed_text(cy as int)))]
                =~= seq![(x, nq(LocalName::Cx), Some(signed_text(cx as int))), (x, nq(LocalName::Cy), Some(signed_text(cy as int)))]);
            lemma_extends_trans(q2, p0, *plan);
            lemma_attr_concat(tail_from(p0, q2.node_edits@.len() as int), ext_size_edits(exts@.take(i as int), cx as int, cy as int),
                tail_from(*plan, p0.node_edits@.len() as int),
                seq![(x, nq(LocalName::Cx), Some(signed_text(cx as int))), (x, nq(LocalName::Cy), Some(signed_text(cy as int)))]);
        }
    }
    proof {
        assert(exts@.take(exts@.len() as int) =~= exts@);
        lemma_extends_trans(*old(plan), q2, *plan);
        lemma_attr_concat(tail_from(q2, k), d1 + d2, tail_from(*plan, q2.node_edits@.len() as int), ext_size_edits(exts@, cx as int, cy as int));
    }
}


fn push_offset(plan: &mut MutationPlan, dom: &Dom, sh: NodeId, which: LocalName, v: i64)
    requires
        dom.wf(),
        dom.has(sh),
    ensures
        extends(*old(plan), *final(plan)),
        axis_offset_ok(*dom, sh, which, v, tail_from(*final(plan), old(plan).node_edits@.len() as int)),
{
    let ghost k = plan.node_edits@.len() as int;
    match first_child_named(dom, sh, QName::new(NsId::Wp, which)) {
        Some(pos) => match first_child_named(dom, pos, QName::new(NsId::Wp, LocalName::PosOffset)) {
            Some(off) => {
                proof {
                    crate::image::lemma_find_first_in(dom.spec_live_children(pos), crate::image::named_pred(*dom, wpq(LocalName::PosOffset)));
                }
                let t = signed_decimal(v);
                plan.set_segment_text(dom, off, t.as_str());
            },
            None => {
                let e = NewElement::new(QName::new(NsId::Wp, LocalName::PosOffset)).with_text(signed_decimal(v));
                plan.push(NodeEdit::Insert { parent: Target::Node(pos), before: None, node: e });
                proof {
                    assert(plan.node_edits@.subrange(0, k) =~= old(plan).node_edits@);
                    assert(tail_from(*plan, k) =~= seq![plan.node_edits@.last()]);
                }
            },
        },
        None => {
            proof {
                lemma_extends_refl(*plan);
            }
        },
    }
}

fn push_xfrm_edits(plan: &mut MutationPlan, dom: &Dom, drawing: NodeId, geom: &DrawingGeometry)
    requires
        dom.wf(),
        dom.has(drawing),
        match geom.rot_deg { Some(Some(d)) => i64::MIN <= d * 60000 <= i64::MAX, _ => true },
    ensures
        extends(*old(plan), *final(plan)),
        attr_edits_are(tail_from(*final(plan), old(plan).node_edits@.len() as int),
            xfrm_edits(xfrms_of(*dom, drawing), geom.rot_deg, geom.flip_h, geom.flip_v)),
{
    let xs = xfrms(dom, drawing);
    let ghost k = plan.node_edits@.len() as int;
    proof {
        lemma_extends_refl(*plan);
        assert(xs@.take(0) =~= Seq::<NodeId>::empty());
    }
    for i in 0..xs.len()
        invariant
            extends(*old(plan), *plan),
            k == old(plan).node_edits@.len(),
            match geom.rot_deg { Some(Some(d)) => i64::MIN <= d * 60000 <= i64::MAX, _ => true },
            attr_edits_are(tail_from(*plan, k), xfrm_edits(xs@.take(i as int), geom.rot_deg, geom.flip_h, geom.flip_v)),
    {
        let x = xs[i];
        let ghost p0 = *plan;
        match geom.rot_deg {
            Some(Some(d)) => push_set(plan, x, QName::new(NsId::NoNamespace, LocalName::Rot), signed_decimal(d * 60000)),
            Some(None) => push_remove(plan, x, QName::new(NsId::NoNamespace, LocalName::Rot)),
            None => {
                proof {
                    lemma_extends_refl(*plan);
                }
            },
        }
        let ghost p1 = *plan;
        let ghost rot_part: Seq<AttrEdit> = match geom.rot_deg {
            Some(Some(d)) => seq![(x, nq(LocalName::Rot), Some(signed_text(d * 60000)))],
            Some(None) => seq![(x, nq(LocalName::Rot), None)],
            None => seq![],
        };
        assert(attr_edits_are(tail_from(p1, p0.node_edits@.len() as int), rot_part));
        push_flip(plan, x, LocalName::FlipH, geom.flip_h);
        let ghost p2 = *plan;
        push_flip(plan, x, LocalName::FlipV, geom.flip_v);
        proof {
            assert(xs@.take(i + 1).drop_last() =~= xs@.take(i as int));
            assert(xs@.take(i + 1).last() == x);
            lemma_extends_trans(p0, p1, p2);
            lemma_attr_concat(tail_from(p1, p0.node_edits@.len() as int), rot_part, tail_from(p2, p1.node_edits@.len() as int),
                flip_edit(x, LocalName::FlipH, geom.flip_h));
            lemma_extends_trans(p0, p2, *plan);
            lemma_attr_concat(tail_from(p2, p0.node_edits@.len() as int), rot_part + flip_edit(x, LocalName::FlipH, geom.flip_h),
                tail_from(*plan, p2.node_edits@.len() as int), flip_edit(x, LocalName::FlipV, geom.flip_v));
            lemma_extends_trans(*old(plan), p0, *plan);
            lemma_attr_concat(tail_from(p0, k), xfrm_edits(xs@.take(i as int), geom.rot_deg, geom.flip_h, geom.flip_v),
                tail_from(*plan, p0.node_edits@.len() as int),
                rot_part + flip_edit(x, LocalName::FlipH, geom.flip_h) + flip_edit(x, LocalName::FlipV, geom.flip_v));
        }
    }
    proof {
        assert(xs@.take(xs@.len() as int) =~= xs@);
    }
}

fn push_flip(plan: &mut MutationPlan, x: NodeId, name: LocalName, f: Option<bool>)
    ensures
        extends(*old(plan), *final(plan)),
        attr_edits_are(tail_from(*final(plan), old(plan).node_edits@.len() as int), flip_edit(x, name, f)),
{
    match f {
        Some(true) => {
            push_set(plan, x, QName::new(NsId::NoNamespace, name), crate::diag::text("1"));
            proof {
                reveal_strlit("1");
            }
        },
        Some(false) => push_remove(plan, x, QName::new(NsId::NoNamespace, name)),
        None => {
            proof {
                lemma_extends_refl(*plan);
            }
        },
    }
}

/// The new crop window of `r`.
pub fn src_rect_element(r: SrcRect) -> (e: NewElement)
    ensures
        is_src_rect(e, r),
{
    let mut e = NewElement::new(QName::new(NsId::A, LocalName::SrcRect));
    if r.l != 0 {
        e.push_attr(QName::new(NsId::NoNamespace, LocalName::L), signed_decimal(r.l));
    }
    let ghost a1 = e.attrs@;
    assert(attrs_are(a1, side(LocalName::L, r.l)));
    if r.t != 0 {
        e.push_attr(QName::new(NsId::NoNamespace, LocalName::T), signed_decimal(r.t));
    }
    let ghost a2 = e.attrs@;
    assert(attrs_are(a2, side(LocalName::L, r.l) + side(LocalName::T, r.t)));
    if r.r != 0 {
        e.push_attr(QName::new(NsId::NoNamespace, LocalName::R), signed_decimal(r.r));
    }
    assert(attrs_are(e.attrs@, side(LocalName::L, r.l) + side(LocalName::T, r.t) + side(LocalName::R, r.r)));
    if r.b != 0 {
        e.push_attr(QName::new(NsId::NoNamespace, LocalName::B), signed_decimal(r.b));
    }
    e
}

fn find_crop_site(dom: &Dom, fill: NodeId) -> (r: Option<NodeId>)
    requires
        dom.wf(),
        dom.has(fill),
    ensures
        r == crop_site(*dom, fill),
{
    let kids = dom.live_children(fill);
    let mut i: usize = 0;
    assert(kids@.skip(0) =~= kids@);
    while i < kids.len()
        invariant
            i <= kids@.len(),
            kids@ == dom.spec_live_children(fill),
            crop_site(*dom, fill) == find_first(kids@.skip(i as int), |c: NodeId| !dom.named(c, aq(LocalName::Blip))),
        decreases kids@.len() - i,
    {
        proof {
            assert(kids@.skip(i as int).drop_first() =~= kids@.skip(i + 1));
            assert(kids@.skip(i as int)[0] == kids@[i as int]);
        }
        if !dom.is(kids[i], QName::new(NsId::A, LocalName::Blip)) {
            return Some(kids[i]);
        }
        i = i + 1;
    }
    None
}

fn push_crop_one(plan: &mut MutationPlan, dom: &Dom, fill: NodeId, crop: Option<SrcRect>)
    requires
        dom.wf(),
        dom.has(fill),
    ensures
        extends(*old(plan), *final(plan)),
        crop_fill_ok(*dom, fill, crop, tail_from(*final(plan), old(plan).node_edits@.len() as int)),
{
    let ghost k = plan.node_edits@.len() as int;
    let existing = first_child_named(dom, fill, QName::new(NsId::A, LocalName::SrcRect));
    match crop {
        None => match existing {
            Some(n) => plan.push(NodeEdit::Delete(n)),
            None => {},
        },
        Some(r) => {
            let e = src_rect_element(r);
            match existing {
                Some(o) => plan.push(NodeEdit::Replace { old: o, node: e }),
                None => {
                    let before = find_crop_site(dom, fill);
                    plan.push(NodeEdit::Insert { parent: Target::Node(fill), before, node: e });
                },
            }
        },
    }
    proof {
        assert(plan.node_edits@.subrange(0, k) =~= old(plan).node_edits@);
        if plan.node_edits@.len() > k {
            assert(tail_from(*plan, k) =~= seq![plan.node_edits@.last()]);
        } else {
            assert(tail_from(*plan, k) =~= Seq::<NodeEdit>::empty());
        }
    }
}

fn push_crop(plan: &mut MutationPlan, dom: &Dom, drawing: NodeId, crop: Option<SrcRect>)
    requires
        dom.wf(),
        dom.has(drawing),
    ensures
        extends(*old(plan), *final(plan)),
        crop_all_ok(*dom, blip_fills_of(*dom, drawing), crop, tail_from(*final(plan), old(plan).node_edits@.len() as int)),
{
    let fills = blip_fills(dom, drawing);
    let ghost k = plan.node_edits@.len() as int;
    proof {
        lemma_extends_refl(*plan);
        assert(fills@.take(0) =~= Seq::<NodeId>::empty());
    }
    for i in 0..fills.len()
        invariant
            dom.wf(),
            forall|j: int| 0 <= j < fills@.len() ==> dom.has(#[trigger] fills@[j]),
            extends(*old(plan), *plan),
            k == old(plan).node_edits@.len(),
            crop_all_ok(*dom, fills@.take(i as int), crop, tail_from(*plan, k)),
    {
        let ghost p0 = *plan;
        push_crop_one(plan, dom, fills[i], crop);
        proof {
            assert(fills@.take(i + 1).drop_last() =~= fills@.take(i as int));
            assert(fills@.take(i + 1).last() == fills@[i as int]);
            lemma_extends_trans(*old(plan), p0, *plan);
            let t = tail_from(*plan, k);
            let m = tail_from(p0, k).len() as int;
            assert(t.subrange(0, m) =~= tail_from(p0, k));
            assert(t.subrange(m, t.len() as int) =~= tail_from(*plan, p0.node_edits@.len() as int));
            assert(crop_all_ok(*dom, fills@.take(i + 1), crop, t));
        }
    }
    proof {
        assert(fills@.take(fills@.len() as int) =~= fills@);
    }
}

/// The plan of a geometry change of `drawing` with shell `sh` (see [`geometry_ok`]); the
/// effect margins are given (they come from the rotated bounding box); the paragraph is
/// refreshed.
pub fn geometry_plan(dom: &Dom, part: PartId, drawing: NodeId, sh: NodeId, geom: &DrawingGeometry, effect: (i64, i64))
    -> (p: MutationPlan)
    requires
        dom.wf(),
        dom.has(drawing),
        dom.has(sh),
        match geom.rot_deg { Some(Some(d)) => i64::MIN <= d * 60000 <= i64::MAX, _ => true },
    ensures
        p.part == part,
        p.affected_blocks@ == host_paragraph(*dom, drawing),
        !p.structure_changed,
        p.diagnostics@.len() == 0,
        geometry_ok(*dom, drawing, sh, *geom, effect, p.node_edits@),
{
    let mut plan = MutationPlan::new(part);
    if let Some(para) = dom.closest_named(drawing, QName::w(LocalName::P)) {
        plan.touch(para);
    }
    assert(plan.affected_blocks@ =~= host_paragraph(*dom, drawing));
    let ghost p0 = plan;
    if let Some((cx, cy)) = geom.extent_emu {
        let cx1: i64 = if cx < 1 { 1 } else { cx };
        let cy1: i64 = if cy < 1 { 1 } else { cy };
        let ex: i64 = if effect.0 < 0 { 0 } else { effect.0 };
        let ey: i64 = if effect.1 < 0 { 0 } else { effect.1 };
        push_size(&mut plan, dom, drawing, sh, cx1, cy1, ex, ey);
    } else {
        proof {
            lemma_extends_refl(plan);
        }
    }
    let ghost p1 = plan;
    assert(attr_edits_are(tail_from(p1, 0), size_part(*dom, drawing, sh, *geom, effect)));
    if let Some((x, y)) = geom.pos_offset_emu {
        push_offset(&mut plan, dom, sh, LocalName::PositionH, x);
        let ghost ph = plan;
        push_offset(&mut plan, dom, sh, LocalName::PositionV, y);
        proof {
            lemma_extends_trans(p1, ph, plan);
            let part = tail_from(plan, p1.node_edits@.len() as int);
            let m = ph.node_edits@.len() - p1.node_edits@.len();
            assert(part.subrange(0, m) =~= tail_from(ph, p1.node_edits@.len() as int));
            assert(part.subrange(m, part.len() as int) =~= tail_from(plan, ph.node_edits@.len() as int));
            assert(pos_part_ok(*dom, sh, *geom, part));
        }
    } else {
        proof {
            lemma_extends_refl(plan);
        }
    }
    let ghost p2 = plan;
    assert(pos_part_ok(*dom, sh, *geom, tail_from(p2, p1.node_edits@.len() as int)));
    push_xfrm_edits(&mut plan, dom, drawing, geom);
    let ghost p3 = plan;
    match geom.crop {
        Some(c) => push_crop(&mut plan, dom, drawing, c),
        None => {
            proof {
                lemma_extends_refl(plan);
            }
        },
    }
    proof {
        lemma_extends_trans(p0, p1, p2);
        lemma_extends_trans(p0, p2, p3);
        lemma_extends_trans(p0, p3, plan);
        let t = plan.node_edits@;
        let a = p1.node_edits@.len() as int;
        let b = p2.node_edits@.len() as int;
        let c = p3.node_edits@.len() as int;
        assert(p0.node_edits@.len() == 0);
        assert(t.subrange(0, a) =~= tail_from(p1, 0));
        assert(t.subrange(a, b) =~= tail_from(p2, a));
        assert(t.subrange(b, c) =~= tail_from(p3, b));
        assert(t.subrange(c, t.len() as int) =~= tail_from(plan, c));
        assert(attr_edits_are(t.subrange(0, a), size_part(*dom, drawing, sh, *geom, effect)));
        assert(pos_part_ok(*dom, sh, *geom, t.subrange(a, b)));
        assert(attr_edits_are(t.subrange(b, c), xfrm_edits(xfrms_of(*dom, drawing), geom.rot_deg, geom.flip_h, geom.flip_v)));
        assert(crop_part_ok(*dom, drawing, *geom, t.subrange(c, t.len() as int)));
        assert(geometry_ok(*dom, drawing, sh, *geom, effect, t));
    }
    plan
}

/// Every node of `ns` is a live element.
pub open spec fn live_elements(d: Dom, ns: Seq<NodeId>) -> bool {
    forall|k: int| 0 <= k < ns.len() ==> d.live(#[trigger] ns[k]) && d.is_element(ns[k])
}

/// Every attribute edit of `ds` is on a live element.
pub open spec fn attr_nodes_live(d: Dom, ds: Seq<AttrEdit>) -> bool {
    forall|k: int| 0 <= k < ds.len() ==> d.live(#[trigger] ds[k].0) && d.is_element(ds[k].0)
}

/// The first live child of `n` named `q` is a live element among `n`'s children, with a parent.
pub proof fn lemma_child_named_live(d: Dom, n: NodeId, q: QName)
    requires
        d.wf(),
    ensures
        child_named(d, n, q) matches Some(c) ==> d.live(c) && d.is_element(c) && d.has(c) && d.kids(n).contains(c)
            && (d.has(n) ==> d.at(c).parent is Some),
{
    crate::image::lemma_find_first_in(d.spec_live_children(n), crate::image::named_pred(d, q));
    if let Some(c) = child_named(d, n, q) {
        crate::image::lemma_live_child(d, n, c);
        d.kids(n).lemma_filter_contains_rev(|x: NodeId| d.live(x), c);
        if d.has(n) {
            lemma_kid_parented(d, n, c);
        }
    }
}

/// A node in a child list has a parent.
pub proof fn lemma_kid_parented(d: Dom, n: NodeId, c: NodeId)
    requires
        d.wf(),
        d.has(n),
        d.kids(n).contains(c),
    ensures
        d.at(c).parent is Some,
{
    reveal(Dom::kids_parented);
    let j = choose|j: int| 0 <= j < d.kids(n).len() && d.kids(n)[j] == c;
    assert(d.nodes@[n.0 as int].children@[j] == c);
}

/// The nodes a `select` over the descendants of `n` picks by name are live elements.
proof fn lemma_select_named_live(d: Dom, n: NodeId, p: spec_fn(NodeId) -> bool)
    requires
        forall|x: NodeId| #[trigger] p(x) ==> d.is_element(x),
    ensures
        live_elements(d, crate::track::select(d.spec_descendants(n), p)),
{
    crate::drawing::lemma_select_in(d.spec_descendants(n), p);
    let sel = crate::track::select(d.spec_descendants(n), p);
    assert forall|k: int| 0 <= k < sel.len() implies d.live(#[trigger] sel[k]) && d.is_element(sel[k]) by {
        crate::image::lemma_live_descendant(d, n, sel[k]);
    }
}

proof fn lemma_exts_live(d: Dom, xs: Seq<NodeId>)
    requires
        d.wf(),
    ensures
        live_elements(d, exts_of(d, xs)),
    decreases xs.len(),
{
    if xs.len() > 0 {
        lemma_exts_live(d, xs.drop_last());
        lemma_child_named_live(d, xs.last(), aq(LocalName::Ext));
        let prev = exts_of(d, xs.drop_last());
        if let Some(e) = child_named(d, xs.last(), aq(LocalName::Ext)) {
            assert forall|k: int| 0 <= k < prev.push(e).len() implies d.live(#[trigger] prev.push(e)[k]) && d.is_element(prev.push(e)[k]) by {
                if k < prev.len() {
                    assert(prev.push(e)[k] == prev[k]);
                }
            }
        }
    }
}

proof fn lemma_ext_size_live(d: Dom, exts: Seq<NodeId>, cx: int, cy: int)
    requires
        live_elements(d, exts),
    ensures
        attr_nodes_live(d, ext_size_edits(exts, cx, cy)),
    decreases exts.len(),
{
    if exts.len() > 0 {
        assert(live_elements(d, exts.drop_last())) by {
            assert forall|k: int| 0 <= k < exts.drop_last().len() implies d.live(#[trigger] exts.drop_last()[k])
                && d.is_element(exts.drop_last()[k]) by {
                assert(exts.drop_last()[k] == exts[k]);
            }
        }
        lemma_ext_size_live(d, exts.drop_last(), cx, cy);
        let a = ext_size_edits(exts.drop_last(), cx, cy);
        let x = exts.last();
        let b = seq![(x, nq(LocalName::Cx), Some(signed_text(cx))), (x, nq(LocalName::Cy), Some(signed_text(cy)))];
        assert(exts[exts.len() - 1] == x);
        assert forall|k: int| 0 <= k < (a + b).len() implies d.live(#[trigger] (a + b)[k].0) && d.is_element((a + b)[k].0) by {
            if k < a.len() {
                assert((a + b)[k] == a[k]);
            } else {
                assert((a + b)[k] == b[k - a.len()]);
            }
        }
    }
}

proof fn lemma_xfrm_live(d: Dom, xs: Seq<NodeId>, rot: Option<Option<i64>>, fh: Option<bool>, fv: Option<bool>)
    requires
        live_elements(d, xs),
    ensures
        attr_nodes_live(d, xfrm_edits(xs, rot, fh, fv)),
    decreases xs.len(),
{
    if xs.len() > 0 {
        assert(live_elements(d, xs.drop_last())) by {
            assert forall|k: int| 0 <= k < xs.drop_last().len() implies d.live(#[trigger] xs.drop_last()[k])
                && d.is_element(xs.drop_last()[k]) by {
                assert(xs.drop_last()[k] == xs[k]);
            }
        }
        lemma_xfrm_live(d, xs.drop_last(), rot, fh, fv);
        let x = xs.last();
        assert(xs[xs.len() - 1] == x);
        let a = xfrm_edits(xs.drop_last(), rot, fh, fv);
        let r: Seq<AttrEdit> = match rot {
            Some(Some(dg)) => seq![(x, nq(LocalName::Rot), Some(signed_text(dg * 60000)))],
            Some(None) => seq![(x, nq(LocalName::Rot), None)],
            None => seq![],
        };
        let h = flip_edit(x, LocalName::FlipH, fh);
        let v = flip_edit(x, LocalName::FlipV, fv);
        let all = a + r + h + v;
        assert(xfrm_edits(xs, rot, fh, fv) == all);
        assert forall|k: int| 0 <= k < all.len() implies d.live(#[trigger] all[k].0) && d.is_element(all[k].0) by {
            if k < a.len() {
                assert(all[k] == a[k]);
            } else if k < a.len() + r.len() {
                assert(all[k] == r[k - a.len()]);
            } else if k < a.len() + r.len() + h.len() {
                assert(all[k] == h[k - a.len() - r.len()]);
            } else {
                assert(all[k] == v[k - a.len() - r.len() - h.len()]);
            }
        }
    }
}

proof fn lemma_size_live(d: Dom, drawing: NodeId, sh: NodeId, geom: DrawingGeometry, effect: (i64, i64))
    requires
        d.wf(),
    ensures
        attr_nodes_live(d, size_part(d, drawing, sh, geom, effect)),
{
    if let Some((cx, cy)) = geom.extent_emu {
        let exts = exts_of(d, xfrms_of(d, drawing));
        lemma_exts_live(d, xfrms_of(d, drawing));
        let c1 = at_least(cx as int, 1);
        let c2 = at_least(cy as int, 1);
        lemma_ext_size_live(d, exts, c1, c2);
        lemma_child_named_live(d, sh, crate::drawing::wpq(LocalName::Extent));
        lemma_child_named_live(d, sh, crate::drawing::wpq(LocalName::EffectExtent));
        let e1 = at_least(effect.0 as int, 0);
        let e2 = at_least(effect.1 as int, 0);
        let a: Seq<AttrEdit> = match child_named(d, sh, crate::drawing::wpq(LocalName::Extent)) {
            Some(e) => seq![(e, nq(LocalName::Cx), Some(signed_text(c1))), (e, nq(LocalName::Cy), Some(signed_text(c2)))],
            None => seq![],
        };
        let b: Seq<AttrEdit> = match child_named(d, sh, crate::drawing::wpq(LocalName::EffectExtent)) {
            Some(e) => seq![(e, nq(LocalName::L), Some(signed_text(e1))), (e, nq(LocalName::T), Some(signed_text(e2))),
                (e, nq(LocalName::R), Some(signed_text(e1))), (e, nq(LocalName::B), Some(signed_text(e2)))],
            None => seq![],
        };
        let c = ext_size_edits(exts, c1, c2);
        let all = a + b + c;
        assert(size_part(d, drawing, sh, geom, effect) == all);
        assert forall|k: int| 0 <= k < all.len() implies d.live(#[trigger] all[k].0) && d.is_element(all[k].0) by {
            if k < a.len() {
                assert(all[k] == a[k]);
            } else if k < a.len() + b.len() {
                assert(all[k] == b[k - a.len()]);
            } else {
                assert(all[k] == c[k - a.len() - b.len()]);
            }
        }
    }
}

/// Attribute edits on live elements pass the plan check.
proof fn lemma_attr_part_valid(d: Dom, edits: Seq<NodeEdit>, lo: int, ds: Seq<AttrEdit>)
    requires
        0 <= lo,
        lo + ds.len() <= edits.len(),
        attr_edits_are(edits.subrange(lo, lo + ds.len()), ds),
        attr_nodes_live(d, ds),
    ensures
        forall|i: int| lo <= i < lo + ds.len() ==> crate::edit::edit_ok(d, edits, i),
{
    assert forall|i: int| lo <= i < lo + ds.len() implies crate::edit::edit_ok(d, edits, i) by {
        assert(edits.subrange(lo, lo + ds.len())[i - lo] == edits[i]);
        assert(attr_edit_is(edits[i], ds[i - lo]));
        assert(d.live(ds[i - lo].0) && d.is_element(ds[i - lo].0));
    }
}

/// The offset edits of one axis pass the plan check.
proof fn lemma_axis_valid(d: Dom, sh: NodeId, which: LocalName, v: i64, edits: Seq<NodeEdit>, lo: int, hi: int)
    requires
        d.wf(),
        0 <= lo <= hi <= edits.len(),
        axis_offset_ok(d, sh, which, v, edits.subrange(lo, hi)),
    ensures
        forall|i: int| lo <= i < hi ==> crate::edit::edit_ok(d, edits, i),
{
    let part = edits.subrange(lo, hi);
    lemma_child_named_live(d, sh, crate::drawing::wpq(which));
    if let Some(pos) = child_named(d, sh, crate::drawing::wpq(which)) {
        lemma_child_named_live(d, pos, crate::drawing::wpq(LocalName::PosOffset));
        if let Some(off) = child_named(d, pos, crate::drawing::wpq(LocalName::PosOffset)) {
            if let Some(tn) = d.sole_text(off) {
                d.kids(off).lemma_filter_pred(|x: NodeId| d.live(x), 0);
                assert(d.live(tn) && d.is_text(tn));
            }
        }
        assert forall|i: int| lo <= i < hi implies crate::edit::edit_ok(d, edits, i) by {
            assert(part[i - lo] == edits[i]);
        }
    }
}

/// The crop edits of blip fills that are live elements pass the plan check.
proof fn lemma_crop_valid(d: Dom, fills: Seq<NodeId>, crop: Option<SrcRect>, edits: Seq<NodeEdit>, lo: int, hi: int)
    requires
        d.wf(),
        0 <= lo <= hi <= edits.len(),
        live_elements(d, fills),
        crop_all_ok(d, fills, crop, edits.subrange(lo, hi)),
    ensures
        forall|i: int| lo <= i < hi ==> crate::edit::edit_ok(d, edits, i),
    decreases fills.len(),
{
    if fills.len() > 0 {
        let part = edits.subrange(lo, hi);
        let m = choose|m: int| 0 <= m <= part.len() && crop_all_ok(d, fills.drop_last(), crop, #[trigger] part.subrange(0, m))
            && crop_fill_ok(d, fills.last(), crop, part.subrange(m, part.len() as int));
        assert(part.subrange(0, m) =~= edits.subrange(lo, lo + m));
        assert(live_elements(d, fills.drop_last())) by {
            assert forall|k: int| 0 <= k < fills.drop_last().len() implies d.live(#[trigger] fills.drop_last()[k])
                && d.is_element(fills.drop_last()[k]) by {
                assert(fills.drop_last()[k] == fills[k]);
            }
        }
        lemma_crop_valid(d, fills.drop_last(), crop, edits, lo, lo + m);
        let f = fills.last();
        assert(fills[fills.len() - 1] == f);
        let tail = part.subrange(m, part.len() as int);
        lemma_child_named_live(d, f, aq(LocalName::SrcRect));
        let lc = d.spec_live_children(f);
        crate::image::lemma_find_first_in(lc, |c: NodeId| !d.named(c, aq(LocalName::Blip)));
        if let Some(b) = crop_site(d, f) {
            d.kids(f).lemma_filter_contains_rev(|x: NodeId| d.live(x), b);
            let j = choose|j: int| 0 <= j < d.kids(f).len() && d.kids(f)[j] == b;
            assert(d.nodes@[f.0 as int].children@[j] == b);
            assert(d.has(b));
        }
        assert forall|i: int| lo + m <= i < hi implies crate::edit::edit_ok(d, edits, i) by {
            assert(tail[i - lo - m] == edits[i]);
        }
    }
}

/// The edits of a geometry change pass the plan check.
proof fn lemma_geometry_valid(d: Dom, drawing: NodeId, sh: NodeId, geom: DrawingGeometry, effect: (i64, i64), edits: Seq<NodeEdit>)
    requires
        d.wf(),
        geometry_ok(d, drawing, sh, geom, effect, edits),
    ensures
        crate::edit::plan_valid(d, edits),
{
    let (a, b, c) = choose|a: int, b: int, c: int| 0 <= a <= b <= c <= edits.len()
        && #[trigger] attr_edits_are(edits.subrange(0, a), size_part(d, drawing, sh, geom, effect))
        && pos_part_ok(d, sh, geom, edits.subrange(a, b))
        && #[trigger] attr_edits_are(edits.subrange(b, c), xfrm_edits(xfrms_of(d, drawing), geom.rot_deg, geom.flip_h, geom.flip_v))
        && crop_part_ok(d, drawing, geom, edits.subrange(c, edits.len() as int));
    let sz = size_part(d, drawing, sh, geom, effect);
    lemma_size_live(d, drawing, sh, geom, effect);
    lemma_attr_part_valid(d, edits, 0, sz);
    if let Some((x, y)) = geom.pos_offset_emu {
        let part = edits.subrange(a, b);
        let m = choose|m: int| 0 <= m <= part.len() && axis_offset_ok(d, sh, LocalName::PositionH, x, #[trigger] part.subrange(0, m))
            && axis_offset_ok(d, sh, LocalName::PositionV, y, part.subrange(m, part.len() as int));
        assert(part.subrange(0, m) =~= edits.subrange(a, a + m));
        assert(part.subrange(m, part.len() as int) =~= edits.subrange(a + m, b));
        lemma_axis_valid(d, sh, LocalName::PositionH, x, edits, a, a + m);
        lemma_axis_valid(d, sh, LocalName::PositionV, y, edits, a + m, b);
    }
    let xs = xfrms_of(d, drawing);
    lemma_select_named_live(d, drawing, crate::image::named_pred(d, aq(LocalName::Xfrm)));
    lemma_xfrm_live(d, xs, geom.rot_deg, geom.flip_h, geom.flip_v);
    lemma_attr_part_valid(d, edits, b, xfrm_edits(xs, geom.rot_deg, geom.flip_h, geom.flip_v));
    if let Some(cr) = geom.crop {
        lemma_select_named_live(d, drawing, |n: NodeId| d.named(n, aq(LocalName::BlipFill))
            || d.named(n, QName { ns: NsId::Pic, local: LocalName::BlipFill }));
        lemma_crop_valid(d, blip_fills_of(d, drawing), cr, edits, c, edits.len() as int);
    }
    assert forall|i: int| 0 <= i < edits.len() implies crate::edit::edit_ok(d, edits, i) by {
        if i < a {
        } else if i < b {
            if geom.pos_offset_emu is None {
                assert(edits.subrange(a, b).len() == 0);
            }
        } else if i < c {
        } else {
            if geom.crop is None {
                assert(edits.subrange(c, edits.len() as int).len() == 0);
            }
        }
    }
}

impl EditSession {
    /// Changes the size, anchored position, rotation, flips and crop window of a drawing
    /// (see [`geometry_plan`]). `effect` holds the margins of the rotated bounding box for
    /// `wp:effectExtent`. Not a live drawing, or no shell: `EditBadPosition`, nothing
    /// changes.
    pub fn set_geometry(&mut self, drawing: NodeId, geom: &DrawingGeometry, effect: (i64, i64)) -> (r: Result<MutationResult, Error>)
        requires
            old(self).wf(),
            match geom.rot_deg { Some(Some(d)) => i64::MIN <= d * 60000 <= i64::MAX, _ => true },
        ensures
            final(self).spec_pkg().wf(),
            r is Ok ==> final(self).wf(),
            old(self).spec_pkg().at(old(self).spec_pkg().main).dom matches Some(d) && {
                &&& !is_live_drawing(d, drawing) ==> (r matches Err(e) && e.has_code(DiagCode::EditBadPosition) && *final(self) == *old(self))
                &&& is_live_drawing(d, drawing) && shell_of(d, drawing) is None ==> (r matches Err(e)
                    && e.has_code(DiagCode::EditBadPosition) && *final(self) == *old(self))
                &&& is_live_drawing(d, drawing) && shell_of(d, drawing) is Some
                    ==> (r is Ok <==> crate::document::projectable(final(self).spec_pkg()))
                &&& r matches Ok(res) ==> (shell_of(d, drawing) matches Some(sh)
                    && final(self).spec_pkg().at(final(self).spec_pkg().main).dom matches Some(d1)
                    && exists|edits: Seq<NodeEdit>| #![trigger crate::edit::applied(d, edits, res.created@, d1)]
                        geometry_ok(d, drawing, sh, *geom, effect, edits)
                        && crate::edit::applied(d, edits, res.created@, d1))
            },
    {
        self.require_drawing(drawing)?;
        let part = self.main_part();
        let dom = self.dom();
        let sh = shell(dom, drawing)?;
        let plan = geometry_plan(dom, part, drawing, sh, geom, effect);
        let ghost edits = plan.node_edits@;
        proof {
            lemma_geometry_valid(*dom, drawing, sh, *geom, effect, edits);
        }
        let r = self.commit_plan(plan);
        proof {
            if r is Ok {
                let d1 = self.spec_pkg().at(self.spec_pkg().main).dom->0;
                assert(crate::edit::applied(old(self).spec_pkg().at(old(self).spec_pkg().main).dom->0, edits, r->Ok_0.created@, d1));
            }
        }
        r
    }
}

} // verus!
