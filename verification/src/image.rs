use vstd::prelude::*;
use crate::diag::{DiagCode, Diagnostic, Error, text};
use crate::dom::{Dom, NodeKind};
use crate::plan::MutationResult;
use crate::revisions::package_max_revision_id;
use crate::session::EditSession;
use crate::track::{EditContext, Tracker};
use crate::edit::{NodeEdit, Target};
use crate::ids::{NodeId, PartId};
use crate::plan::{MutationPlan, contains_node};
use crate::tables::wn;
use crate::track::{find_first, select};
use crate::xml::{LocalName, NsId, QName};

verus! {

/// A name in the DrawingML namespace.
pub open spec fn aq(l: LocalName) -> QName {
    QName { ns: NsId::A, local: l }
}

/// A name in the relationships namespace.
pub open spec fn rq(l: LocalName) -> QName {
    QName { ns: NsId::R, local: l }
}

/// A name in no namespace.
pub open spec fn nq(l: LocalName) -> QName {
    QName { ns: NsId::NoNamespace, local: l }
}

/// Is an element named `q`.
pub open spec fn named_pred(dom: Dom, q: QName) -> spec_fn(NodeId) -> bool {
    |x: NodeId| dom.named(x, q)
}

/// Is an element whose local name is `l`, in any namespace.
pub open spec fn local_pred(dom: Dom, l: LocalName) -> spec_fn(NodeId) -> bool {
    |x: NodeId| dom.name_of(x) matches Some(q) && q.local == l
}

/// Is an element with at least one attribute.
pub open spec fn has_attrs(dom: Dom, x: NodeId) -> bool {
    dom.has(x) && (dom.at(x).kind matches NodeKind::Element(e) && e.attrs@.len() > 0)
}

/// Is an `a:fillRect` with attributes.
pub open spec fn fill_pred(dom: Dom) -> spec_fn(NodeId) -> bool {
    |x: NodeId| dom.named(x, aq(LocalName::FillRect)) && has_attrs(dom, x)
}

/// Is an `a:ext` holding an `svgBlip` (of any prefix).
pub open spec fn svg_ext_pred(dom: Dom) -> spec_fn(NodeId) -> bool {
    |e: NodeId| dom.named(e, aq(LocalName::Ext)) && find_first(dom.spec_descendants(e), local_pred(dom, LocalName::SvgBlip)) is Some
}

/// The picture reference of a drawing: its first live `a:blip`.
pub open spec fn blip_of(dom: Dom, drawing: NodeId) -> Option<NodeId> {
    find_first(dom.spec_descendants(drawing), named_pred(dom, aq(LocalName::Blip)))
}

/// An external link on the blip is dropped.
pub open spec fn link_edits(dom: Dom, blip: NodeId) -> Seq<NodeEdit> {
    if dom.spec_attr(blip, rq(LocalName::Link)) is Some {
        seq![NodeEdit::RemoveAttr { node: Target::Node(blip), name: rq(LocalName::Link) }]
    } else {
        seq![]
    }
}

/// The old crop window (the first `a:srcRect`) is deleted.
pub open spec fn src_edits(dom: Dom, drawing: NodeId) -> Seq<NodeEdit> {
    match find_first(dom.spec_descendants(drawing), named_pred(dom, aq(LocalName::SrcRect))) {
        Some(s) => seq![NodeEdit::Delete(s)],
        None => seq![],
    }
}

/// Removal of attribute `l` of `n` when it has one.
pub open spec fn drop_attr(dom: Dom, n: NodeId, l: LocalName) -> Seq<NodeEdit> {
    if dom.spec_attr(n, nq(l)) is Some {
        seq![NodeEdit::RemoveAttr { node: Target::Node(n), name: nq(l) }]
    } else {
        seq![]
    }
}

/// The old fill window (the first `a:fillRect` with attributes) loses its `l`, `t`, `r`, `b`.
pub open spec fn fill_edits(dom: Dom, drawing: NodeId) -> Seq<NodeEdit> {
    match find_first(dom.spec_descendants(drawing), fill_pred(dom)) {
        Some(f) => drop_attr(dom, f, LocalName::L) + drop_attr(dom, f, LocalName::T) + drop_attr(dom, f, LocalName::R)
            + drop_attr(dom, f, LocalName::B),
        None => seq![],
    }
}

/// Every entry of `kids` is in `s`.
pub open spec fn all_in(kids: Seq<NodeId>, s: Seq<NodeId>) -> bool {
    forall|j: int| 0 <= j < kids.len() ==> s.contains(#[trigger] kids[j])
}

/// The SVG extensions of the blip's first `a:extLst` are deleted, and the list too when
/// nothing else is left in it.
pub open spec fn ext_edits(dom: Dom, blip: NodeId) -> Seq<NodeEdit> {
    match find_first(dom.spec_live_children(blip), named_pred(dom, aq(LocalName::ExtLst))) {
        Some(x) => {
            let svg = select(dom.spec_live_children(x), svg_ext_pred(dom));
            svg.map_values(|e: NodeId| NodeEdit::Delete(e)) + (if all_in(dom.spec_live_children(x), svg) {
                seq![NodeEdit::Delete(x)]
            } else {
                seq![]
            })
        },
        None => seq![],
    }
}

/// The edits after the new `r:embed`.
pub open spec fn swap_tail(dom: Dom, drawing: NodeId, blip: NodeId) -> Seq<NodeEdit> {
    link_edits(dom, blip) + src_edits(dom, drawing) + fill_edits(dom, drawing) + ext_edits(dom, blip)
}

/// The paragraph holding `n` (or `n` itself), as a list of at most one block.
pub open spec fn host_paragraph(dom: Dom, n: NodeId) -> Seq<NodeId> {
    match dom.spec_up_named(n, wn(LocalName::P), dom.len()) {
        Some(p) => seq![p],
        None => seq![],
    }
}

fn find_named(dom: &Dom, v: &Vec<NodeId>, q: QName) -> (r: Option<NodeId>)
    ensures
        r == find_first(v@, named_pred(*dom, q)),
{
    let mut i: usize = 0;
    assert(v@.skip(0) =~= v@);
    while i < v.len()
        invariant
            i <= v@.len(),
            find_first(v@, named_pred(*dom, q)) == find_first(v@.skip(i as int), named_pred(*dom, q)),
        decreases v@.len() - i,
    {
        proof {
            assert(v@.skip(i as int).drop_first() =~= v@.skip(i + 1));
            assert(v@.skip(i as int)[0] == v@[i as int]);
        }
        if dom.is(v[i], q) {
            return Some(v[i]);
        }
        i = i + 1;
    }
    None
}

fn find_local(dom: &Dom, v: &Vec<NodeId>, l: LocalName) -> (r: Option<NodeId>)
    ensures
        r == find_first(v@, local_pred(*dom, l)),
{
    let mut i: usize = 0;
    assert(v@.skip(0) =~= v@);
    while i < v.len()
        invariant
            i <= v@.len(),
            find_first(v@, local_pred(*dom, l)) == find_first(v@.skip(i as int), local_pred(*dom, l)),
        decreases v@.len() - i,
    {
        proof {
            assert(v@.skip(i as int).drop_first() =~= v@.skip(i + 1));
            assert(v@.skip(i as int)[0] == v@[i as int]);
        }
        let hit = match dom.name(v[i]) {
            Some(q) => q.local == l,
            None => false,
        };
        if hit {
            return Some(v[i]);
        }
        i = i + 1;
    }
    None
}

fn attrs_nonempty(dom: &Dom, x: NodeId) -> (r: bool)
    ensures
        r == has_attrs(*dom, x),
{
    match dom.element(x) {
        Some(e) => e.attrs.len() > 0,
        None => false,
    }
}

fn find_fill(dom: &Dom, v: &Vec<NodeId>) -> (r: Option<NodeId>)
    ensures
        r == find_first(v@, fill_pred(*dom)),
{
    let mut i: usize = 0;
    assert(v@.skip(0) =~= v@);
    while i < v.len()
        invariant
            i <= v@.len(),
            find_first(v@, fill_pred(*dom)) == find_first(v@.skip(i as int), fill_pred(*dom)),
        decreases v@.len() - i,
    {
        proof {
            assert(v@.skip(i as int).drop_first() =~= v@.skip(i + 1));
            assert(v@.skip(i as int)[0] == v@[i as int]);
        }
        if dom.is(v[i], QName::new(NsId::A, LocalName::FillRect)) && attrs_nonempty(dom, v[i]) {
            return Some(v[i]);
        }
        i = i + 1;
    }
    None
}

/// The live children of `x` that are SVG extensions.
fn svg_exts(dom: &Dom, kids: &Vec<NodeId>) -> (r: Vec<NodeId>)
    requires
        dom.wf(),
        forall|i: int| 0 <= i < kids@.len() ==> dom.has(#[trigger] kids@[i]),
    ensures
        r@ == select(kids@, svg_ext_pred(*dom)),
{
    let mut out: Vec<NodeId> = Vec::new();
    for i in 0..kids.len()
        invariant
            dom.wf(),
            forall|j: int| 0 <= j < kids@.len() ==> dom.has(#[trigger] kids@[j]),
            out@ == select(kids@.take(i as int), svg_ext_pred(*dom)),
    {
        let e = kids[i];
        proof {
            assert(kids@.take(i + 1).drop_last() =~= kids@.take(i as int));
            assert(kids@.take(i + 1).last() == e);
        }
        if dom.is(e, QName::new(NsId::A, LocalName::Ext)) {
            let desc = dom.descendants(e);
            if find_local(dom, &desc, LocalName::SvgBlip).is_some() {
                out.push(e);
            }
        }
    }
    proof {
        assert(kids@.take(kids@.len() as int) =~= kids@);
    }
    out
}

fn every_in(kids: &Vec<NodeId>, s: &Vec<NodeId>) -> (r: bool)
    ensures
        r == all_in(kids@, s@),
{
    for j in 0..kids.len()
        invariant
            forall|k: int| 0 <= k < j ==> s@.contains(#[trigger] kids@[k]),
    {
        if !contains_node(s, kids[j]) {
            return false;
        }
    }
    true
}

/// The first live `a:blip` under `drawing`.
pub fn find_blip(dom: &Dom, drawing: NodeId) -> (r: Option<NodeId>)
    requires
        dom.wf(),
        dom.has(drawing),
    ensures
        r == blip_of(*dom, drawing),
        r matches Some(b) ==> dom.has(b),
{
    let desc = dom.descendants(drawing);
    let r = find_named(dom, &desc, QName::new(NsId::A, LocalName::Blip));
    proof {
        lemma_find_first_in(desc@, named_pred(*dom, aq(LocalName::Blip)));
    }
    r
}

/// What `find_first` finds is an entry of the sequence.
pub proof fn lemma_find_first_in(s: Seq<NodeId>, p: spec_fn(NodeId) -> bool)
    ensures
        find_first(s, p) matches Some(x) ==> s.contains(x) && p(x),
    decreases s.len(),
{
    if s.len() > 0 && !p(s[0]) {
        lemma_find_first_in(s.drop_first(), p);
        if let Some(x) = find_first(s.drop_first(), p) {
            let k = choose|k: int| 0 <= k < s.drop_first().len() && s.drop_first()[k] == x;
            assert(s[k + 1] == x);
        }
    }
}

/// A node among the live children of `n` is live.
pub proof fn lemma_live_child(d: Dom, n: NodeId, c: NodeId)
    requires
        d.spec_live_children(n).contains(c),
    ensures
        d.live(c),
{
    let j = choose|j: int| 0 <= j < d.spec_live_children(n).len() && d.spec_live_children(n)[j] == c;
    d.kids(n).lemma_filter_pred(|x: NodeId| d.live(x), j);
}

/// A node among the descendants of `n` is live.
pub proof fn lemma_live_descendant(d: Dom, n: NodeId, c: NodeId)
    requires
        d.spec_descendants(n).contains(c),
    ensures
        d.live(c),
{
    d.lemma_descendants_live(n);
    let j = choose|j: int| 0 <= j < d.spec_descendants(n).len() && d.spec_descendants(n)[j] == c;
    assert(d.live(d.spec_descendants(n)[j]));
}

/// The picture swap plan passes the plan check: it only touches the live blip and live
/// nodes found under the drawing or the blip.
proof fn lemma_swap_plan_valid(d: Dom, drawing: NodeId, blip: NodeId, edits: Seq<NodeEdit>)
    requires
        d.wf(),
        blip_of(d, drawing) == Some(blip),
        edits.len() >= 1,
        edits[0] matches NodeEdit::SetAttr { node, .. } && node == Target::Node(blip),
        edits.drop_first() == swap_tail(d, drawing, blip),
    ensures
        crate::edit::plan_valid(d, edits),
{
    let desc = d.spec_descendants(drawing);
    lemma_find_first_in(desc, named_pred(d, aq(LocalName::Blip)));
    lemma_live_descendant(d, drawing, blip);
    let l = link_edits(d, blip);
    let sr = src_edits(d, drawing);
    let f = fill_edits(d, drawing);
    let x = ext_edits(d, blip);
    let t = swap_tail(d, drawing, blip);
    lemma_find_first_in(desc, named_pred(d, aq(LocalName::SrcRect)));
    if let Some(sn) = find_first(desc, named_pred(d, aq(LocalName::SrcRect))) {
        lemma_live_descendant(d, drawing, sn);
    }
    lemma_find_first_in(desc, fill_pred(d));
    if let Some(fnode) = find_first(desc, fill_pred(d)) {
        lemma_live_descendant(d, drawing, fnode);
    }
    let lc = d.spec_live_children(blip);
    lemma_find_first_in(lc, named_pred(d, aq(LocalName::ExtLst)));
    if let Some(xl) = find_first(lc, named_pred(d, aq(LocalName::ExtLst))) {
        lemma_live_child(d, blip, xl);
        crate::drawing::lemma_select_in(d.spec_live_children(xl), svg_ext_pred(d));
    }
    assert(t == l + sr + f + x);
    assert(edits.len() == t.len() + 1);
    assert forall|i: int| 0 <= i < edits.len() implies crate::edit::edit_ok(d, edits, i) by {
        if i > 0 {
            let j = i - 1;
            assert(edits[i] == t[j]);
            if j < l.len() {
                assert(t[j] == l[j]);
            } else if j < l.len() + sr.len() {
                assert(t[j] == sr[j - l.len()]);
            } else if j < l.len() + sr.len() + f.len() {
                assert(t[j] == f[j - l.len() - sr.len()]);
                let fnode = find_first(desc, fill_pred(d))->0;
                let k = j - l.len() - sr.len();
                let a = drop_attr(d, fnode, LocalName::L);
                let b = drop_attr(d, fnode, LocalName::T);
                let c = drop_attr(d, fnode, LocalName::R);
                let e = drop_attr(d, fnode, LocalName::B);
                assert(f == a + b + c + e);
                if k < a.len() {
                    assert(f[k] == a[k]);
                } else if k < a.len() + b.len() {
                    assert(f[k] == b[k - a.len()]);
                } else if k < a.len() + b.len() + c.len() {
                    assert(f[k] == c[k - a.len() - b.len()]);
                } else {
                    assert(f[k] == e[k - a.len() - b.len() - c.len()]);
                }
            } else {
                let k = j - l.len() - sr.len() - f.len();
                assert(0 <= k < x.len());
                assert(t[j] == x[k]);
                assert(find_first(lc, named_pred(d, aq(LocalName::ExtLst))) is Some);
                let xl = find_first(lc, named_pred(d, aq(LocalName::ExtLst)))->0;
                let svg = select(d.spec_live_children(xl), svg_ext_pred(d));
                let dels = svg.map_values(|e: NodeId| NodeEdit::Delete(e));
                if k < dels.len() {
                    assert(x[k] == dels[k]);
                    assert(dels[k] == NodeEdit::Delete(svg[k]));
                    lemma_live_child(d, xl, svg[k]);
                } else {
                    let tail = if all_in(d.spec_live_children(xl), svg) { seq![NodeEdit::Delete(xl)] } else { seq![] };
                    assert(x == dels + tail);
                    assert(x[k] == tail[k - dels.len()]);
                    assert(x[k] == NodeEdit::Delete(xl));
                }
            }
        }
    }
}

/// `b` differs from `a` at most in its edits.
pub open spec fn same_but_edits(a: MutationPlan, b: MutationPlan) -> bool {
    &&& b.part == a.part
    &&& b.affected_blocks@ == a.affected_blocks@
    &&& b.structure_changed == a.structure_changed
    &&& b.diagnostics@ == a.diagnostics@
    &&& b.offset_delta@ == a.offset_delta@
    &&& b.span.rewraps@ == a.span.rewraps@
}

fn push_drop_attr(plan: &mut MutationPlan, dom: &Dom, n: NodeId, l: LocalName)
    ensures
        final(plan).node_edits@ == old(plan).node_edits@ + drop_attr(*dom, n, l),
        same_but_edits(*old(plan), *final(plan)),
{
    let q = QName::new(NsId::NoNamespace, l);
    if dom.attr(n, q).is_some() {
        plan.push(NodeEdit::RemoveAttr { node: Target::Node(n), name: q });
    }
    assert(final(plan).node_edits@ =~= old(plan).node_edits@ + drop_attr(*dom, n, l));
}

fn push_link(plan: &mut MutationPlan, dom: &Dom, blip: NodeId)
    ensures
        final(plan).node_edits@ == old(plan).node_edits@ + link_edits(*dom, blip),
        same_but_edits(*old(plan), *final(plan)),
{
    let r_link = QName::new(NsId::R, LocalName::Link);
    if dom.attr(blip, r_link).is_some() {
        plan.push(NodeEdit::RemoveAttr { node: Target::Node(blip), name: r_link });
    }
    assert(final(plan).node_edits@ =~= old(plan).node_edits@ + link_edits(*dom, blip));
}

fn push_src_and_fill(plan: &mut MutationPlan, dom: &Dom, drawing: NodeId)
    requires
        dom.wf(),
        dom.has(drawing),
    ensures
        final(plan).node_edits@ == old(plan).node_edits@ + src_edits(*dom, drawing) + fill_edits(*dom, drawing),
        same_but_edits(*old(plan), *final(plan)),
{
    let desc = dom.descendants(drawing);
    if let Some(src) = find_named(dom, &desc, QName::new(NsId::A, LocalName::SrcRect)) {
        plan.push(NodeEdit::Delete(src));
    }
    assert(plan.node_edits@ =~= old(plan).node_edits@ + src_edits(*dom, drawing));
    let ghost mid = plan.node_edits@;
    if let Some(fill) = find_fill(dom, &desc) {
        push_drop_attr(plan, dom, fill, LocalName::L);
        push_drop_attr(plan, dom, fill, LocalName::T);
        push_drop_attr(plan, dom, fill, LocalName::R);
        push_drop_attr(plan, dom, fill, LocalName::B);
    }
    assert(plan.node_edits@ =~= mid + fill_edits(*dom, drawing));
}

fn push_ext(plan: &mut MutationPlan, dom: &Dom, blip: NodeId)
    requires
        dom.wf(),
        dom.has(blip),
    ensures
        final(plan).node_edits@ == old(plan).node_edits@ + ext_edits(*dom, blip),
        same_but_edits(*old(plan), *final(plan)),
{
    let kids = dom.live_children(blip);
    if let Some(ext_lst) = find_named(dom, &kids, QName::new(NsId::A, LocalName::ExtLst)) {
        proof {
            lemma_find_first_in(kids@, named_pred(*dom, aq(LocalName::ExtLst)));
            dom.lemma_live_children_have(blip);
        }
        let ext_kids = dom.live_children(ext_lst);
        proof {
            dom.lemma_live_children_have(ext_lst);
        }
        let svg = svg_exts(dom, &ext_kids);
        let ghost before = plan.node_edits@;
        for j in 0..svg.len()
            invariant
                plan.node_edits@ == before + svg@.take(j as int).map_values(|e: NodeId| NodeEdit::Delete(e)),
                same_but_edits(*old(plan), *plan),
        {
            plan.push(NodeEdit::Delete(svg[j]));
            proof {
                assert(plan.node_edits@ =~= before + svg@.take(j + 1).map_values(|e: NodeId| NodeEdit::Delete(e)));
            }
        }
        proof {
            assert(svg@.take(svg@.len() as int) =~= svg@);
        }
        let ghost mid = plan.node_edits@;
        if every_in(&ext_kids, &svg) {
            plan.push(NodeEdit::Delete(ext_lst));
        }
        assert(plan.node_edits@ =~= old(plan).node_edits@ + ext_edits(*dom, blip));
    } else {
        assert(plan.node_edits@ =~= old(plan).node_edits@ + ext_edits(*dom, blip));
    }
}

/// The plan that points `blip` (under `drawing`) at the media relationship `rid`: the new
/// `r:embed`, then the removal of the old link, crop window, fill window and SVG extension
/// (see [`swap_tail`]); the paragraph holding the drawing is refreshed.
pub fn image_swap_plan(dom: &Dom, part: PartId, drawing: NodeId, blip: NodeId, rid: String) -> (p: MutationPlan)
    requires
        dom.wf(),
        dom.has(drawing),
        dom.has(blip),
    ensures
        p.part == part,
        p.node_edits@.len() >= 1,
        p.node_edits@[0] matches NodeEdit::SetAttr { node, name, value } && node == Target::Node(blip)
            && name == rq(LocalName::Embed) && value@ == rid@,
        p.node_edits@.drop_first() == swap_tail(*dom, drawing, blip),
        p.affected_blocks@ == host_paragraph(*dom, drawing),
        !p.structure_changed,
        p.diagnostics@.len() == 0,
        p.offset_delta@.len() == 0,
        p.span.rewraps@.len() == 0,
{
    let mut plan = MutationPlan::new(part);
    plan.push(NodeEdit::SetAttr { node: Target::Node(blip), name: QName::new(NsId::R, LocalName::Embed), value: rid });
    let ghost first = plan.node_edits@;
    push_link(&mut plan, dom, blip);
    push_src_and_fill(&mut plan, dom, drawing);
    push_ext(&mut plan, dom, blip);
    assert(plan.node_edits@ =~= first + swap_tail(*dom, drawing, blip));
    assert(plan.node_edits@.drop_first() =~= swap_tail(*dom, drawing, blip));
    if let Some(para) = dom.closest_named(drawing, QName::w(LocalName::P)) {
        plan.touch(para);
    }
    assert(plan.affected_blocks@ =~= host_paragraph(*dom, drawing));
    plan
}


/// A `w:drawing` or a `w:pict`.
pub open spec fn drawing_pred(dom: Dom) -> spec_fn(NodeId) -> bool {
    |x: NodeId| dom.named(x, wn(LocalName::Drawing)) || dom.named(x, wn(LocalName::Pict))
}

/// The first of `clone` and its live descendants that is a `w:drawing` or `w:pict`.
fn drawing_in(dom: &Dom, clone: NodeId) -> (r: NodeId)
    requires
        dom.wf(),
        dom.has(clone),
    ensures
        dom.has(r),
        r == match find_first(seq![clone] + dom.spec_descendants(clone), drawing_pred(*dom)) {
            Some(x) => x,
            None => clone,
        },
{
    let ghost all = seq![clone] + dom.spec_descendants(clone);
    if dom.is(clone, QName::w(LocalName::Drawing)) || dom.is(clone, QName::w(LocalName::Pict)) {
        return clone;
    }
    let desc = dom.descendants(clone);
    proof {
        assert(all.drop_first() =~= desc@);
        assert(!drawing_pred(*dom)(clone));
        assert(all[0] == clone);
        assert(find_first(all, drawing_pred(*dom)) == find_first(desc@, drawing_pred(*dom)));
        assert(desc@.skip(0) =~= desc@);
    }
    for i in 0..desc.len()
        invariant
            forall|j: int| 0 <= j < desc@.len() ==> dom.has(#[trigger] desc@[j]),
            all == seq![clone] + desc@,
            desc@ == dom.spec_descendants(clone),
            find_first(all, drawing_pred(*dom)) == find_first(desc@.skip(i as int), drawing_pred(*dom)),
    {
        proof {
            assert(desc@.skip(i as int).drop_first() =~= desc@.skip(i + 1));
            assert(desc@.skip(i as int)[0] == desc@[i as int]);
        }
        if dom.is(desc[i], QName::w(LocalName::Drawing)) || dom.is(desc[i], QName::w(LocalName::Pict)) {
            proof {
                assert(drawing_pred(*dom)(desc@[i as int]));
            }
            return desc[i];
        }
    }
    clone
}

/// `d1` is `dm` with the swap plan of `drawing` applied, for some tree `dm` whose first
/// `a:blip` under `drawing` is then pointed at `rid` (see [`image_swap_plan`]).
pub open spec fn swap_applied(d1: Dom, drawing: NodeId, rid: Seq<char>, created: Seq<Option<NodeId>>) -> bool {
    exists|dm: Dom, edits: Seq<NodeEdit>| #![trigger crate::edit::applied(dm, edits, created, d1)]
        blip_of(dm, drawing) is Some && edits.len() >= 1
        && (edits[0] matches NodeEdit::SetAttr { node, name, value } && node == Target::Node(blip_of(dm, drawing)->0)
            && name == rq(LocalName::Embed) && value@ == rid)
        && edits.drop_first() == swap_tail(dm, drawing, blip_of(dm, drawing)->0)
        && crate::edit::applied(dm, edits, created, d1)
}

/// The main part of `pkg` has an `image` relationship `rid` to a part holding `bytes`.
pub open spec fn image_rel_in(pkg: crate::package::Package, rid: Seq<char>, bytes: Seq<u8>) -> bool {
    exists|k: int| 0 <= k < pkg.at(pkg.main).rels@.len() && (#[trigger] pkg.at(pkg.main).rels@[k]).id@ == rid
        && pkg.at(pkg.main).rels@[k].kind == crate::package::RelType::Image
        && (pkg.at(pkg.main).rels@[k].target matches crate::package::RelTarget::Internal(t)
        && exists|id: PartId| pkg.has(id) && #[trigger] pkg.at(id).uri@ == t@ && pkg.at(id).bytes@ == bytes)
}

/// The media relationship `rid` for `bytes` of type `mime`: one the session made for equal
/// contents before, or a new `image` relationship of the main part to a part holding them.
pub open spec fn media_rid(old_media: Seq<(Seq<char>, Seq<u8>, Seq<char>)>, pkg: crate::package::Package, mime: Seq<char>,
    bytes: Seq<u8>, rid: Seq<char>) -> bool {
    match crate::session::media_hit(old_media, mime, bytes, 0) {
        Some(r) => r == rid,
        None => image_rel_in(pkg, rid, bytes),
    }
}

/// The drawing `drawing_in` finds in a clone: the first of `clone` and its live descendants
/// that is a `w:drawing` or `w:pict` (else `clone`).
pub open spec fn cloned_drawing(dom: Dom, clone: NodeId) -> NodeId {
    match find_first(seq![clone] + dom.spec_descendants(clone), drawing_pred(dom)) {
        Some(x) => x,
        None => clone,
    }
}

/// The revision edits of a tracked picture swap of the run `run` (a child of `parent`): a new
/// `w:ins` goes in after the run (before its next live element sibling) and receives a copy
/// of the run; a new `w:del` goes in where the run is, and the run moves into it.
pub open spec fn tracked_swap_edits(dom: Dom, run: NodeId, parent: NodeId, edits: Seq<NodeEdit>) -> bool {
    &&& edits.len() == 4
    &&& edits[0] matches NodeEdit::Insert { parent: p, before, node: m } && p == Target::Node(parent)
        && before == dom.spec_next_sibling(run, true) && m.name == wn(LocalName::Ins) && m.children@.len() == 0
    &&& edits[1] == (NodeEdit::InsertClone { parent: Target::New(0), before: None, source: run })
    &&& edits[2] matches NodeEdit::Insert { parent: p, before, node: m } && p == Target::Node(parent)
        && before == Some(run) && m.name == wn(LocalName::Del) && m.children@.len() == 0
    &&& edits[3] == (NodeEdit::Move { node: run, parent: Target::New(2), before: None })
}

/// The media part of a picture swap can be made ([`crate::session::media_addable`]) through a
/// `.rels` part and a content types part other than the main part, so that the main tree
/// stays as it is.
pub open spec fn swap_media_ok(pkg: crate::package::Package, mime: Seq<char>) -> bool {
    &&& crate::session::media_addable(pkg, mime)
    &&& pkg.at(pkg.main).rels_part matches Some(rp) && rp != pkg.main
    &&& pkg.content_types != Some(pkg.main)
}

/// What `replace_image_media` promises: `s0` is the session before, `s1` after, `r` the result.
pub open spec fn image_media_done(s0: EditSession, s1: EditSession, drawing: NodeId, bytes: Seq<u8>, mime: Seq<char>, ctx: EditContext, r: Result<MutationResult, Error>) -> bool {
    &&& (s1.spec_pkg().wf())
    &&& (r is Ok ==> s1.wf())
    &&& (s0.spec_pkg().at(s0.spec_pkg().main).dom matches Some(d) && {
                &&& !d.has(drawing) ==> (r matches Err(e) && e.has_code(DiagCode::EditBadPosition) && s1 == s0)
                &&& d.has(drawing) && ctx.track_changes is Some && d.spec_up_named(drawing, wn(LocalName::R), d.len()) is None
                    ==> (r matches Err(e) && e.has_code(DiagCode::EditBadPosition) && s1 == s0)
                &&& d.has(drawing) && ctx.track_changes is Some && (d.spec_up_named(drawing, wn(LocalName::R), d.len())
                    matches Some(run) && d.at(run).parent is None)
                    ==> (r matches Err(e) && e.has_code(DiagCode::EditBadPosition) && s1 == s0)
                &&& d.has(drawing) && ctx.track_changes is None && blip_of(d, drawing) is None
                    ==> (r matches Ok(res) && res.created@.len() == 0 && res.affected_blocks@.len() == 0
                    && !res.structure_changed && res.diagnostics@.len() == 0 && res.offset_delta@.len() == 0
                    && s1.spec_pkg().parts == s0.spec_pkg().parts
                    && s1.spec_pkg().main == s0.spec_pkg().main
                    && s1.spec_pkg().content_types == s0.spec_pkg().content_types
                    && s1.spec_doc() == s0.spec_doc()
                    && s1.spec_media() == s0.spec_media()
                    && s1.spec_diags().len() == s0.spec_diags().len() + 1
                    && s1.spec_diags().drop_last() == s0.spec_diags()
                    && s1.spec_diags().last().code == DiagCode::EditUnsupported)
                &&& d.has(drawing) && ctx.track_changes is Some ==> (d.spec_up_named(drawing, wn(LocalName::R), d.len())
                    matches Some(run) ==> (d.at(run).parent matches Some(parent) ==> (r matches Ok(res) ==> s1.spec_pkg().at(s1.spec_pkg().main).dom matches Some(d1)
                    && exists|dm: Dom, edits: Seq<NodeEdit>, created: Seq<Option<NodeId>>|
                        #![trigger crate::edit::applied(d, edits, created, dm)]
                        tracked_swap_edits(d, run, parent, edits) && crate::edit::applied(d, edits, created, dm)
                        && created.len() == 4 && (created[1] matches Some(c) && (blip_of(dm, cloned_drawing(dm, c)) is Some
                            ==> exists|rid: Seq<char>, c2: Seq<Option<NodeId>>| #![trigger swap_applied(d1, cloned_drawing(dm, c), rid, c2)]
                            swap_applied(d1, cloned_drawing(dm, c), rid, c2))))))
                &&& d.has(drawing) && ctx.track_changes is None && blip_of(d, drawing) is Some
                    && crate::session::media_hit(s0.spec_media(), mime, bytes, 0) is Some
                    ==> (r is Ok <==> crate::document::projectable(s1.spec_pkg()))
                &&& d.has(drawing) && ctx.track_changes is None && blip_of(d, drawing) is Some
                    && crate::session::media_hit(s0.spec_media(), mime, bytes, 0) is None
                    && swap_media_ok(s0.spec_pkg(), mime) && crate::session::rels_room(s1.spec_pkg(), s0.spec_pkg().main)
                    ==> (r is Ok <==> crate::document::projectable(s1.spec_pkg()))
                &&& d.has(drawing) && ctx.track_changes is None && blip_of(d, drawing) is Some
                    ==> (r matches Ok(res) ==> s1.spec_pkg().at(s1.spec_pkg().main).dom matches Some(d1)
                    && exists|rid: Seq<char>| #![trigger swap_applied(d1, drawing, rid, res.created@)]
                        media_rid(s0.spec_media(), s1.spec_pkg(), mime, bytes, rid)
                        && swap_applied(d1, drawing, rid, res.created@))
            })
}

impl EditSession {
    /// The picture swap proper, without revisions: the first live `a:blip` under `drawing`
    /// points at the media part made from `bytes` (see [`image_swap_plan`] for the rest of
    /// the edit). Without a blip nothing changes and an `EditUnsupported` diagnostic is
    /// recorded.
    fn swap_image(&mut self, drawing: NodeId, bytes: Vec<u8>, mime: &str) -> (r: Result<MutationResult, Error>)
        requires
            old(self).wf(),
            old(self).spec_pkg().parts@.len() + 16 < u32::MAX,
            (old(self).spec_pkg().at(old(self).spec_pkg().main).dom matches Some(d) && d.has(drawing)),
        ensures
            final(self).spec_pkg().wf(),
            r is Ok ==> final(self).wf(),
            old(self).spec_pkg().at(old(self).spec_pkg().main).dom matches Some(d) && blip_of(d, drawing) is None
                ==> (r matches Ok(res) && res.created@.len() == 0 && res.affected_blocks@.len() == 0
                && !res.structure_changed && res.diagnostics@.len() == 0 && res.offset_delta@.len() == 0
                && final(self).spec_pkg().parts == old(self).spec_pkg().parts
                && final(self).spec_pkg().main == old(self).spec_pkg().main
                && final(self).spec_pkg().content_types == old(self).spec_pkg().content_types
                && final(self).spec_doc() == old(self).spec_doc()
                && final(self).spec_media() == old(self).spec_media()
                && final(self).spec_diags().len() == old(self).spec_diags().len() + 1
                && final(self).spec_diags().drop_last() == old(self).spec_diags()
                && final(self).spec_diags().last().code == DiagCode::EditUnsupported
                && final(self).spec_diags().last().part == old(self).spec_pkg().main),
            old(self).spec_pkg().at(old(self).spec_pkg().main).dom matches Some(d) && blip_of(d, drawing) is Some
                && crate::session::media_hit(old(self).spec_media(), mime@, bytes@, 0) is Some
                ==> (r is Ok <==> crate::document::projectable(final(self).spec_pkg())),
            old(self).spec_pkg().at(old(self).spec_pkg().main).dom matches Some(d) && blip_of(d, drawing) is Some
                && crate::session::media_hit(old(self).spec_media(), mime@, bytes@, 0) is None
                && swap_media_ok(old(self).spec_pkg(), mime@)
                && crate::session::rels_room(final(self).spec_pkg(), old(self).spec_pkg().main)
                ==> (r is Ok <==> crate::document::projectable(final(self).spec_pkg())),
            old(self).spec_pkg().at(old(self).spec_pkg().main).dom matches Some(d) && blip_of(d, drawing) is Some
                ==> (r matches Ok(res) ==> final(self).spec_pkg().at(final(self).spec_pkg().main).dom matches Some(d1)
                && exists|rid: Seq<char>| #![trigger swap_applied(d1, drawing, rid, res.created@)]
                    media_rid(old(self).spec_media(), final(self).spec_pkg(), mime@, bytes@, rid)
                    && swap_applied(d1, drawing, rid, res.created@)),
    {
        let main = self.main_part();
        let dom = self.dom();
        match find_blip(dom, drawing) {
            None => {
                let d = Diagnostic::pre_existing(main, None, DiagCode::EditUnsupported,
                    text("replaceImage 的目标里没有 a:blip，图片未替换"));
                self.push_diagnostic(d);
                Ok(MutationResult::empty())
            },
            Some(_) => {
                let ghost bytes0 = bytes@;
                let rid = self.add_media(bytes, mime)?;
                let ghost pm = self.spec_pkg();
                proof {
                    let p0 = old(self).spec_pkg();
                    if crate::session::media_hit(old(self).spec_media(), mime@, bytes0, 0) is None && swap_media_ok(p0, mime@) {
                        assert(pm.parts@[p0.main.0 as int].dom == p0.parts@[p0.main.0 as int].dom);
                    }
                }
                let dom = self.dom();
                if (drawing.0 as usize) >= dom.node_count() {
                    return Err(Error::edit(DiagCode::EditBadPosition, text("replaceImage 的目标节点不存在")));
                }
                let blip = match find_blip(dom, drawing) {
                    Some(b) => b,
                    None => {
                        return Err(Error::edit(DiagCode::EditBadPosition, text("replaceImage 的目标里没有 a:blip")));
                    },
                };
                let ghost dm = *dom;
                let ghost rv = rid@;
                let plan = image_swap_plan(dom, main, drawing, blip, rid);
                let ghost edits = plan.node_edits@;
                proof {
                    lemma_swap_plan_valid(dm, drawing, blip, edits);
                }
                let r = self.commit_plan(plan);
                proof {
                    let p0 = old(self).spec_pkg();
                    if let Some(rp) = p0.at(p0.main).rels_part {
                        if rp != p0.main {
                            assert(pm.at(pm.main).rels_part == Some(rp));
                            assert((rp.0 as int) < pm.parts@.len());
                            assert(self.spec_pkg().parts@[rp.0 as int] == pm.parts@[rp.0 as int]);
                        }
                    }
                    if r is Ok {
                        let d1 = self.spec_pkg().at(self.spec_pkg().main).dom->0;
                        assert(crate::edit::applied(dm, edits, r->Ok_0.created@, d1));
                        assert(swap_applied(d1, drawing, rv, r->Ok_0.created@));
                        if crate::session::media_hit(old(self).spec_media(), mime@, bytes0, 0) is None {
                            let rels = pm.at(pm.main).rels@;
                            assert(self.spec_pkg().at(self.spec_pkg().main).rels@ == rels);
                            assert(rels[rels.len() - 1] == rels.last());
                            let t = rels.last().target->Internal_0;
                            assert(exists|id: PartId| pm.has(id) && #[trigger] pm.at(id).uri@ == t@ && pm.at(id).bytes@ == bytes0);
                            let id = choose|id: PartId| pm.has(id) && #[trigger] pm.at(id).uri@ == t@ && pm.at(id).bytes@ == bytes0;
                            let fp = self.spec_pkg();
                            if id.0 != fp.main.0 {
                                assert(fp.parts@[id.0 as int] == pm.parts@[id.0 as int]);
                            }
                            assert(fp.has(id) && fp.at(id).uri@ == t@ && fp.at(id).bytes@ == bytes0);
                            assert(fp.at(fp.main).rels@[rels.len() - 1].id@ == rv);
                            assert(image_rel_in(self.spec_pkg(), rv, bytes0));
                        }
                        assert(media_rid(old(self).spec_media(), self.spec_pkg(), mime@, bytes0, rv));
                    }
                }
                r
            },
        }
    }

    /// Replaces the picture of `drawing` with `bytes` (of type `mime`): the first `a:blip`
    /// under it embeds the new media part (an `r:link` is dropped), the first `a:srcRect` is
    /// deleted, the first `a:fillRect` with attributes is cleared of `l`/`t`/`r`/`b` (the
    /// attributes its schema gives it),
    /// and SVG extensions of the blip are deleted (with their `a:extLst` when nothing else is
    /// in it). A drawing without `a:blip` is left alone with an `EditUnsupported`
    /// diagnostic. When `ctx` tracks changes, the run holding the drawing goes into a
    /// `w:del`, a copy of it goes into a `w:ins` right after, and the copy gets the new
    /// picture.
    pub fn replace_image_media(&mut self, drawing: NodeId, bytes: Vec<u8>, mime: &str, ctx: &EditContext)
        -> (r: Result<MutationResult, Error>)
        requires
            old(self).wf(),
            old(self).spec_pkg().parts@.len() + 16 < u32::MAX,
        ensures
            image_media_done(*old(self), *final(self), drawing, bytes@, mime@, *ctx, r),
    {
        let main = self.main_part();
        let dom = self.dom();
        if (drawing.0 as usize) >= dom.node_count() {
            return Err(Error::edit(DiagCode::EditBadPosition, text("replaceImage 的目标节点不存在")));
        }
        let tracker = Tracker::new(package_max_revision_id(self.package()), ctx);
        let mut t = match tracker {
            Some(t) => t,
            None => {
                return self.swap_image(drawing, bytes, mime);
            },
        };
        let run = match dom.closest_named(drawing, QName::w(LocalName::R)) {
            Some(x) => x,
            None => {
                return Err(Error::edit(DiagCode::EditBadPosition, text("replaceImage 的目标不在 run 里")));
            },
        };
        let parent = match dom.parent(run) {
            Some(p) => p,
            None => {
                return Err(Error::edit(DiagCode::EditBadPosition, text("run 没有父节点")));
            },
        };
        let ghost d0 = *dom;
        let mut plan = MutationPlan::new(main);
        if let Some(p) = dom.closest_named(run, QName::w(LocalName::P)) {
            plan.touch(p);
        }
        let ins_k = plan.node_edits.len();
        let before = dom.next_live_element_sibling(run);
        let m = t.marker(LocalName::Ins);
        plan.push(NodeEdit::Insert { parent: Target::Node(parent), before, node: m });
        let clone_k = plan.node_edits.len();
        plan.push(NodeEdit::InsertClone { parent: Target::New(ins_k), before: None, source: run });
        let ghost e2 = plan.node_edits@;
        t.wrap_item(&mut plan, dom, run, LocalName::Del);
        let ghost edits = plan.node_edits@;
        proof {
            assert(ins_k == 0 && clone_k == 1);
            assert(e2.len() == 2);
            assert(edits.subrange(0, 2) == e2);
            assert(edits[0] == e2[0]);
            assert(edits[1] == e2[1]);
            assert(tracked_swap_edits(d0, run, parent, edits));
        }
        let mut result = self.commit_plan(plan)?;
        let ghost created = result.created@;
        let ghost dm = self.spec_pkg().at(self.spec_pkg().main).dom->0;
        let clone = match result.created[clone_k] {
            Some(c) => c,
            None => {
                return Err(Error::edit(DiagCode::EditPlanInvalid, text("克隆的 run 没有创建出来")));
            },
        };
        let dom = self.dom();
        let target = drawing_in(dom, clone);
        let later = self.swap_image(target, bytes, mime)?;
        proof {
            assert(crate::edit::applied(d0, edits, created, dm));
            let d1 = self.spec_pkg().at(self.spec_pkg().main).dom->0;
            if blip_of(dm, cloned_drawing(dm, clone)) is Some {
                let rid = choose|rid: Seq<char>| #![trigger swap_applied(d1, target, rid, later.created@)]
                    media_rid(old(self).spec_media(), self.spec_pkg(), mime@, bytes@, rid)
                    && swap_applied(d1, target, rid, later.created@);
                assert(swap_applied(d1, cloned_drawing(dm, clone), rid, later.created@));
            }
        }
        result.absorb(later);
        Ok(result)
    }
}

/// The value of a `wp:docPr` `id` (trimmed, a decimal `i64`).
pub open spec fn doc_pr_id(dom: Dom, n: NodeId) -> Option<int> {
    if dom.named(n, QName { ns: NsId::Wp, local: LocalName::DocPr }) {
        match dom.spec_attr(n, nq(LocalName::Id)) {
            Some(v) => crate::drawing::i64_value(crate::drawing::trim_spec(v)),
            None => None,
        }
    } else {
        None
    }
}

/// The largest `wp:docPr` id among `ns`, and 0 if that is more.
pub open spec fn max_doc_pr(dom: Dom, ns: Seq<NodeId>) -> int
    decreases ns.len(),
{
    if ns.len() == 0 {
        0
    } else {
        let m = max_doc_pr(dom, ns.drop_last());
        match doc_pr_id(dom, ns.last()) {
            Some(v) => if v > m { v } else { m },
            None => m,
        }
    }
}

/// The nodes of the tree that are not deleted and not under a deleted node, root first,
/// in document order.
pub open spec fn live_tree(dom: Dom) -> Seq<NodeId> {
    if dom.live(dom.root) {
        seq![dom.root] + dom.spec_descendants(dom.root)
    } else {
        seq![]
    }
}

impl EditSession {
    /// One more than the largest `wp:docPr` id in the tree (at least 1). Every branch of the
    /// markup is walked, whichever alternative a reader picks.
    pub fn media_ops_next_doc_pr_id(dom: &Dom) -> (r: i64)
        requires
            dom.wf(),
            max_doc_pr(*dom, live_tree(*dom)) < i64::MAX,
        ensures
            r == max_doc_pr(*dom, live_tree(*dom)) + 1,
    {
        let mut all: Vec<NodeId> = Vec::new();
        if dom.is_live(dom.root()) {
            all.push(dom.root());
            let mut rest = dom.descendants(dom.root());
            all.append(&mut rest);
        }
        proof {
            assert(all@ =~= live_tree(*dom));
        }
        let mut max: i64 = 0;
        for i in 0..all.len()
            invariant
                dom.wf(),
                all@ == live_tree(*dom),
                max == max_doc_pr(*dom, all@.take(i as int)),
                max_doc_pr(*dom, live_tree(*dom)) < i64::MAX,
        {
            proof {
                assert(all@.take(i + 1).drop_last() =~= all@.take(i as int));
                assert(all@.take(i + 1).last() == all@[i as int]);
            }
            let n = all[i];
            if dom.is(n, QName::new(NsId::Wp, LocalName::DocPr)) {
                if let Some(v) = dom.attr(n, QName::new(NsId::NoNamespace, LocalName::Id)) {
                    let cs = crate::drawing::trimmed_chars(v.as_str());
                    if let Some(id) = crate::drawing::parse_i64(&cs) {
                        if id > max {
                            max = id;
                        }
                    }
                }
            }
        }
        proof {
            assert(all@.take(all@.len() as int) =~= all@);
        }
        max + 1
    }
}

} // verus!
