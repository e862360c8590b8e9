use vstd::prelude::*;
use crate::dom::Dom;
use crate::drawing::child_named;
use crate::edit::{NodeEdit, Target};
use crate::ids::NodeId;
use crate::plan::{MutationPlan, contains_node};
use crate::tables::wn;
use crate::xml::{LocalName, NewElement, NsId, QName};
use crate::track::{Tracker, select, bump, is_marker};
use crate::emit::wq;
use crate::diag::{DiagCode, Error, text};
use crate::image::named_pred;
use crate::position::BlockAt;
use crate::track::{find_first, first_of};

verus! {

/// Property containers that go away once a revision leaves them empty.
pub open spec fn droppable(local: LocalName) -> bool {
    local == LocalName::RPr || local == LocalName::PPr || local == LocalName::TrPr || local == LocalName::TcPr
        || local == LocalName::TblPr || local == LocalName::TblPrEx || local == LocalName::NumPr
}

/// Does a property container go away once empty?
pub fn droppable_empty(local: LocalName) -> (r: bool)
    ensures
        r == droppable(local),
{
    match local {
        LocalName::RPr | LocalName::PPr | LocalName::TrPr | LocalName::TcPr | LocalName::TblPr | LocalName::TblPrEx
        | LocalName::NumPr => true,
        _ => false,
    }
}

/// The parent of `n`, when `n` is addressed.
pub open spec fn parent_of(dom: Dom, n: NodeId) -> Option<NodeId> {
    if dom.has(n) { dom.at(n).parent } else { None }
}

/// Every live child of `c` is in `gone`.
pub open spec fn emptied(dom: Dom, c: NodeId, gone: Seq<NodeId>) -> bool {
    forall|i: int| 0 <= i < dom.spec_live_children(c).len() ==> gone.contains(#[trigger] dom.spec_live_children(c)[i])
}

/// Going up from `cur` (at most `fuel` steps): the droppable containers of the main
/// namespace that hold nothing but what is already gone, until the first that does not.
pub open spec fn drop_chain(dom: Dom, cur: Option<NodeId>, gone: Seq<NodeId>, fuel: nat) -> Seq<NodeId>
    decreases fuel,
{
    if fuel == 0 {
        seq![]
    } else {
        match cur {
            None => seq![],
            Some(c) => if (dom.name_of(c) matches Some(q) && q.ns == NsId::W && droppable(q.local)) && dom.has(c) && emptied(dom, c, gone) {
                seq![c] + drop_chain(dom, parent_of(dom, c), gone.push(c), (fuel - 1) as nat)
            } else {
                seq![]
            },
        }
    }
}

fn all_gone(dom: &Dom, c: NodeId, gone: &Vec<NodeId>) -> (r: bool)
    requires
        dom.wf(),
        dom.has(c),
    ensures
        r == emptied(*dom, c, gone@),
{
    let kids = dom.live_children(c);
    for i in 0..kids.len()
        invariant
            kids@ == dom.spec_live_children(c),
            forall|j: int| 0 <= j < i ==> gone@.contains(#[trigger] kids@[j]),
    {
        if !contains_node(gone, kids[i]) {
            return false;
        }
    }
    true
}

/// After `marker` is deleted, deletes the property containers above it that it leaves
/// empty (see [`drop_chain`]), nearest first.
pub fn drop_empty_containers(plan: &mut MutationPlan, dom: &Dom, marker: NodeId)
    requires
        dom.wf(),
    ensures
        crate::image::same_but_edits(*old(plan), *final(plan)),
        final(plan).node_edits@ == old(plan).node_edits@
            + drop_chain(*dom, parent_of(*dom, marker), seq![marker], dom.len()).map_values(|c: NodeId| NodeEdit::Delete(c)),
{
    let mut gone: Vec<NodeId> = vec![marker];
    let mut cur = dom.parent(marker);
    let mut fuel: usize = dom.nodes.len();
    let ghost total = drop_chain(*dom, parent_of(*dom, marker), seq![marker], dom.len());
    let ghost done: Seq<NodeId> = seq![];
    assert(gone@ =~= seq![marker]);
    loop
        invariant
            dom.wf(),
            crate::image::same_but_edits(*old(plan), *plan),
            total == done + drop_chain(*dom, cur, gone@, fuel as nat),
            plan.node_edits@ == old(plan).node_edits@ + done.map_values(|c: NodeId| NodeEdit::Delete(c)),
            total == drop_chain(*dom, parent_of(*dom, marker), seq![marker], dom.len()),
        ensures
            total == done,
            plan.node_edits@ == old(plan).node_edits@ + done.map_values(|c: NodeId| NodeEdit::Delete(c)),
            crate::image::same_but_edits(*old(plan), *plan),
        decreases fuel,
    {
        if fuel == 0 {
            proof {
                assert(total =~= done);
            }
            break;
        }
        let c = match cur {
            Some(c) => c,
            None => {
                proof {
                    assert(total =~= done);
                }
                break;
            },
        };
        let ok = match dom.name(c) {
            Some(q) => q.ns == NsId::W && droppable_empty(q.local),
            None => false,
        };
        if !ok || (c.0 as usize) >= dom.nodes.len() || !all_gone(dom, c, &gone) {
            proof {
                assert(total =~= done);
            }
            break;
        }
        plan.push(NodeEdit::Delete(c));
        proof {
            assert(drop_chain(*dom, cur, gone@, fuel as nat) == seq![c] + drop_chain(*dom, parent_of(*dom, c), gone@.push(c), (fuel - 1) as nat));
            assert(done.push(c) + drop_chain(*dom, parent_of(*dom, c), gone@.push(c), (fuel - 1) as nat)
                =~= done + drop_chain(*dom, cur, gone@, fuel as nat));
            assert(plan.node_edits@ =~= old(plan).node_edits@ + done.push(c).map_values(|c: NodeId| NodeEdit::Delete(c)));
            done = done.push(c);
        }
        gone.push(c);
        cur = dom.parent(c);
        fuel = fuel - 1;
    }
}

/// A new empty `w:p` under `parent`; with `clone_ppr`, a copy of that paragraph's first live
/// `w:pPr` goes into it.
pub fn empty_paragraph(dom: &Dom, plan: &mut MutationPlan, parent: Target, clone_ppr: Option<NodeId>)
    requires
        dom.wf(),
        clone_ppr matches Some(p) ==> dom.has(p),
    ensures
        crate::image::same_but_edits(*old(plan), *final(plan)),
        ({
            let k = old(plan).node_edits@.len();
            let src = match clone_ppr {
                Some(p) => child_named(*dom, p, wn(LocalName::PPr)),
                None => None,
            };
            &&& final(plan).node_edits@.len() == k + (if src is Some { 2int } else { 1int })
            &&& final(plan).node_edits@.subrange(0, k as int) == old(plan).node_edits@
            &&& final(plan).node_edits@[k as int] matches NodeEdit::Insert { parent: t, before, node } && t == parent
                && before is None && node.name == wn(LocalName::P) && node.attrs@.len() == 0 && node.children@.len() == 0
            &&& (src matches Some(s) ==> final(plan).node_edits@[k + 1int] == (NodeEdit::InsertClone {
                parent: Target::New(k as usize),
                before: None,
                source: s,
            }))
        }),
{
    let k = plan.node_edits.len();
    plan.push(NodeEdit::Insert { parent, before: None, node: NewElement::new(QName::w(LocalName::P)) });
    let ghost first = plan.node_edits@;
    if let Some(p) = clone_ppr {
        if let Some(src) = crate::drawing::first_child_named(dom, p, QName::w(LocalName::PPr)) {
            plan.push(NodeEdit::InsertClone { parent: Target::New(k), before: None, source: src });
        }
    }
    proof {
        assert(plan.node_edits@[k as int] == first[k as int]);
        assert(plan.node_edits@.subrange(0, k as int) =~= old(plan).node_edits@);
    }
}


/// The last live element child of `c` other than `removed`.
pub open spec fn last_kept(dom: Dom, c: NodeId, removed: Option<NodeId>) -> Option<NodeId> {
    let kept = select(dom.kids(c), |x: NodeId| dom.live(x) && dom.is_element(x) && Some(x) != removed);
    if kept.len() > 0 { Some(kept.last()) } else { None }
}

/// A table cell must end with a paragraph: when `container` is a `w:tc` whose last live
/// element (other than `removed`) is not a `w:p`, an empty `w:p` is appended and the block
/// structure is marked changed.
pub fn keep_cell_paragraph(dom: &Dom, container: NodeId, removed: Option<NodeId>, plan: &mut MutationPlan)
    requires
        dom.wf(),
    ensures
        if !dom.named(container, wn(LocalName::Tc)) || (last_kept(*dom, container, removed) matches Some(n) && dom.named(n, wn(LocalName::P))) {
            *final(plan) == *old(plan)
        } else {
            &&& final(plan).structure_changed
            &&& final(plan).part == old(plan).part
            &&& final(plan).affected_blocks@ == old(plan).affected_blocks@
            &&& final(plan).diagnostics@ == old(plan).diagnostics@
            &&& final(plan).node_edits@.len() == old(plan).node_edits@.len() + 1
            &&& final(plan).node_edits@.drop_last() == old(plan).node_edits@
            &&& final(plan).node_edits@.last() matches NodeEdit::Insert { parent, before, node } && parent == Target::Node(container)
                && before is None && node.name == wn(LocalName::P) && node.attrs@.len() == 0 && node.children@.len() == 0
        },
{
    if !dom.is(container, QName::w(LocalName::Tc)) {
        return;
    }
    let kids = dom.children(container);
    let mut last: Option<NodeId> = None;
    for i in 0..kids.len()
        invariant
            kids@ == dom.kids(container),
            last == (if select(kids@.take(i as int), |x: NodeId| dom.live(x) && dom.is_element(x) && Some(x) != removed).len() > 0 {
                Some(select(kids@.take(i as int), |x: NodeId| dom.live(x) && dom.is_element(x) && Some(x) != removed).last())
            } else {
                None
            }),
    {
        proof {
            assert(kids@.take(i + 1).drop_last() =~= kids@.take(i as int));
            assert(kids@.take(i + 1).last() == kids@[i as int]);
        }
        let c = kids[i];
        if dom.is_live(c) && dom.element(c).is_some() && Some(c) != removed {
            last = Some(c);
        }
    }
    proof {
        assert(kids@.take(kids@.len() as int) =~= kids@);
    }
    if let Some(n) = last {
        if dom.is(n, QName::w(LocalName::P)) {
            return;
        }
    }
    plan.structure_changed = true;
    plan.push(NodeEdit::Insert { parent: Target::Node(container), before: None, node: NewElement::new(QName::w(LocalName::P)) });
    assert(final(plan).node_edits@.drop_last() =~= old(plan).node_edits@);
}

/// A target moved `base` edits later.
pub open spec fn shift_target(t: Target, base: int) -> Target {
    match t {
        Target::New(k) => Target::New((k + base) as usize),
        Target::Node(n) => Target::Node(n),
    }
}

/// An edit of another plan renumbered for appending after `base` edits.
pub open spec fn shifted(e: NodeEdit, base: int) -> NodeEdit {
    match e {
        NodeEdit::Insert { parent, before, node } => NodeEdit::Insert { parent: shift_target(parent, base), before, node },
        NodeEdit::InsertClone { parent, before, source } => NodeEdit::InsertClone { parent: shift_target(parent, base), before, source },
        NodeEdit::Move { node, parent, before } => NodeEdit::Move { node, parent: shift_target(parent, base), before },
        NodeEdit::SetAttr { node, name, value } => NodeEdit::SetAttr { node: shift_target(node, base), name, value },
        NodeEdit::RemoveAttr { node, name } => NodeEdit::RemoveAttr { node: shift_target(node, base), name },
        other => other,
    }
}

/// The new-node references of an edit fit after `base` edits.
pub open spec fn shift_fits(e: NodeEdit, base: int) -> bool {
    match e {
        NodeEdit::Insert { parent, .. } | NodeEdit::InsertClone { parent, .. } | NodeEdit::Move { parent, .. } => (parent matches Target::New(k)
            ==> k + base <= usize::MAX),
        NodeEdit::SetAttr { node, .. } | NodeEdit::RemoveAttr { node, .. } => (node matches Target::New(k) ==> k + base <= usize::MAX),
        _ => true,
    }
}

fn shift(t: Target, base: usize) -> (r: Target)
    requires
        t matches Target::New(k) ==> k + base <= usize::MAX,
    ensures
        r == shift_target(t, base as int),
{
    match t {
        Target::New(k) => Target::New(k + base),
        Target::Node(n) => Target::Node(n),
    }
}

impl MutationPlan {
    /// Appends the edits of another plan, renumbering its references to nodes it creates.
    pub fn append_edits(&mut self, edits: Vec<NodeEdit>)
        requires
            forall|i: int| 0 <= i < edits@.len() ==> shift_fits(#[trigger] edits@[i], old(self).node_edits@.len() as int),
        ensures
            crate::image::same_but_edits(*old(self), *final(self)),
            final(self).node_edits@ == old(self).node_edits@ + edits@.map_values(|e: NodeEdit| shifted(e, old(self).node_edits@.len() as int)),
    {
        let base = self.node_edits.len();
        let ghost e0 = edits@;
        let mut rest = edits;
        let mut i: usize = 0;
        let n = rest.len();
        while rest.len() > 0
            invariant
                rest@ == e0.subrange(i as int, n as int),
                n == e0.len(),
                i + rest@.len() == n,
                base == old(self).node_edits@.len(),
                forall|j: int| 0 <= j < e0.len() ==> shift_fits(#[trigger] e0[j], base as int),
                crate::image::same_but_edits(*old(self), *self),
                self.node_edits@ == old(self).node_edits@ + e0.take(i as int).map_values(|e: NodeEdit| shifted(e, base as int)),
            decreases rest@.len(),
        {
            let e = rest.remove(0);
            proof {
                assert(e0[i as int] == e);
                assert(rest@ =~= e0.subrange(i + 1, n as int));
            }
            let moved = match e {
                NodeEdit::Insert { parent, before, node } => NodeEdit::Insert { parent: shift(parent, base), before, node },
                NodeEdit::InsertClone { parent, before, source } => NodeEdit::InsertClone { parent: shift(parent, base), before, source },
                NodeEdit::Move { node, parent, before } => NodeEdit::Move { node, parent: shift(parent, base), before },
                NodeEdit::SetAttr { node, name, value } => NodeEdit::SetAttr { node: shift(node, base), name, value },
                NodeEdit::RemoveAttr { node, name } => NodeEdit::RemoveAttr { node: shift(node, base), name },
                other => other,
            };
            self.push(moved);
            proof {
                assert(e0.take(i + 1) =~= e0.take(i as int).push(e0[i as int]));
                assert(self.node_edits@ =~= old(self).node_edits@ + e0.take(i + 1).map_values(|e: NodeEdit| shifted(e, base as int)));
            }
            i = i + 1;
        }
        proof {
            assert(e0.take(n as int) =~= e0);
        }
    }
}

/// A revision mark of a row (`w:ins`, `w:del`, `w:trPrChange`).
pub open spec fn is_row_rev(dom: Dom, c: NodeId) -> bool {
    dom.named(c, wn(LocalName::Ins)) || dom.named(c, wn(LocalName::Del)) || dom.named(c, wn(LocalName::TrPrChange))
}

/// The revision marks among the live element children of a row's `w:trPr`.
pub fn row_revision_marks(dom: &Dom, tr_pr: NodeId) -> (r: Vec<NodeId>)
    requires
        dom.wf(),
        dom.has(tr_pr),
    ensures
        r@ == select(dom.spec_live_element_children(tr_pr), |c: NodeId| is_row_rev(*dom, c)),
{
    let kids = dom.live_element_children(tr_pr);
    let mut out: Vec<NodeId> = Vec::new();
    for i in 0..kids.len()
        invariant
            out@ == select(kids@.take(i as int), |c: NodeId| is_row_rev(*dom, c)),
    {
        proof {
            assert(kids@.take(i + 1).drop_last() =~= kids@.take(i as int));
            assert(kids@.take(i + 1).last() == kids@[i as int]);
        }
        let c = kids[i];
        if dom.is(c, QName::w(LocalName::Ins)) || dom.is(c, QName::w(LocalName::Del)) || dom.is(c, QName::w(LocalName::TrPrChange)) {
            out.push(c);
        }
    }
    proof {
        assert(kids@.take(kids@.len() as int) =~= kids@);
    }
    out
}

impl MutationPlan {
    /// A new `w:trPr` under the row created by edit `row_k`, holding copies of the live
    /// element children of `src` other than its revision marks.
    pub fn clone_row_props_without_revisions(&mut self, dom: &Dom, row_k: usize, src: NodeId)
        requires
            dom.wf(),
            dom.has(src),
        ensures
            crate::image::same_but_edits(*old(self), *final(self)),
            ({
                let k = old(self).node_edits@.len();
                let revs = select(dom.spec_live_element_children(src), |c: NodeId| is_row_rev(*dom, c));
                let kept = dom.spec_live_element_children(src).filter(|c: NodeId| !revs.contains(c));
                &&& final(self).node_edits@.len() == k + 1 + kept.len()
                &&& final(self).node_edits@.subrange(0, k as int) == old(self).node_edits@
                &&& final(self).node_edits@[k as int] matches NodeEdit::Insert { parent, before, node } && parent == Target::New(row_k)
                    && before is None && node.name == wn(LocalName::TrPr) && node.attrs@.len() == 0 && node.children@.len() == 0
                &&& final(self).node_edits@.subrange(k + 1int, final(self).node_edits@.len() as int) == kept.map_values(
                    |c: NodeId| NodeEdit::InsertClone { parent: Target::New(k as usize), before: None, source: c })
            }),
    {
        let k = self.node_edits.len();
        self.push(NodeEdit::Insert { parent: Target::New(row_k), before: None, node: NewElement::new(QName::w(LocalName::TrPr)) });
        let ghost first = self.node_edits@;
        let revs = row_revision_marks(dom, src);
        let kids = dom.live_element_children(src);
        let ghost kept_fn = |c: NodeId| !revs@.contains(c);
        for i in 0..kids.len()
            invariant
                crate::image::same_but_edits(*old(self), *self),
                self.node_edits@ == first + kids@.take(i as int).filter(|c: NodeId| !revs@.contains(c)).map_values(
                    |c: NodeId| NodeEdit::InsertClone { parent: Target::New(k), before: None, source: c }),
                first.len() == k + 1,
        {
            proof {
                reveal_with_fuel(Seq::<_>::filter, 1);
                assert(kids@.take(i + 1).drop_last() =~= kids@.take(i as int));
                assert(kids@.take(i + 1).last() == kids@[i as int]);
            }
            if !contains_node(&revs, kids[i]) {
                self.push(NodeEdit::InsertClone { parent: Target::New(k), before: None, source: kids[i] });
            }
            proof {
                assert(self.node_edits@ =~= first + kids@.take(i + 1).filter(|c: NodeId| !revs@.contains(c)).map_values(
                    |c: NodeId| NodeEdit::InsertClone { parent: Target::New(k), before: None, source: c }));
            }
        }
        proof {
            assert(kids@.take(kids@.len() as int) =~= kids@);
            assert(self.node_edits@.subrange(0, k as int) =~= old(self).node_edits@);
            assert(self.node_edits@.subrange(k + 1, self.node_edits@.len() as int) =~= kids@.filter(|c: NodeId| !revs@.contains(c)).map_values(
                |c: NodeId| NodeEdit::InsertClone { parent: Target::New(k), before: None, source: c }));
        }
    }
}

/// `n` is a live element.
pub open spec fn live_elem(dom: Dom, n: NodeId) -> bool {
    dom.live(n) && dom.is_element(n)
}

/// Where a new block lands: its parent and the node it goes in front of (`None`: at the
/// end). The start of a container is before its first live element; its end is before a
/// trailing `w:sectPr`. `None` when the anchor is not a live element, or has no parent.
pub open spec fn spec_block_site(dom: Dom, at: BlockAt) -> Option<(NodeId, Option<NodeId>)> {
    match at {
        BlockAt::Start(c) => if live_elem(dom, c) {
            Some((c, first_of(dom.spec_live_element_children(c))))
        } else {
            None
        },
        BlockAt::Before(n) => if live_elem(dom, n) && dom.at(n).parent is Some {
            Some((dom.at(n).parent.unwrap(), Some(n)))
        } else {
            None
        },
        BlockAt::After(n) => if live_elem(dom, n) && dom.at(n).parent is Some {
            Some((dom.at(n).parent.unwrap(), dom.spec_next_sibling(n, false)))
        } else {
            None
        },
        BlockAt::End(c) => if live_elem(dom, c) {
            let ks = dom.spec_live_element_children(c);
            Some((c, if ks.len() > 0 && dom.named(ks.last(), wn(LocalName::SectPr)) { Some(ks.last()) } else { None }))
        } else {
            None
        },
    }
}

/// The existing property container `container` among the live elements of `parent`, and the
/// node a missing one goes in front of: the first live element, or for `w:trPr` the first
/// one that is not a `w:tblPrEx`.
pub open spec fn spec_props_site(dom: Dom, parent: NodeId, container: LocalName) -> (Option<NodeId>, Option<NodeId>) {
    let ks = dom.spec_live_element_children(parent);
    (find_first(ks, named_pred(dom, wn(container))), if container == LocalName::TrPr {
        find_first(ks, |c: NodeId| !dom.named(c, wn(LocalName::TblPrEx)))
    } else {
        first_of(ks)
    })
}

fn first_matching(dom: &Dom, ks: &Vec<NodeId>, q: QName, negate: bool) -> (r: Option<NodeId>)
    ensures
        r == find_first(ks@, if negate { |c: NodeId| !dom.named(c, q) } else { named_pred(*dom, q) }),
{
    let ghost p = if negate { |c: NodeId| !dom.named(c, q) } else { named_pred(*dom, q) };
    let mut i: usize = 0;
    assert(ks@.skip(0) =~= ks@);
    while i < ks.len()
        invariant
            i <= ks@.len(),
            p == (if negate { |c: NodeId| !dom.named(c, q) } else { named_pred(*dom, q) }),
            find_first(ks@, p) == find_first(ks@.skip(i as int), p),
        decreases ks@.len() - i,
    {
        proof {
            assert(ks@.skip(i as int).drop_first() =~= ks@.skip(i + 1));
            assert(ks@.skip(i as int)[0] == ks@[i as int]);
        }
        if dom.is(ks[i], q) != negate {
            return Some(ks[i]);
        }
        i = i + 1;
    }
    None
}

impl MutationPlan {
    /// `Ok` when `para` is a live `w:p`, else `EditBadPosition`.
    pub fn require_paragraph(dom: &Dom, para: NodeId) -> (r: Result<(), Error>)
        ensures
            r is Ok <==> dom.live(para) && dom.named(para, wn(LocalName::P)),
            r matches Err(e) ==> e.has_code(DiagCode::EditBadPosition),
    {
        if dom.is_live(para) && dom.is(para, QName::w(LocalName::P)) {
            Ok(())
        } else {
            let head = crate::text::concat("节点 ", crate::text::decimal(para.0 as u64).as_str());
            Err(Error::edit(DiagCode::EditBadPosition, crate::text::concat(head.as_str(), " 不是活的 w:p")))
        }
    }

    /// Where a block lands: `(parent, before)`. A bad anchor gives `EditBadPosition`.
    pub fn block_site(dom: &Dom, at: BlockAt) -> (r: Result<(NodeId, Option<NodeId>), Error>)
        requires
            dom.wf(),
        ensures
            match spec_block_site(*dom, at) {
                Some(s) => r == Ok::<(NodeId, Option<NodeId>), Error>(s),
                None => r matches Err(e) && e.has_code(DiagCode::EditBadPosition),
            },
    {
        match at {
            BlockAt::Start(c) => {
                if !(dom.is_live(c) && dom.element(c).is_some()) {
                    return Err(Error::edit(DiagCode::EditBadPosition, text("容器无效")));
                }
                let ks = dom.live_element_children(c);
                if ks.len() > 0 {
                    Ok((c, Some(ks[0])))
                } else {
                    Ok((c, None))
                }
            },
            BlockAt::Before(n) | BlockAt::After(n) => {
                if !(dom.is_live(n) && dom.element(n).is_some()) {
                    return Err(Error::edit(DiagCode::EditBadPosition, text("锚点块无效")));
                }
                let parent = match dom.parent(n) {
                    Some(p) => p,
                    None => {
                        return Err(Error::edit(DiagCode::EditBadPosition, text("锚点块没有父节点")));
                    },
                };
                let before = if matches!(at, BlockAt::Before(_)) {
                    Some(n)
                } else {
                    dom.next_live_sibling(n)
                };
                Ok((parent, before))
            },
            BlockAt::End(c) => {
                if !(dom.is_live(c) && dom.element(c).is_some()) {
                    return Err(Error::edit(DiagCode::EditBadPosition, text("容器无效")));
                }
                let ks = dom.live_element_children(c);
                if ks.len() > 0 && dom.is(ks[ks.len() - 1], QName::w(LocalName::SectPr)) {
                    Ok((c, Some(ks[ks.len() - 1])))
                } else {
                    Ok((c, None))
                }
            },
        }
    }

    /// The property container `container` of `parent` (if any) and where a missing one goes.
    pub fn props_site(dom: &Dom, parent: NodeId, container: LocalName) -> (r: (Option<NodeId>, Option<NodeId>))
        requires
            dom.wf(),
            dom.has(parent),
        ensures
            r == spec_props_site(*dom, parent, container),
    {
        let ks = dom.live_element_children(parent);
        let existing = first_matching(dom, &ks, QName::w(container), false);
        let before = if container == LocalName::TrPr {
            first_matching(dom, &ks, QName::w(LocalName::TblPrEx), true)
        } else if ks.len() > 0 {
            Some(ks[0])
        } else {
            None
        };
        (existing, before)
    }
}

impl MutationPlan {
    /// Appends the attributes of element `from` to `to`, in order (nothing when `from` is no
    /// element).
    pub fn clone_attrs(dom: &Dom, from: NodeId, to: &mut NewElement)
        ensures
            final(to).name == old(to).name,
            final(to).children@ == old(to).children@,
            match (if dom.has(from) { Some(dom.at(from).kind) } else { None }) {
                Some(crate::dom::NodeKind::Element(e)) => {
                    &&& final(to).attrs@.len() == old(to).attrs@.len() + e.attrs@.len()
                    &&& final(to).attrs@.take(old(to).attrs@.len() as int) == old(to).attrs@
                    &&& forall|i: int| 0 <= i < e.attrs@.len() ==> (#[trigger] final(to).attrs@[old(to).attrs@.len() + i]).0
                        == e.attrs@[i].name && final(to).attrs@[old(to).attrs@.len() + i].1@ == e.attrs@[i].value@
                },
                _ => final(to).attrs@ == old(to).attrs@,
            },
    {
        if let Some(e) = dom.element(from) {
            let n0 = to.attrs.len();
            for i in 0..e.attrs.len()
                invariant
                    to.name == old(to).name,
                    to.children@ == old(to).children@,
                    n0 == old(to).attrs@.len(),
                    to.attrs@.len() == n0 + i,
                    to.attrs@.take(n0 as int) == old(to).attrs@,
                    forall|k: int| 0 <= k < i ==> (#[trigger] to.attrs@[n0 + k]).0 == e.attrs@[k].name
                        && to.attrs@[n0 + k].1@ == e.attrs@[k].value@,
            {
                let ghost before = to.attrs@;
                to.push_attr(e.attrs[i].name, e.attrs[i].value.clone());
                proof {
                    assert(to.attrs@.take(n0 as int) =~= before.take(n0 as int));
                    assert forall|k: int| 0 <= k < i + 1 implies (#[trigger] to.attrs@[n0 + k]).0 == e.attrs@[k].name
                        && to.attrs@[n0 + k].1@ == e.attrs@[k].value@ by {
                        if k < i {
                            assert(to.attrs@[n0 + k] == before[n0 + k]);
                        }
                    }
                }
            }
        }
    }
}

} // verus!
