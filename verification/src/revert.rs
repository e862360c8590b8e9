use vstd::prelude::*;
use crate::blocks::droppable;
use crate::dom::Dom;
use crate::edit::{NodeEdit, Target};
use crate::ids::NodeId;
use crate::image::named_pred;
use crate::marks::gained;
use crate::plan::MutationPlan;
use crate::tables::wn;
use crate::track::{find_first, order_index, order_of, select};
use crate::xml::{LocalName, NsId, QName};

verus! {

/// The fields of a property container that its `*Change` snapshot does not hold: restoring
/// the snapshot leaves them in place.
#[derive(Debug, Clone, Copy, PartialEq, Eq, Structural)]
pub enum RevisionKeep {
    Nothing,
    Paragraph,
    Section,
    Row,
    Cell,
}

/// Does a snapshot of this kind leave the main-namespace field `l` in place?
pub open spec fn keeps(k: RevisionKeep, l: LocalName) -> bool {
    match k {
        RevisionKeep::Nothing => false,
        RevisionKeep::Paragraph => l == LocalName::RPr || l == LocalName::SectPr,
        RevisionKeep::Section => l == LocalName::HeaderReference || l == LocalName::FooterReference,
        RevisionKeep::Row => l == LocalName::Ins || l == LocalName::Del,
        RevisionKeep::Cell => l == LocalName::CellIns || l == LocalName::CellDel || l == LocalName::CellMerge
            || l == LocalName::Headers,
    }
}

impl RevisionKeep {
    /// Is `local` a field this snapshot kind leaves in place?
    pub fn contains(self, local: LocalName) -> (r: bool)
        ensures
            r == keeps(self, local),
    {
        match self {
            RevisionKeep::Nothing => false,
            RevisionKeep::Paragraph => local == LocalName::RPr || local == LocalName::SectPr,
            RevisionKeep::Section => local == LocalName::HeaderReference || local == LocalName::FooterReference,
            RevisionKeep::Row => local == LocalName::Ins || local == LocalName::Del,
            RevisionKeep::Cell => local == LocalName::CellIns || local == LocalName::CellDel || local
                == LocalName::CellMerge || local == LocalName::Headers,
        }
    }
}

/// `c` is a field the snapshot leaves in place.
pub open spec fn kept_field(dom: Dom, c: NodeId, keep: RevisionKeep) -> bool {
    dom.name_of(c) matches Some(q) && q.ns == NsId::W && keeps(keep, q.local)
}

/// Deleted on restore: the elements of the container other than the `*Change` that are not
/// left in place.
pub open spec fn drop_pred(dom: Dom, change: NodeId, keep: RevisionKeep) -> spec_fn(NodeId) -> bool {
    |c: NodeId| c != change && dom.name_of(c) is Some && !kept_field(dom, c, keep)
}

/// Left in place on restore.
pub open spec fn keep_pred(dom: Dom, change: NodeId, keep: RevisionKeep) -> spec_fn(NodeId) -> bool {
    |c: NodeId| c != change && kept_field(dom, c, keep)
}

/// The snapshot inside a `*Change`: its first live child named `w:<inner>`.
pub open spec fn snapshot_of(dom: Dom, change: NodeId, inner: LocalName) -> Option<NodeId> {
    find_first(dom.spec_live_children(change), named_pred(dom, wn(inner)))
}

/// What restoring copies back: the live children of the snapshot.
pub open spec fn restored(dom: Dom, change: NodeId, inner: LocalName) -> Seq<NodeId> {
    match snapshot_of(dom, change, inner) {
        Some(s) => dom.spec_live_children(s),
        None => seq![],
    }
}

/// A live child of the container (not the `*Change`) that the order table puts after `mine`.
pub open spec fn after_in_order(dom: Dom, change: NodeId, t: Seq<QName>, mine: int) -> spec_fn(NodeId) -> bool {
    |k: NodeId| k != change && (dom.name_of(k) matches Some(q) && (order_of(t, q) matches Some(i) && i > mine))
}

/// Where a restored field goes: before the first field the order table puts after it, else
/// before the `*Change`.
pub open spec fn restore_before(dom: Dom, container: NodeId, change: NodeId, order: Option<Seq<QName>>, c: NodeId) -> NodeId {
    match (order, dom.name_of(c)) {
        (Some(t), Some(q)) => match order_of(t, q) {
            Some(mine) => match find_first(dom.spec_live_children(container), after_in_order(dom, change, t, mine)) {
                Some(k) => k,
                None => change,
            },
            None => change,
        },
        _ => change,
    }
}

/// Deleting each node of `s`.
pub open spec fn deletes(s: Seq<NodeId>) -> Seq<NodeEdit> {
    s.map_values(|c: NodeId| NodeEdit::Delete(c))
}

/// Copying each restored node back into the container.
pub open spec fn copies(dom: Dom, container: NodeId, change: NodeId, order: Option<Seq<QName>>, rs: Seq<NodeId>) -> Seq<NodeEdit> {
    rs.map_values(|c: NodeId| NodeEdit::InsertClone {
        parent: Target::Node(container),
        before: Some(restore_before(dom, container, change, order, c)),
        source: c,
    })
}

/// The edits that restore a container from its `*Change` snapshot: the fields not left in
/// place go, the snapshot's children are copied back in schema order, the `*Change` goes,
/// and a container that ends up empty (nothing kept, nothing restored) goes too when it is a
/// property container.
pub open spec fn restore_edits(dom: Dom, container: NodeId, change: NodeId, inner: LocalName, keep: RevisionKeep, order: Option<Seq<QName>>) -> Seq<NodeEdit> {
    let ks = dom.spec_live_children(container);
    let rs = restored(dom, change, inner);
    let emptied = select(ks, keep_pred(dom, change, keep)).len() == 0 && rs.len() == 0
        && (dom.name_of(container) matches Some(q) && droppable(q.local));
    deletes(select(ks, drop_pred(dom, change, keep))) + copies(dom, container, change, order, rs) + if emptied {
        seq![NodeEdit::Delete(change), NodeEdit::Delete(container)]
    } else {
        seq![NodeEdit::Delete(change)]
    }
}

fn first_named_in(dom: &Dom, ns: &Vec<NodeId>, q: QName) -> (r: Option<NodeId>)
    ensures
        r == find_first(ns@, named_pred(*dom, q)),
{
    let mut i: usize = 0;
    assert(ns@.skip(0) =~= ns@);
    while i < ns.len()
        invariant
            i <= ns@.len(),
            find_first(ns@, named_pred(*dom, q)) == find_first(ns@.skip(i as int), named_pred(*dom, q)),
        decreases ns@.len() - i,
    {
        proof {
            assert(ns@.skip(i as int).drop_first() =~= ns@.skip(i + 1));
            assert(ns@.skip(i as int)[0] == ns@[i as int]);
        }
        if dom.is(ns[i], q) {
            return Some(ns[i]);
        }
        i = i + 1;
    }
    None
}

fn first_after(dom: &Dom, ks: &Vec<NodeId>, change: NodeId, t: &[QName], mine: usize) -> (r: Option<NodeId>)
    ensures
        r == find_first(ks@, after_in_order(*dom, change, t@, mine as int)),
{
    let ghost p = after_in_order(*dom, change, t@, mine as int);
    let mut i: usize = 0;
    assert(ks@.skip(0) =~= ks@);
    while i < ks.len()
        invariant
            i <= ks@.len(),
            p == after_in_order(*dom, change, t@, mine as int),
            find_first(ks@, p) == find_first(ks@.skip(i as int), p),
        decreases ks@.len() - i,
    {
        proof {
            assert(ks@.skip(i as int).drop_first() =~= ks@.skip(i + 1));
            assert(ks@.skip(i as int)[0] == ks@[i as int]);
        }
        let k = ks[i];
        if k != change {
            if let Some(q) = dom.name(k) {
                if let Some(j) = order_index(t, q) {
                    if j > mine {
                        return Some(k);
                    }
                }
            }
        }
        i = i + 1;
    }
    None
}

fn before_of(dom: &Dom, ks: &Vec<NodeId>, container: NodeId, change: NodeId, order: Option<&[QName]>, c: NodeId) -> (r: NodeId)
    requires
        ks@ == dom.spec_live_children(container),
    ensures
        r == restore_before(*dom, container, change, match order { Some(t) => Some(t@), None => None }, c),
{
    match order {
        Some(t) => match dom.name(c) {
            Some(q) => match order_index(t, q) {
                Some(mine) => match first_after(dom, ks, change, t, mine) {
                    Some(k) => k,
                    None => change,
                },
                None => change,
            },
            None => change,
        },
        None => change,
    }
}

impl MutationPlan {
    /// Restores `container` from the snapshot `w:<inner>` in its `*Change` element `change`
    /// (rejecting a property change): see [`restore_edits`]. `order` is the schema order of
    /// the container's fields, when it has one.
    pub fn restore(&mut self, dom: &Dom, container: NodeId, change: NodeId, inner: LocalName, keep: RevisionKeep, order: Option<&[QName]>)
        requires
            dom.wf(),
            dom.has(container),
            dom.has(change),
        ensures
            gained(*old(self), *final(self), restore_edits(*dom, container, change, inner, keep,
                match order { Some(t) => Some(t@), None => None })),
    {
        let ghost ord = match order { Some(t) => Some(t@), None => None::<Seq<QName>> };
        let kids = dom.live_children(container);
        let ghost dp = drop_pred(*dom, change, keep);
        let ghost kp = keep_pred(*dom, change, keep);
        let mut kept: usize = 0;
        proof {
            assert(kids@.take(0) =~= Seq::<NodeId>::empty());
            assert(self.node_edits@ =~= old(self).node_edits@ + deletes(select(kids@.take(0), dp)));
        }
        for i in 0..kids.len()
            invariant
                kids@ == dom.spec_live_children(container),
                dp == drop_pred(*dom, change, keep),
                kp == keep_pred(*dom, change, keep),
                self.node_edits@ == old(self).node_edits@ + deletes(select(kids@.take(i as int), dp)),
                kept as int == select(kids@.take(i as int), kp).len(),
                kept <= i,
                self.part == old(self).part,
                self.affected_blocks == old(self).affected_blocks,
                self.structure_changed == old(self).structure_changed,
                self.diagnostics == old(self).diagnostics,
                self.offset_delta == old(self).offset_delta,
                self.span == old(self).span,
        {
            let c = kids[i];
            let ghost pre = kids@.take(i as int);
            proof {
                assert(kids@.take(i + 1).drop_last() =~= pre);
                assert(kids@.take(i + 1).last() == c);
            }
            if c != change {
                if let Some(name) = dom.name(c) {
                    if name.ns == NsId::W && keep.contains(name.local) {
                        kept = kept + 1;
                    } else {
                        let ghost before = self.node_edits@;
                        self.node_edits.push(NodeEdit::Delete(c));
                        proof {
                            assert(deletes(select(pre, dp).push(c)) =~= deletes(select(pre, dp)).push(NodeEdit::Delete(c)));
                            assert(self.node_edits@ =~= old(self).node_edits@ + deletes(select(kids@.take(i + 1), dp)));
                        }
                    }
                }
            }
        }
        proof {
            assert(kids@.take(kids@.len() as int) =~= kids@);
        }
        let ghost after_drops = self.node_edits@;
        let ch = dom.live_children(change);
        proof {
            dom.lemma_live_children_have(change);
        }
        let snapshot = first_named_in(dom, &ch, QName::w(inner));
        let mut restored_n: usize = 0;
        if let Some(snap) = snapshot {
            proof {
                crate::image::lemma_find_first_in(ch@, named_pred(*dom, wn(inner)));
            }
            let rs = dom.live_children(snap);
            for j in 0..rs.len()
                invariant
                    kids@ == dom.spec_live_children(container),
                    rs@ == restored(*dom, change, inner),
                    ord == (match order { Some(t) => Some(t@), None => None::<Seq<QName>> }),
                    restored_n == j,
                    self.node_edits@ == after_drops + copies(*dom, container, change, ord, rs@.take(j as int)),
                    self.part == old(self).part,
                    self.affected_blocks == old(self).affected_blocks,
                    self.structure_changed == old(self).structure_changed,
                    self.diagnostics == old(self).diagnostics,
                    self.offset_delta == old(self).offset_delta,
                    self.span == old(self).span,
            {
                let c = rs[j];
                let b = before_of(dom, &kids, container, change, order, c);
                self.node_edits.push(NodeEdit::InsertClone { parent: Target::Node(container), before: Some(b), source: c });
                proof {
                    assert(rs@.take(j + 1) =~= rs@.take(j as int).push(c));
                    assert(copies(*dom, container, change, ord, rs@.take(j + 1)) =~= copies(*dom, container, change, ord,
                        rs@.take(j as int)).push(NodeEdit::InsertClone { parent: Target::Node(container), before: Some(b), source: c }));
                }
                restored_n = restored_n + 1;
            }
            proof {
                assert(rs@.take(rs@.len() as int) =~= rs@);
            }
        } else {
            proof {
                assert(copies(*dom, container, change, ord, restored(*dom, change, inner)) =~= Seq::<NodeEdit>::empty());
                assert(self.node_edits@ =~= after_drops + copies(*dom, container, change, ord, restored(*dom, change, inner)));
            }
        }
        let ghost after_copies = self.node_edits@;
        self.node_edits.push(NodeEdit::Delete(change));
        let empty_container = match dom.name(container) {
            Some(q) => crate::blocks::droppable_empty(q.local),
            None => false,
        };
        if kept == 0 && restored_n == 0 && empty_container {
            self.node_edits.push(NodeEdit::Delete(container));
        }
        proof {
            let ks = dom.spec_live_children(container);
            let rs = restored(*dom, change, inner);
            assert(after_drops == old(self).node_edits@ + deletes(select(ks, dp)));
            assert(after_copies == after_drops + copies(*dom, container, change, ord, rs));
            assert(kept as int == select(ks, kp).len());
            assert(restored_n as int == rs.len());
            let es = restore_edits(*dom, container, change, inner, keep, ord);
            assert(self.node_edits@ =~= old(self).node_edits@ + es);
        }
    }
}

} // verus!
