use vstd::prelude::*;
use crate::ids::NodeId;
use crate::xml::{QName, NewElement, NewNode};
use crate::dom::{Dom, Node, NodeKind, Element, Attr, Dirty};

verus! {

/// Where an edit lands: an existing node, or the node created by an earlier edit of the list.
#[derive(Debug, Clone, Copy, PartialEq, Eq, Structural)]
pub enum Target {
    Node(NodeId),
    New(usize),
}

/// One mechanical DOM edit.
#[derive(Debug)]
pub enum NodeEdit {
    /// Insert a new subtree under `parent`, before `before` (or at the end).
    Insert { parent: Target, before: Option<NodeId>, node: NewElement },
    /// Insert a deep copy of `source` under `parent`.
    InsertClone { parent: Target, before: Option<NodeId>, source: NodeId },
    /// Put a new subtree in the place of `old`, which is deleted.
    Replace { old: NodeId, node: NewElement },
    /// Put a deep copy of `source` in the place of `old`, which is deleted.
    ReplaceClone { old: NodeId, source: NodeId },
    /// Mark a node deleted.
    Delete(NodeId),
    /// Set (or add) an attribute.
    SetAttr { node: Target, name: QName, value: String },
    /// Remove an attribute.
    RemoveAttr { node: Target, name: QName },
    /// Replace the text of a text node.
    SetText { node: NodeId, text: String },
    /// Rename an element.
    Rename { node: NodeId, name: QName },
    /// Move an existing node under another parent.
    Move { node: NodeId, parent: Target, before: Option<NodeId> },
}

impl NodeEdit {
    /// Edits that create a node (and so can be named by `Target::New`).
    pub open spec fn spec_creates(&self) -> bool {
        self is Insert || self is InsertClone || self is Replace || self is ReplaceClone
    }

    /// Does this edit create a node?
    pub fn creates(&self) -> (r: bool)
        ensures
            r == self.spec_creates(),
    {
        match self {
            NodeEdit::Insert { .. } | NodeEdit::InsertClone { .. } | NodeEdit::Replace { .. }
            | NodeEdit::ReplaceClone { .. } => true,
            _ => false,
        }
    }
}

/// The dirty state of a node after an edit of its own name, attributes or text.
pub open spec fn after_touch(d: Dirty) -> Dirty {
    if d == Dirty::Clean { Dirty::SelfDirty } else { d }
}

/// `b` differs from `a` at most in node `n`, which keeps its parent.
pub open spec fn same_but(a: Dom, b: Dom, n: NodeId) -> bool {
    &&& b.root == a.root
    &&& b.part == a.part
    &&& b.nodes@.len() == a.nodes@.len()
    &&& forall|k: int| 0 <= k < a.nodes@.len() && k != n.0 as int ==> #[trigger] b.nodes@[k] == a.nodes@[k]
    &&& b.nodes@[n.0 as int].parent == a.nodes@[n.0 as int].parent
}

/// `b` is `a` with node `n` touched: its kind is `kind` (children kept, dirty state updated).
pub open spec fn touched(a: Dom, b: Dom, n: NodeId, kind: NodeKind) -> bool {
    &&& same_but(a, b, n)
    &&& b.nodes@[n.0 as int].kind == kind
    &&& b.nodes@[n.0 as int].children == a.nodes@[n.0 as int].children
    &&& b.nodes@[n.0 as int].dirty == after_touch(a.nodes@[n.0 as int].dirty)
}

/// An attribute list as (name, value) pairs.
pub open spec fn attr_pairs(a: Seq<Attr>) -> Seq<(QName, Seq<char>)> {
    a.map_values(|x: Attr| (x.name, x.value@))
}

/// The index of the first pair named `q` at or after `j`.
pub open spec fn attr_pos(a: Seq<(QName, Seq<char>)>, q: QName, j: int) -> Option<int>
    decreases a.len() - j,
{
    if j < 0 || j >= a.len() {
        None
    } else if a[j].0 == q {
        Some(j)
    } else {
        attr_pos(a, q, j + 1)
    }
}

/// `a` with the first pair named `q` given the value `v`, or `(q, v)` appended.
pub open spec fn with_attr(a: Seq<(QName, Seq<char>)>, q: QName, v: Seq<char>) -> Seq<(QName, Seq<char>)> {
    match attr_pos(a, q, 0) {
        Some(k) => a.update(k, (q, v)),
        None => a.push((q, v)),
    }
}

/// `a` without its first pair named `q`.
pub open spec fn without_attr(a: Seq<(QName, Seq<char>)>, q: QName) -> Seq<(QName, Seq<char>)> {
    match attr_pos(a, q, 0) {
        Some(k) => a.remove(k),
        None => a,
    }
}

/// Node `n` of `a` is an element whose name is kept and whose attributes become `attrs`,
/// in `b`.
pub open spec fn attrs_became(a: Dom, b: Dom, n: NodeId, name: QName, attrs: Seq<(QName, Seq<char>)>) -> bool {
    &&& same_but(a, b, n)
    &&& b.nodes@[n.0 as int].kind matches NodeKind::Element(e) && e.name == name && attr_pairs(e.attrs@) == attrs
    &&& b.nodes@[n.0 as int].children == a.nodes@[n.0 as int].children
    &&& b.nodes@[n.0 as int].dirty == after_touch(a.nodes@[n.0 as int].dirty)
}

/// The arena only grew and every old slot kept its kind tag and parent presence.
pub open spec fn grew(a: Dom, b: Dom) -> bool {
    &&& a.nodes@.len() <= b.nodes@.len()
    &&& b.root == a.root
    &&& b.part == a.part
    &&& forall|i: int|
        #![trigger b.nodes@[i]]
        0 <= i < a.nodes@.len() ==> (a.nodes@[i].parent is Some ==> b.nodes@[i].parent is Some)
            && (a.nodes@[i].kind is Element <==> b.nodes@[i].kind is Element)
}

/// The node a target names directly (`None` for a `Target::New`).
pub open spec fn target_node(t: Target) -> Option<NodeId> {
    match t {
        Target::Node(n) => Some(n),
        Target::New(_) => None,
    }
}

/// `t` names a live element, or an earlier edit of the list that creates a node.
pub open spec fn target_ok(dom: Dom, edits: Seq<NodeEdit>, t: Target, i: int) -> bool {
    match t {
        Target::Node(n) => dom.live(n) && dom.is_element(n),
        Target::New(k) => (k as int) < i && edits[k as int].spec_creates(),
    }
}

/// `before` is absent, or a child of the (existing) parent.
pub open spec fn before_ok(dom: Dom, p: Option<NodeId>, before: Option<NodeId>) -> bool {
    match (p, before) {
        (_, None) => true,
        (Some(p), Some(b)) => dom.has(b) && dom.has(p) && dom.kids(p).contains(b),
        (None, Some(_)) => false,
    }
}

/// The checks `MutationPlan::validate` makes on the i-th edit, against the DOM as it is
/// before any edit of the list runs.
pub open spec fn edit_ok(dom: Dom, edits: Seq<NodeEdit>, i: int) -> bool {
    match edits[i] {
        NodeEdit::Insert { parent, before, .. } => target_ok(dom, edits, parent, i) && before_ok(
            dom,
            target_node(parent),
            before,
        ),
        NodeEdit::InsertClone { parent, before, source } => target_ok(dom, edits, parent, i)
            && before_ok(dom, target_node(parent), before) && dom.live(source),
        NodeEdit::Replace { old, .. } => dom.live(old) && dom.at(old).parent is Some,
        NodeEdit::ReplaceClone { old, source } => dom.live(old) && dom.at(old).parent is Some
            && dom.live(source),
        NodeEdit::Delete(n) => dom.live(n),
        NodeEdit::SetAttr { node, .. } => target_ok(dom, edits, node, i),
        NodeEdit::RemoveAttr { node, .. } => target_ok(dom, edits, node, i),
        NodeEdit::SetText { node, .. } => dom.live(node) && dom.is_text(node),
        NodeEdit::Rename { node, .. } => dom.live(node) && dom.is_element(node),
        NodeEdit::Move { node, parent, before } => {
            &&& dom.live(node)
            &&& dom.at(node).parent is Some
            &&& target_ok(dom, edits, parent, i)
            &&& before_ok(dom, target_node(parent), before)
            &&& (target_node(parent) matches Some(p) ==> !dom.spec_ancestor_or_self(
                node,
                p,
                dom.len(),
            ))
        },
    }
}

/// Every edit of the list passes `edit_ok`.
pub open spec fn plan_valid(dom: Dom, edits: Seq<NodeEdit>) -> bool {
    forall|i: int| 0 <= i < edits.len() ==> edit_ok(dom, edits, i)
}

/// The node an edit creates is an element (clones of text nodes are not).
pub open spec fn creates_element(dom: Dom, e: NodeEdit) -> bool {
    match e {
        NodeEdit::Insert { .. } | NodeEdit::Replace { .. } => true,
        NodeEdit::InsertClone { source, .. } | NodeEdit::ReplaceClone { source, .. } => dom.is_element(source),
        _ => false,
    }
}

/// Every `Target::New` used as a parent names an edit that creates an element.
pub open spec fn new_parents_are_elements(dom: Dom, edits: Seq<NodeEdit>) -> bool {
    forall|i: int| #![trigger edits[i]] 0 <= i < edits.len() ==> match edits[i] {
        NodeEdit::Insert { parent: Target::New(k), .. }
        | NodeEdit::InsertClone { parent: Target::New(k), .. } => (k as int) < edits.len() ==> creates_element(dom, edits[k as int]),
        _ => true,
    }
}

/// What an edit needs from the current DOM and the ids created so far to be able to create
/// its node.
pub open spec fn one_ready(dom: Dom, e: NodeEdit, created: Seq<Option<NodeId>>) -> bool {
    match e {
        NodeEdit::Insert { parent, .. } => dom.resolve(parent, created) matches Some(p)
            && dom.is_element(p),
        NodeEdit::InsertClone { parent, source, .. } => dom.resolve(parent, created) matches Some(p)
            && dom.is_element(p) && dom.has(source),
        NodeEdit::Replace { old, .. } => dom.has(old) && dom.at(old).parent is Some,
        NodeEdit::ReplaceClone { old, source } => dom.has(old) && dom.at(old).parent is Some
            && dom.has(source),
        _ => true,
    }
}

/// `b` differs from `a` only in the slots `p` and `q` (and in the slots it appended).
pub open spec fn kept_but(a: Dom, b: Dom, p: NodeId, q: NodeId) -> bool {
    &&& b.root == a.root
    &&& b.part == a.part
    &&& a.nodes@.len() <= b.nodes@.len()
    &&& forall|k: int| 0 <= k < a.nodes@.len() && k != p.0 as int && k != q.0 as int ==> #[trigger] b.nodes@[k] == a.nodes@[k]
}

/// The attributes of a new element as (name, value) pairs.
pub open spec fn new_attrs(a: Seq<(QName, String)>) -> Seq<(QName, Seq<char>)> {
    a.map_values(|x: (QName, String)| (x.0, x.1@))
}

/// Node `n` of `b` carries the name and the attributes of `e`.
pub open spec fn made_from(b: Dom, n: NodeId, e: NewElement) -> bool {
    &&& b.has(n)
    &&& b.at(n).kind matches NodeKind::Element(el) && el.name == e.name && attr_pairs(el.attrs@) == new_attrs(e.attrs@)
}

/// `new_kids` is `old_kids` with `n` put before the first `before` (at the end when there is
/// no `before` or it is not among them).
pub open spec fn kid_inserted(old_kids: Seq<NodeId>, new_kids: Seq<NodeId>, before: Option<NodeId>, n: NodeId) -> bool {
    if before is Some && old_kids.contains(before->0) {
        exists|i: int| #![trigger old_kids[i]] 0 <= i < old_kids.len() && old_kids[i] == before->0
            && (forall|j: int| 0 <= j < i ==> old_kids[j] != before->0) && new_kids == old_kids.insert(i, n)
    } else {
        new_kids == old_kids.push(n)
    }
}

/// New node `n` of `b` is an element named `name` placed among the children of `p`.
pub open spec fn placed(b: Dom, p: NodeId, n: NodeId, name: Option<QName>) -> bool {
    &&& b.has(n)
    &&& b.at(n).parent == Some(p)
    &&& b.kids(p).contains(n)
    &&& (name matches Some(q) ==> b.name_of(n) == Some(q))
}

/// `b` is `a` with node `n` marked deleted.
pub open spec fn marked_deleted(a: Dom, b: Dom, n: NodeId) -> bool {
    &&& b.root == a.root
    &&& b.part == a.part
    &&& b.nodes@.len() == a.nodes@.len()
    &&& forall|k: int| 0 <= k < a.nodes@.len() && k != n.0 as int ==> #[trigger] b.nodes@[k] == a.nodes@[k]
    &&& a.has(n) ==> b.at(n) == (Node { dirty: Dirty::Deleted, ..a.at(n) })
}

/// What setting attribute `name` to `v` on `n` (if it is an element) does to `a`.
pub open spec fn attr_set(a: Dom, b: Dom, n: Option<NodeId>, name: QName, v: Seq<char>) -> bool {
    match n {
        Some(n) => match a.at(n).kind {
            NodeKind::Element(e) => attrs_became(a, b, n, e.name, with_attr(attr_pairs(e.attrs@), name, v)),
            NodeKind::Text(_) => b == a,
        },
        None => b == a,
    }
}

/// What removing attribute `name` from `n` (if it is an element) does to `a`.
pub open spec fn attr_removed(a: Dom, b: Dom, n: Option<NodeId>, name: QName) -> bool {
    match n {
        Some(n) => match a.at(n).kind {
            NodeKind::Element(e) => attrs_became(a, b, n, e.name, without_attr(attr_pairs(e.attrs@), name)),
            NodeKind::Text(_) => b == a,
        },
        None => b == a,
    }
}

/// What one edit does: `a` becomes `b`, and `r` is the node the edit created. `created` holds
/// the nodes the earlier edits of the list created.
pub open spec fn edit_effect(a: Dom, e: NodeEdit, created: Seq<Option<NodeId>>, b: Dom, r: Option<NodeId>) -> bool {
    match e {
        NodeEdit::Insert { parent, before, node } => r matches Some(n) ==> (a.resolve(parent, created) matches Some(p)
            && placed(b, p, n, Some(node.name)) && made_from(b, n, node) && kept_but(a, b, p, p)
            && kid_inserted(a.kids(p), b.kids(p), before, n) && b.live(n) && !a.has(n)
            && b.at(p).kind == a.at(p).kind && b.at(p).dirty == a.at(p).dirty),
        NodeEdit::InsertClone { parent, before, .. } => r matches Some(n) ==> (a.resolve(parent, created) matches Some(p)
            && placed(b, p, n, None) && kept_but(a, b, p, p) && kid_inserted(a.kids(p), b.kids(p), before, n)),
        NodeEdit::Replace { old, node } => r matches Some(n) ==> (a.at(old).parent matches Some(p)
            && placed(b, p, n, Some(node.name)) && made_from(b, n, node) && b.at(old).dirty == Dirty::Deleted && kept_but(a, b, p, old)
            && kid_inserted(a.kids(p), b.kids(p), Some(old), n)),
        NodeEdit::ReplaceClone { old, .. } => r matches Some(n) ==> (a.at(old).parent matches Some(p)
            && placed(b, p, n, None) && b.at(old).dirty == Dirty::Deleted && kept_but(a, b, p, old)
            && kid_inserted(a.kids(p), b.kids(p), Some(old), n)),
        NodeEdit::Delete(n) => r is None && marked_deleted(a, b, n),
        NodeEdit::SetAttr { node, name, value } => r is None && attr_set(a, b, a.resolve(node, created), name, value@),
        NodeEdit::RemoveAttr { node, name } => r is None && attr_removed(a, b, a.resolve(node, created), name),
        NodeEdit::SetText { node, text } => r is None && if a.has(node) && a.at(node).kind is Text {
            touched(a, b, node, NodeKind::Text(text))
        } else {
            b == a
        },
        NodeEdit::Rename { node, name } => r is None && match (if a.has(node) { Some(a.at(node).kind) } else { None }) {
            Some(NodeKind::Element(el)) => attrs_became(a, b, node, name, attr_pairs(el.attrs@)),
            _ => b == a,
        },
        NodeEdit::Move { node, parent, .. } => r is None && match a.resolve(parent, created) {
            Some(p) => a.is_element(p) && a.has(node) && p != node ==> placed(b, p, node, None),
            None => true,
        },
    }
}

/// `b` is `a` with the edits applied in order: `trace` holds the tree before each edit and
/// after the last, and `created` the node each edit created.
pub open spec fn applied_through(a: Dom, edits: Seq<NodeEdit>, created: Seq<Option<NodeId>>, trace: Seq<Dom>, b: Dom) -> bool {
    &&& trace.len() == edits.len() + 1
    &&& created.len() == edits.len()
    &&& trace[0] == a
    &&& trace[edits.len() as int] == b
    &&& forall|i: int| #![trigger edits[i]] 0 <= i < edits.len() ==> edit_effect(trace[i], edits[i], created.take(i), trace[i + 1], created[i])
}

/// `b` is `a` with the edits applied in order, `created` holding what each created.
pub open spec fn applied(a: Dom, edits: Seq<NodeEdit>, created: Seq<Option<NodeId>>, b: Dom) -> bool {
    exists|trace: Seq<Dom>| applied_through(a, edits, created, trace, b)
}

impl Dom {
    /// Ids handed out by `apply_edits` are fresh slots.
    pub open spec fn fresh_in(&self, old_len: nat, n: NodeId) -> bool {
        old_len <= n.0 && (n.0 as int) < self.nodes@.len()
    }

    fn set_dirty_if_clean(&mut self, n: NodeId)
        requires
            old(self).wf(),
            old(self).has(n),
        ensures
            final(self).wf(),
            grew(*old(self), *final(self)),
            final(self).nodes@.len() == old(self).nodes@.len(),
            touched(*old(self), *final(self), n, old(self).nodes@[n.0 as int].kind),
    {
        let i = n.0 as usize;
        if matches!(self.nodes[i].dirty, Dirty::Clean) {
            let ghost before = self.nodes@;
            self.nodes[i].dirty = Dirty::SelfDirty;
            proof {
                assert forall|k: int| 0 <= k < self.nodes@.len() implies #[trigger] self.nodes@[k].children@
                    == before[k].children@ && self.nodes@[k].parent == before[k].parent
                    && self.nodes@[k].kind == before[k].kind by {}
                Dom::lemma_kids_parented_kept(*old(self), *self);
            }
        }
    }

    /// Appends a fresh node (with no children) to the arena.
    pub(crate) fn push_node(&mut self, kind: NodeKind, parent: Option<NodeId>) -> (r: NodeId)
        requires
            old(self).wf(),
            old(self).nodes@.len() + 1 < u32::MAX,
            parent matches Some(p) ==> old(self).has(p) && old(self).at(p).kind is Element,
            kind is Text || kind is Element,
        ensures
            final(self).wf(),
            grew(*old(self), *final(self)),
            r.0 == old(self).nodes@.len(),
            final(self).nodes@.len() == old(self).nodes@.len() + 1,
            final(self).at(r).parent == parent,
            final(self).at(r).children@.len() == 0,
            final(self).at(r).kind == kind,
            final(self).at(r).dirty == Dirty::New,
            forall|k: int| 0 <= k < old(self).nodes@.len() ==> final(self).nodes@[k] == old(self).nodes@[k],
    {
        let id = NodeId(self.nodes.len() as u32);
        self.nodes.push(Node { kind, parent, children: Vec::new(), dirty: Dirty::New });
        proof {
            reveal(Dom::kids_parented);
            let a = *old(self);
            assert forall|i: int, j: int|
                0 <= i < self.nodes@.len() && 0 <= j < self.nodes@[i].children@.len() && (self.nodes@[i].children@[j].0 as int) < self.nodes@.len()
                implies #[trigger] self.nodes@[self.nodes@[i].children@[j].0 as int].parent is Some by {
                if i < a.nodes@.len() {
                    assert(self.nodes@[i] == a.nodes@[i]);
                    assert((a.nodes@[i].children@[j].0 as int) < a.nodes@.len());
                    assert(self.nodes@[self.nodes@[i].children@[j].0 as int] == a.nodes@[a.nodes@[i].children@[j].0 as int]);
                }
            }
        }
        id
    }

    /// Puts `child` into `parent`'s child list before `before` (or at the end) and records the
    /// parent on the child.
    pub(crate) fn attach(&mut self, parent: NodeId, before: Option<NodeId>, child: NodeId)
        requires
            old(self).wf(),
            parent != child,
            old(self).has(parent),
            old(self).has(child),
            old(self).at(parent).kind is Element,
        ensures
            final(self).wf(),
            grew(*old(self), *final(self)),
            final(self).nodes@.len() == old(self).nodes@.len(),
            final(self).at(child).parent == Some(parent),
            final(self).kids(parent).contains(child),
            kid_inserted(old(self).kids(parent), final(self).kids(parent), before, child),
            forall|k: int| 0 <= k < old(self).nodes@.len() && k != parent.0 as int && k != child.0 as int ==> final(self).nodes@[k] == old(self).nodes@[k],
            final(self).at(parent).parent == old(self).at(parent).parent,
            final(self).at(parent).kind == old(self).at(parent).kind,
            final(self).at(parent).dirty == old(self).at(parent).dirty,
            final(self).at(child).kind == old(self).at(child).kind,
            parent != child ==> final(self).at(child).dirty == old(self).at(child).dirty,
            parent != child ==> final(self).at(child).children == old(self).at(child).children,
    {
        let pos = match before {
            Some(b) => self.child_index(parent, b),
            None => None,
        };
        let ghost before_nodes = self.nodes@;
        let pi = parent.0 as usize;
        match pos {
            Some(i) => {
                self.nodes[pi].children.insert(i, child);
                assert(self.nodes@[pi as int].children@[i as int] == child);
            },
            None => {
                self.nodes[pi].children.push(child);
                assert(self.nodes@[pi as int].children@.last() == child);
            },
        }
        let ghost mid = self.nodes@;
        proof {
            assert forall|k: int| 0 <= k < self.nodes@.len() && k != pi as int implies #[trigger] self.nodes@[k]
                == before_nodes[k] by {}
            assert forall|j: int| 0 <= j < self.nodes@[pi as int].children@.len() implies (
            #[trigger] self.nodes@[pi as int].children@[j].0 as int) < self.nodes@.len() by {
                let cs = self.nodes@[pi as int].children@;
                let old_cs = before_nodes[pi as int].children@;
                if let Some(i) = pos {
                    assert(cs == old_cs.insert(i as int, child));
                    if j < i {
                        assert(cs[j] == old_cs[j]);
                    } else if j > i {
                        assert(cs[j] == old_cs[j - 1]);
                    }
                } else {
                    assert(cs == old_cs.push(child));
                    if j < old_cs.len() {
                        assert(cs[j] == old_cs[j]);
                    }
                }
            }
        }
        self.nodes[child.0 as usize].parent = Some(parent);
        proof {
            assert forall|k: int| 0 <= k < self.nodes@.len() implies #[trigger] self.nodes@[k].children@
                == mid[k].children@ && self.nodes@[k].kind == mid[k].kind && (k != child.0 as int
                ==> self.nodes@[k].parent == mid[k].parent) by {}
            let cs = self.nodes@[pi as int].children@;
            if let Some(i) = pos {
                assert(cs[i as int] == child);
            } else {
                assert(cs[cs.len() - 1] == child);
            }
            reveal(Dom::kids_parented);
            let a = *old(self);
            assert forall|x: int, j: int|
                0 <= x < self.nodes@.len() && 0 <= j < self.nodes@[x].children@.len() && (self.nodes@[x].children@[j].0 as int) < self.nodes@.len()
                implies #[trigger] self.nodes@[self.nodes@[x].children@[j].0 as int].parent is Some by {
                let c = self.nodes@[x].children@[j];
                if c != child {
                    if x != pi as int {
                        assert(self.nodes@[x].children@ == mid[x].children@);
                        assert(mid[x] == before_nodes[x]);
                        assert(before_nodes[x].children@[j] == c);
                    } else {
                        let old_cs = before_nodes[pi as int].children@;
                        assert(cs == mid[pi as int].children@);
                        if let Some(i) = pos {
                            assert(cs == old_cs.insert(i as int, child));
                            if j < i {
                                assert(old_cs[j] == c);
                            } else {
                                assert(old_cs[j - 1] == c);
                            }
                        } else {
                            assert(cs == old_cs.push(child));
                            assert(old_cs[j] == c);
                        }
                    }
                    assert(self.nodes@[c.0 as int].parent == mid[c.0 as int].parent);
                    assert(mid[c.0 as int] == before_nodes[c.0 as int] || c.0 as int == pi as int);
                }
            }
        }
    }

    /// Removes the first occurrence of `child` from its parent's child list (the child keeps
    /// its parent field until it is attached elsewhere).
    fn detach(&mut self, child: NodeId)
        requires
            old(self).wf(),
            old(self).has(child),
        ensures
            final(self).wf(),
            grew(*old(self), *final(self)),
            final(self).nodes@.len() == old(self).nodes@.len(),
            match old(self).at(child).parent {
                Some(p) => if old(self).kids(p).contains(child) {
                    exists|i: int| #![trigger old(self).kids(p)[i]] 0 <= i < old(self).kids(p).len() && old(self).kids(p)[i] == child
                        && (forall|j: int| 0 <= j < i ==> old(self).kids(p)[j] != child)
                        && final(self).kids(p) == old(self).kids(p).remove(i)
                        && same_but(*old(self), *final(self), p)
                        && final(self).at(p).kind == old(self).at(p).kind
                        && final(self).at(p).dirty == old(self).at(p).dirty
                } else {
                    *final(self) == *old(self)
                },
                None => *final(self) == *old(self),
            },
    {
        let p = match self.nodes[child.0 as usize].parent {
            Some(p) => p,
            None => {
                return;
            },
        };
        let pos = self.child_index(p, child);
        if let Some(i) = pos {
            let pi = p.0 as usize;
            let ghost before_nodes = self.nodes@;
            self.nodes[pi].children.remove(i);
            proof {
                assert(before_nodes[pi as int].children@[i as int] == child);
                assert forall|k: int| 0 <= k < self.nodes@.len() && k != pi as int implies #[trigger] self.nodes@[k]
                    == before_nodes[k] by {}
                assert forall|j: int| 0 <= j < self.nodes@[pi as int].children@.len() implies (
                #[trigger] self.nodes@[pi as int].children@[j].0 as int) < self.nodes@.len() by {
                    let cs = self.nodes@[pi as int].children@;
                    let old_cs = before_nodes[pi as int].children@;
                    assert(cs == old_cs.remove(i as int));
                    if j < i {
                        assert(cs[j] == old_cs[j]);
                    } else {
                        assert(cs[j] == old_cs[j + 1]);
                    }
                }
                reveal(Dom::kids_parented);
                let a = *old(self);
                assert forall|x: int, j: int|
                    0 <= x < self.nodes@.len() && 0 <= j < self.nodes@[x].children@.len() && (self.nodes@[x].children@[j].0 as int) < self.nodes@.len()
                    implies #[trigger] self.nodes@[self.nodes@[x].children@[j].0 as int].parent is Some by {
                    let c = self.nodes@[x].children@[j];
                    if x != pi as int {
                        assert(self.nodes@[x] == before_nodes[x]);
                    } else {
                        let cs = self.nodes@[pi as int].children@;
                        let old_cs = before_nodes[pi as int].children@;
                        assert(cs == old_cs.remove(i as int));
                        if j < i {
                            assert(old_cs[j] == c);
                        } else {
                            assert(old_cs[j + 1] == c);
                        }
                    }
                    assert(self.nodes@[c.0 as int].parent == before_nodes[c.0 as int].parent);
                }
            }
        }
    }

    /// Appends the nodes of a new subtree to the arena; returns the id of its root.
    fn materialize(&mut self, parent: Option<NodeId>, e: &NewElement) -> (r: Option<NodeId>)
        requires
            old(self).wf(),
            parent matches Some(p) ==> old(self).has(p) && old(self).at(p).kind is Element,
        ensures
            final(self).wf(),
            grew(*old(self), *final(self)),
            r matches Some(n) ==> final(self).fresh_in(old(self).nodes@.len(), n)
                && final(self).at(n).parent == parent && final(self).at(n).kind is Element
                && final(self).name_of(n) == Some(e.name) && made_from(*final(self), n, *e)
                && final(self).at(n).dirty == Dirty::New,
            r is None ==> final(self).nodes@.len() + 2 >= u32::MAX,
            forall|k: int| 0 <= k < old(self).nodes@.len() ==> final(self).nodes@[k] == old(self).nodes@[k],
        decreases e,
    {
        let ghost entry = *self;
        if self.nodes.len() >= (u32::MAX - 2) as usize {
            return None;
        }
        let attrs = crate::edit::attrs_of(&e.attrs);
        assert(attr_pairs(attrs@) =~= new_attrs(e.attrs@));
        let id = self.push_node(NodeKind::Element(Element { name: e.name, attrs }), parent);
        let ghost len0 = entry.nodes@.len();
        let ghost k0 = self.at(id).kind;
        assert(self.name_of(id) == Some(e.name));
        for i in 0..e.children.len()
            invariant
                self.wf(),
                grew(entry, *self),
                entry == *old(self),
                len0 == entry.nodes@.len(),
                self.fresh_in(len0, id),
                id.0 == len0,
                self.at(id).parent == parent,
                self.at(id).kind is Element,
                self.at(id).kind == k0,
                k0 matches NodeKind::Element(el) && el.name == e.name && attr_pairs(el.attrs@) == new_attrs(e.attrs@),
                self.at(id).dirty == Dirty::New,
                forall|k: int| 0 <= k < len0 ==> self.nodes@[k] == entry.nodes@[k],
        {
            match &e.children[i] {
                NewNode::Element(c) => {
                    let ghost before = *self;
                    match self.materialize(Some(id), c) {
                        Some(k) => {
                            self.attach(id, None, k);
                        },
                        None => {
                            return Some(id);
                        },
                    }
                },
                NewNode::Text(t) => {
                    if self.nodes.len() >= (u32::MAX - 2) as usize {
                        return Some(id);
                    }
                    let k = self.push_node(NodeKind::Text(t.clone()), Some(id));
                    self.attach(id, None, k);
                },
            }
        }
        Some(id)
    }

    /// Appends a deep copy of the live subtree at `src` (at most `fuel` levels deep).
    fn clone_subtree(&mut self, src: NodeId, parent: Option<NodeId>, fuel: usize) -> (r: Option<NodeId>)
        requires
            old(self).wf(),
            parent matches Some(p) ==> old(self).has(p) && old(self).at(p).kind is Element,
        ensures
            final(self).wf(),
            grew(*old(self), *final(self)),
            r matches Some(n) ==> final(self).fresh_in(old(self).nodes@.len(), n)
                && final(self).at(n).parent == parent
                && (final(self).at(n).kind is Element <==> old(self).at(src).kind is Element),
            r is None ==> !old(self).has(src) || fuel == 0 || final(self).nodes@.len() + 2 >= u32::MAX,
            forall|k: int| 0 <= k < old(self).nodes@.len() ==> final(self).nodes@[k] == old(self).nodes@[k],
        decreases fuel,
    {
        let ghost entry = *self;
        if fuel == 0 || (src.0 as usize) >= self.nodes.len() || self.nodes.len() >= (u32::MAX - 2) as usize {
            return None;
        }
        let kind = match &self.nodes[src.0 as usize].kind {
            NodeKind::Element(e) => NodeKind::Element(Element {
                name: e.name,
                attrs: crate::edit::copy_dom_attrs(&e.attrs),
            }),
            NodeKind::Text(t) => NodeKind::Text(t.clone()),
        };
        let is_elem = matches!(kind, NodeKind::Element(_));
        let kids = self.nodes[src.0 as usize].children.clone();
        let id = self.push_node(kind, parent);
        if !is_elem {
            return Some(id);
        }
        let ghost len0 = entry.nodes@.len();
        for i in 0..kids.len()
            invariant
                self.wf(),
                grew(entry, *self),
                entry == *old(self),
                len0 == entry.nodes@.len(),
                self.fresh_in(len0, id),
                id.0 == len0,
                fuel > 0,
                self.at(id).parent == parent,
                self.at(id).kind is Element,
                entry.at(src).kind is Element,
                forall|k: int| 0 <= k < len0 ==> self.nodes@[k] == entry.nodes@[k],
        {
            let c = kids[i];
            if self.is_live(c) {
                match self.clone_subtree(c, Some(id), fuel - 1) {
                    Some(k) => {
                        self.attach(id, None, k);
                    },
                    None => {},
                }
            }
        }
        Some(id)
    }

    /// Resolves a target against the ids created so far.
    pub open spec fn resolve(&self, t: Target, created: Seq<Option<NodeId>>) -> Option<NodeId> {
        match t {
            Target::Node(n) => if self.has(n) { Some(n) } else { None },
            Target::New(k) => if k < created.len() { created[k as int] } else { None },
        }
    }

    fn resolve_exec(&self, t: Target, created: &Vec<Option<NodeId>>) -> (r: Option<NodeId>)
        ensures
            r == self.resolve(t, created@),
    {
        match t {
            Target::Node(n) => if (n.0 as usize) < self.nodes.len() {
                Some(n)
            } else {
                None
            },
            Target::New(k) => if k < created.len() {
                created[k]
            } else {
                None
            },
        }
    }

    fn element_at(&self, n: NodeId) -> (r: bool)
        ensures
            r == (self.has(n) && self.at(n).kind is Element),
    {
        (n.0 as usize) < self.nodes.len() && matches!(self.nodes[n.0 as usize].kind, NodeKind::Element(_))
    }

    /// Applies one edit; returns the id it created, if any.
    #[verifier::rlimit(80)]
    fn apply_one(&mut self, edit: &NodeEdit, created: &Vec<Option<NodeId>>) -> (r: Option<NodeId>)
        requires
            old(self).wf(),
            forall|k: int| 0 <= k < created@.len() ==> (#[trigger] created@[k] matches Some(n) ==> old(self).has(n)),
        ensures
            final(self).wf(),
            grew(*old(self), *final(self)),
            r matches Some(n) ==> edit.spec_creates() && final(self).fresh_in(old(self).nodes@.len(), n)
                && (final(self).at(n).kind is Element <==> creates_element(*old(self), *edit)),
            edit.spec_creates() && one_ready(*old(self), *edit, created@) && final(self).nodes@.len() + 2 < u32::MAX ==> r is Some,
            edit_effect(*old(self), *edit, created@, *final(self), r),
    {
        match edit {
            NodeEdit::Insert { parent, before, node } => {
                let p = match self.resolve_exec(*parent, created) {
                    Some(p) => p,
                    None => {
                        return None;
                    },
                };
                if !self.element_at(p) {
                    return None;
                }
                let n = match self.materialize(Some(p), node) {
                    Some(n) => n,
                    None => {
                        return None;
                    },
                };
                self.attach(p, *before, n);
                Some(n)
            },
            NodeEdit::InsertClone { parent, before, source } => {
                let p = match self.resolve_exec(*parent, created) {
                    Some(p) => p,
                    None => {
                        return None;
                    },
                };
                if !self.element_at(p) || (source.0 as usize) >= self.nodes.len() {
                    return None;
                }
                let fuel = self.nodes.len();
                let n = match self.clone_subtree(*source, Some(p), fuel) {
                    Some(n) => n,
                    None => {
                        return None;
                    },
                };
                self.attach(p, *before, n);
                Some(n)
            },
            NodeEdit::Replace { old, node } => {
                let p = match self.parent(*old) {
                    Some(p) => p,
                    None => {
                        return None;
                    },
                };
                if !self.element_at(p) {
                    return None;
                }
                let n = match self.materialize(Some(p), node) {
                    Some(n) => n,
                    None => {
                        return None;
                    },
                };
                self.attach(p, Some(*old), n);
                self.delete(*old);
                Some(n)
            },
            NodeEdit::ReplaceClone { old, source } => {
                let p = match self.parent(*old) {
                    Some(p) => p,
                    None => {
                        return None;
                    },
                };
                if !self.element_at(p) || (source.0 as usize) >= self.nodes.len() {
                    return None;
                }
                let fuel = self.nodes.len();
                let n = match self.clone_subtree(*source, Some(p), fuel) {
                    Some(n) => n,
                    None => {
                        return None;
                    },
                };
                self.attach(p, Some(*old), n);
                self.delete(*old);
                Some(n)
            },
            NodeEdit::Delete(n) => {
                self.delete(*n);
                None
            },
            NodeEdit::SetAttr { node, name, value } => {
                if let Some(n) = self.resolve_exec(*node, created) {
                    self.set_attr(n, *name, value.clone());
                }
                None
            },
            NodeEdit::RemoveAttr { node, name } => {
                if let Some(n) = self.resolve_exec(*node, created) {
                    self.remove_attr(n, *name);
                }
                None
            },
            NodeEdit::SetText { node, text } => {
                self.set_text(*node, text.clone());
                None
            },
            NodeEdit::Rename { node, name } => {
                self.rename(*node, *name);
                None
            },
            NodeEdit::Move { node, parent, before } => {
                let p = match self.resolve_exec(*parent, created) {
                    Some(p) => p,
                    None => {
                        return None;
                    },
                };
                if !self.element_at(p) || (node.0 as usize) >= self.nodes.len() || p == *node {
                    return None;
                }
                self.detach(*node);
                self.attach(p, *before, *node);
                self.set_dirty_if_clean(*node);
                None
            },
        }
    }

    /// Sets attribute `name` of element `n` (replacing the first one of that name, else
    /// appending it) and marks the node dirty; nothing happens when `n` is no element.
    pub fn set_attr(&mut self, n: NodeId, name: QName, value: String)
        requires
            old(self).wf(),
        ensures
            final(self).wf(),
            grew(*old(self), *final(self)),
            final(self).nodes@.len() == old(self).nodes@.len(),
            match (if old(self).has(n) { Some(old(self).at(n).kind) } else { None }) {
                Some(NodeKind::Element(e)) => attrs_became(*old(self), *final(self), n, e.name,
                    with_attr(attr_pairs(e.attrs@), name, value@)),
                _ => *final(self) == *old(self),
            },
    {
        if (n.0 as usize) >= self.nodes.len() {
            return;
        }
        let i = n.0 as usize;
        let ghost before = self.nodes@;
        if let NodeKind::Element(e) = &self.nodes[i].kind {
            let ghost ov = attr_pairs(e.attrs@);
            let mut attrs = copy_dom_attrs(&e.attrs);
            assert(attr_pairs(attrs@) =~= ov);
            let qname = e.name;
            let mut k: usize = 0;
            while k < attrs.len() && attrs[k].name != name
                invariant
                    attr_pairs(attrs@) == ov,
                    k <= attrs@.len(),
                    attr_pos(ov, name, 0) == attr_pos(ov, name, k as int),
                decreases attrs.len() - k,
            {
                k = k + 1;
            }
            if k < attrs.len() {
                attrs.set(k, Attr { name, value: value.clone() });
                proof {
                    assert(attr_pairs(attrs@) =~= ov.update(k as int, (name, value@)));
                }
            } else {
                attrs.push(Attr { name, value });
                proof {
                    assert(attr_pairs(attrs@) =~= ov.push((name, value@)));
                }
            }
            assert(attr_pairs(attrs@) == with_attr(ov, name, value@));
            self.nodes[i].kind = NodeKind::Element(Element { name: qname, attrs });
            proof {
                assert forall|k: int| 0 <= k < self.nodes@.len() implies #[trigger] self.nodes@[k].children@
                    == before[k].children@ && self.nodes@[k].parent == before[k].parent
                    && (self.nodes@[k].kind is Element <==> before[k].kind is Element) && (self.nodes@[k].kind is Text ==> before[k].kind is Text) by {}
                Dom::lemma_kids_parented_kept(*old(self), *self);
            }
            self.set_dirty_if_clean(n);
        }
    }

    /// Removes the first attribute `name` of element `n` and marks the node dirty; nothing
    /// happens when `n` is no element.
    pub fn remove_attr(&mut self, n: NodeId, name: QName)
        requires
            old(self).wf(),
        ensures
            final(self).wf(),
            grew(*old(self), *final(self)),
            final(self).nodes@.len() == old(self).nodes@.len(),
            match (if old(self).has(n) { Some(old(self).at(n).kind) } else { None }) {
                Some(NodeKind::Element(e)) => attrs_became(*old(self), *final(self), n, e.name,
                    without_attr(attr_pairs(e.attrs@), name)),
                _ => *final(self) == *old(self),
            },
    {
        if (n.0 as usize) >= self.nodes.len() {
            return;
        }
        let i = n.0 as usize;
        let ghost before = self.nodes@;
        if let NodeKind::Element(e) = &self.nodes[i].kind {
            let old_attrs = &e.attrs;
            let ghost ov = attr_pairs(e.attrs@);
            let qname = e.name;
            let mut k0: usize = 0;
            while k0 < old_attrs.len() && old_attrs[k0].name != name
                invariant
                    ov == attr_pairs(old_attrs@),
                    k0 <= old_attrs@.len(),
                    attr_pos(ov, name, 0) == attr_pos(ov, name, k0 as int),
                decreases old_attrs.len() - k0,
            {
                k0 = k0 + 1;
            }
            let mut attrs: Vec<Attr> = Vec::new();
            let mut k: usize = 0;
            while k < old_attrs.len()
                invariant
                    ov == attr_pairs(old_attrs@),
                    k0 <= old_attrs@.len(),
                    k <= old_attrs@.len(),
                    k <= k0 ==> attr_pairs(attrs@) == ov.take(k as int),
                    k > k0 ==> attr_pairs(attrs@) == ov.take(k0 as int) + ov.subrange(k0 + 1, k as int),
                decreases old_attrs.len() - k,
            {
                let ghost prev = attrs@;
                if k != k0 {
                    attrs.push(Attr { name: old_attrs[k].name, value: old_attrs[k].value.clone() });
                    proof {
                        assert(attr_pairs(attrs@) =~= attr_pairs(prev).push(ov[k as int]));
                        if k < k0 {
                            assert(ov.take(k + 1) =~= ov.take(k as int).push(ov[k as int]));
                        } else {
                            assert(ov.subrange(k0 + 1, k + 1) =~= ov.subrange(k0 + 1, k as int).push(ov[k as int]));
                            assert(ov.take(k0 as int) + ov.subrange(k0 + 1, k + 1) =~= (ov.take(k0 as int) + ov.subrange(k0 + 1, k as int)).push(ov[k as int]));
                        }
                    }
                } else {
                    proof {
                        assert(ov.subrange(k0 + 1, k + 1) =~= Seq::<(QName, Seq<char>)>::empty());
                        assert(ov.take(k0 as int) + ov.subrange(k0 + 1, k + 1) =~= ov.take(k0 as int));
                    }
                }
                k = k + 1;
            }
            proof {
                if k0 < ov.len() {
                    assert(ov.take(k0 as int) + ov.subrange(k0 + 1, ov.len() as int) =~= ov.remove(k0 as int));
                } else {
                    assert(ov.take(ov.len() as int) =~= ov);
                }
            }
            assert(attr_pairs(attrs@) == without_attr(ov, name));
            self.nodes[i].kind = NodeKind::Element(Element { name: qname, attrs });
            proof {
                assert forall|k: int| 0 <= k < self.nodes@.len() implies #[trigger] self.nodes@[k].children@
                    == before[k].children@ && self.nodes@[k].parent == before[k].parent
                    && (self.nodes@[k].kind is Element <==> before[k].kind is Element) && (self.nodes@[k].kind is Text ==> before[k].kind is Text) by {}
                Dom::lemma_kids_parented_kept(*old(self), *self);
            }
            self.set_dirty_if_clean(n);
        }
    }

    /// Replaces the text of text node `n` and marks it dirty; nothing happens when `n` is no
    /// text node.
    pub fn set_text(&mut self, n: NodeId, text: String)
        requires
            old(self).wf(),
        ensures
            final(self).wf(),
            grew(*old(self), *final(self)),
            final(self).nodes@.len() == old(self).nodes@.len(),
            if old(self).has(n) && old(self).at(n).kind is Text {
                touched(*old(self), *final(self), n, NodeKind::Text(text))
            } else {
                *final(self) == *old(self)
            },
    {
        if (n.0 as usize) >= self.nodes.len() {
            return;
        }
        let i = n.0 as usize;
        if matches!(self.nodes[i].kind, NodeKind::Text(_)) {
            let ghost before = self.nodes@;
            self.nodes[i].kind = NodeKind::Text(text);
            proof {
                assert forall|k: int| 0 <= k < self.nodes@.len() implies #[trigger] self.nodes@[k].children@
                    == before[k].children@ && self.nodes@[k].parent == before[k].parent
                    && (self.nodes@[k].kind is Element <==> before[k].kind is Element) && (self.nodes@[k].kind is Text ==> before[k].kind is Text) by {}
                Dom::lemma_kids_parented_kept(*old(self), *self);
            }
            self.set_dirty_if_clean(n);
        }
    }

    /// Renames element `n` (attributes kept) and marks it dirty; nothing happens when `n` is
    /// no element.
    pub fn rename(&mut self, n: NodeId, name: QName)
        requires
            old(self).wf(),
        ensures
            final(self).wf(),
            grew(*old(self), *final(self)),
            final(self).nodes@.len() == old(self).nodes@.len(),
            match (if old(self).has(n) { Some(old(self).at(n).kind) } else { None }) {
                Some(NodeKind::Element(e)) => attrs_became(*old(self), *final(self), n, name, attr_pairs(e.attrs@)),
                _ => *final(self) == *old(self),
            },
    {
        if (n.0 as usize) >= self.nodes.len() {
            return;
        }
        let i = n.0 as usize;
        let ghost before = self.nodes@;
        if let NodeKind::Element(e) = &self.nodes[i].kind {
            let attrs = copy_dom_attrs(&e.attrs);
            assert(attr_pairs(attrs@) =~= attr_pairs(e.attrs@));
            self.nodes[i].kind = NodeKind::Element(Element { name, attrs });
            proof {
                assert forall|k: int| 0 <= k < self.nodes@.len() implies #[trigger] self.nodes@[k].children@
                    == before[k].children@ && self.nodes@[k].parent == before[k].parent
                    && (self.nodes@[k].kind is Element <==> before[k].kind is Element) && (self.nodes@[k].kind is Text ==> before[k].kind is Text) by {}
                Dom::lemma_kids_parented_kept(*old(self), *self);
            }
            self.set_dirty_if_clean(n);
        }
    }

    /// Applies the edits in order; the i-th entry of the result is the node the i-th edit
    /// created (`None` for edits that create nothing).
    pub fn apply_edits(&mut self, edits: &Vec<NodeEdit>) -> (created: Vec<Option<NodeId>>)
        requires
            old(self).wf(),
        ensures
            final(self).wf(),
            grew(*old(self), *final(self)),
            created@.len() == edits@.len(),
            forall|i: int| 0 <= i < created@.len() ==> (#[trigger] created@[i] matches Some(n) ==> edits@[i].spec_creates()
                && final(self).fresh_in(old(self).nodes@.len(), n)),
            plan_valid(*old(self), edits@) && new_parents_are_elements(*old(self), edits@)
                && final(self).nodes@.len() + 2 < u32::MAX ==> forall|i: int| 0 <= i < created@.len()
                ==> (#[trigger] created@[i] is Some <==> edits@[i].spec_creates()),
            applied(*old(self), edits@, created@, *final(self)),
    {
        let ghost orig = *self;
        let mut created: Vec<Option<NodeId>> = Vec::new();
        let ghost mut trace: Seq<Dom> = seq![*self];
        for i in 0..edits.len()
            invariant
                trace.len() == i + 1,
                trace[0] == orig,
                trace[i as int] == *self,
                forall|k: int| #![trigger edits@[k]] 0 <= k < i ==> edit_effect(trace[k], edits@[k], created@.take(k), trace[k + 1], created@[k]),
                self.wf(),
                orig == *old(self),
                grew(orig, *self),
                created@.len() == i,
                forall|k: int| 0 <= k < created@.len() ==> (#[trigger] created@[k] matches Some(n) ==> edits@[k].spec_creates()
                    && self.fresh_in(orig.nodes@.len(), n)
                    && (creates_element(orig, edits@[k]) ==> self.at(n).kind is Element)),
                plan_valid(orig, edits@) && new_parents_are_elements(orig, edits@) ==> forall|k: int| 0 <= k < created@.len()
                    ==> (edits@[k].spec_creates() && #[trigger] created@[k] is None ==> self.nodes@.len() + 2 >= u32::MAX),
        {
            let ghost before = *self;
            proof {
                if plan_valid(orig, edits@) && new_parents_are_elements(orig, edits@) && self.nodes@.len() + 2 < u32::MAX {
                    lemma_ready(orig, *self, edits@, created@, i as int);
                }
            }
            let r = self.apply_one(&edits[i], &created);
            proof {
                lemma_created_kinds(orig, before, *self, edits@, created@);
                if r is Some {
                    lemma_same_creates_element(orig, before, edits@[i as int]);
                }
            }
            let ghost prev = created@;
            created.push(r);
            proof {
                assert(prev =~= created@.take(i as int));
                assert forall|k: int| 0 <= k < i implies created@.take(k) =~= prev.take(k) by {}
                trace = trace.push(*self);
            }
        }
        proof {
            assert(applied_through(orig, edits@, created@, trace, *self));
        }
        created
    }
}

proof fn lemma_ready(orig: Dom, cur: Dom, edits: Seq<NodeEdit>, created: Seq<Option<NodeId>>, i: int)
    requires
        cur.wf(),
        grew(orig, cur),
        0 <= i < edits.len(),
        created.len() == i,
        plan_valid(orig, edits),
        new_parents_are_elements(orig, edits),
        cur.nodes@.len() + 2 < u32::MAX,
        forall|k: int| 0 <= k < created.len() ==> (#[trigger] created[k] matches Some(n) ==> cur.has(n)
            && (creates_element(orig, edits[k]) ==> cur.at(n).kind is Element)),
        forall|k: int| 0 <= k < created.len() ==> (edits[k].spec_creates() && #[trigger] created[k] is None ==> cur.nodes@.len() + 2 >= u32::MAX),
    ensures
        one_ready(cur, edits[i], created),
{
    assert(edit_ok(orig, edits, i));
    match edits[i] {
        NodeEdit::Insert { parent, .. } => {
            match parent {
                Target::New(k) => {
                    assert(created[k as int] is Some);
                    assert(edits[i] == edits[i]);
                },
                Target::Node(n) => {
                    assert(orig.nodes@[n.0 as int].kind is Element);
                    assert(cur.nodes@[n.0 as int].kind is Element);
                },
            }
        },
        NodeEdit::InsertClone { parent, .. } => {
            match parent {
                Target::New(k) => {
                    assert(created[k as int] is Some);
                    assert(edits[i] == edits[i]);
                },
                Target::Node(n) => {
                    assert(orig.nodes@[n.0 as int].kind is Element);
                    assert(cur.nodes@[n.0 as int].kind is Element);
                },
            }
        },
        NodeEdit::Replace { old, .. } => {
            assert(orig.nodes@[old.0 as int].parent is Some);
        },
        NodeEdit::ReplaceClone { old, .. } => {
            assert(orig.nodes@[old.0 as int].parent is Some);
        },
        _ => {},
    }
}

proof fn lemma_created_kinds(orig: Dom, before: Dom, after: Dom, edits: Seq<NodeEdit>, created: Seq<Option<NodeId>>)
    requires
        grew(before, after),
        created.len() <= edits.len(),
        forall|k: int| 0 <= k < created.len() ==> (#[trigger] created[k] matches Some(n) ==> edits[k].spec_creates()
            && before.fresh_in(orig.nodes@.len(), n)
            && (creates_element(orig, edits[k]) ==> before.at(n).kind is Element)),
    ensures
        forall|k: int| 0 <= k < created.len() ==> (#[trigger] created[k] matches Some(n) ==> edits[k].spec_creates()
            && after.fresh_in(orig.nodes@.len(), n)
            && (creates_element(orig, edits[k]) ==> after.at(n).kind is Element)),
{
    assert forall|k: int| 0 <= k < created.len() implies (#[trigger] created[k] matches Some(n) ==> edits[k].spec_creates()
        && after.fresh_in(orig.nodes@.len(), n)
        && (creates_element(orig, edits[k]) ==> after.at(n).kind is Element)) by {
        if let Some(n) = created[k] {
            assert(before.nodes@[n.0 as int].kind is Element <==> after.nodes@[n.0 as int].kind is Element);
        }
    }
}

proof fn lemma_same_creates_element(orig: Dom, cur: Dom, e: NodeEdit)
    requires
        grew(orig, cur),
    ensures
        (match e {
            NodeEdit::InsertClone { source, .. } | NodeEdit::ReplaceClone { source, .. } => orig.has(source),
            _ => true,
        }) ==> creates_element(cur, e) == creates_element(orig, e),
{
    match e {
        NodeEdit::InsertClone { source, .. } => {
            if orig.has(source) {
                assert(orig.nodes@[source.0 as int].kind is Element <==> cur.nodes@[source.0 as int].kind is Element);
            }
        },
        NodeEdit::ReplaceClone { source, .. } => {
            if orig.has(source) {
                assert(orig.nodes@[source.0 as int].kind is Element <==> cur.nodes@[source.0 as int].kind is Element);
            }
        },
        _ => {},
    }
}

/// Attribute records for a new subtree's attribute list.
pub fn attrs_of(a: &Vec<(QName, String)>) -> (r: Vec<Attr>)
    ensures
        r@.len() == a@.len(),
        forall|i: int| 0 <= i < a@.len() ==> r@[i].name == a@[i].0 && r@[i].value@ == a@[i].1@,
{
    let mut r: Vec<Attr> = Vec::new();
    for i in 0..a.len()
        invariant
            r@.len() == i,
            forall|j: int| 0 <= j < i ==> r@[j].name == a@[j].0 && r@[j].value@ == a@[j].1@,
    {
        r.push(Attr { name: a[i].0, value: a[i].1.clone() });
    }
    r
}

/// Copy of a parsed attribute list.
pub fn copy_dom_attrs(a: &Vec<Attr>) -> (r: Vec<Attr>)
    ensures
        r@.len() == a@.len(),
        forall|i: int| 0 <= i < a@.len() ==> r@[i].name == a@[i].name && r@[i].value@ == a@[i].value@,
{
    let mut r: Vec<Attr> = Vec::new();
    for i in 0..a.len()
        invariant
            r@.len() == i,
            forall|j: int| 0 <= j < i ==> r@[j].name == a@[j].name && r@[j].value@ == a@[j].value@,
    {
        r.push(Attr { name: a[i].name, value: a[i].value.clone() });
    }
    r
}

} // verus!
