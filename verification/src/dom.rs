use vstd::prelude::*;
use crate::ids::{NodeId, PartId};
use crate::xml::{QName, LocalName, NsId};

verus! {

/// Dirty state of a node since the part was parsed.
#[derive(Debug, Clone, Copy, PartialEq, Eq, Structural)]
pub enum Dirty {
    /// Untouched since parsing.
    Clean,
    /// The node's own name, attributes or text changed.
    SelfDirty,
    /// Created by an edit.
    New,
    /// Removed by an edit (kept in the arena, filtered from live queries).
    Deleted,
}

/// An attribute of a parsed element.
#[derive(Debug)]
pub struct Attr {
    pub name: QName,
    pub value: String,
}

/// The element part of a node.
#[derive(Debug)]
pub struct Element {
    pub name: QName,
    pub attrs: Vec<Attr>,
}

/// What a node is.
#[derive(Debug)]
pub enum NodeKind {
    Element(Element),
    Text(String),
}

/// One node of the arena.
#[derive(Debug)]
pub struct Node {
    pub kind: NodeKind,
    pub parent: Option<NodeId>,
    pub children: Vec<NodeId>,
    pub dirty: Dirty,
}

/// The value of the first attribute named `q` at or after index `j`.
pub open spec fn first_attr(a: Seq<Attr>, q: QName, j: int) -> Option<Seq<char>>
    decreases a.len() - j,
{
    if j < 0 || j >= a.len() {
        None
    } else if a[j].name == q {
        Some(a[j].value@)
    } else {
        first_attr(a, q, j + 1)
    }
}

/// Pushes the items of `v` onto `stack` from last to first.
pub fn push_reversed(stack: &mut Vec<NodeId>, v: &Vec<NodeId>)
    ensures
        final(stack)@ == old(stack)@ + v@.reverse(),
{
    let mut j: usize = v.len();
    while j > 0
        invariant
            j <= v@.len(),
            stack@ == old(stack)@ + v@.subrange(j as int, v@.len() as int).reverse(),
        decreases j,
    {
        j = j - 1;
        let ghost before = stack@;
        stack.push(v[j]);
        proof {
            assert(v@.subrange(j as int, v@.len() as int).reverse() =~= v@.subrange(j + 1, v@.len() as int).reverse().push(v@[j as int]));
            assert(stack@ =~= old(stack)@ + v@.subrange(j as int, v@.len() as int).reverse());
        }
    }
    proof {
        assert(v@.subrange(0, v@.len() as int) =~= v@);
    }
}

/// A part's XML tree as an arena of nodes addressed by [`NodeId`].
#[derive(Debug)]
pub struct Dom {
    pub part: PartId,
    pub nodes: Vec<Node>,
    pub root: NodeId,
}

impl Dom {
    /// Number of nodes in the arena.
    pub open spec fn len(&self) -> nat {
        self.nodes@.len()
    }

    /// `n` addresses a slot of the arena.
    pub open spec fn has(&self, n: NodeId) -> bool {
        (n.0 as int) < self.nodes@.len()
    }

    pub open spec fn at(&self, n: NodeId) -> Node {
        self.nodes@[n.0 as int]
    }

    pub open spec fn kids(&self, n: NodeId) -> Seq<NodeId> {
        self.at(n).children@
    }

    /// `n` exists and is not deleted.
    pub open spec fn live(&self, n: NodeId) -> bool {
        self.has(n) && self.at(n).dirty != Dirty::Deleted
    }

    /// `n` exists and is an element.
    pub open spec fn is_element(&self, n: NodeId) -> bool {
        self.has(n) && self.at(n).kind is Element
    }

    /// `n` exists and is a text node.
    pub open spec fn is_text(&self, n: NodeId) -> bool {
        self.has(n) && self.at(n).kind is Text
    }

    /// The element name of `n`, if it is an element.
    pub open spec fn name_of(&self, n: NodeId) -> Option<QName> {
        if self.has(n) {
            match self.at(n).kind {
                NodeKind::Element(e) => Some(e.name),
                NodeKind::Text(_) => None,
            }
        } else {
            None
        }
    }

    /// `n` is an element named `q`.
    pub open spec fn named(&self, n: NodeId, q: QName) -> bool {
        self.name_of(n) == Some(q)
    }

    /// Every node in a child list has a parent.
    #[verifier::opaque]
    pub open spec fn kids_parented(&self) -> bool {
        forall|i: int, j: int|
            #![trigger self.nodes@[i].children@[j]]
            0 <= i < self.nodes@.len() && 0 <= j < self.nodes@[i].children@.len()
                && (self.nodes@[i].children@[j].0 as int) < self.nodes@.len()
                ==> self.nodes@[self.nodes@[i].children@[j].0 as int].parent is Some
    }

    /// Child lists and parent links taken over unchanged keep every child parented.
    pub proof fn lemma_kids_parented_kept(a: Dom, b: Dom)
        requires
            a.kids_parented(),
            b.nodes@.len() == a.nodes@.len(),
            forall|k: int| 0 <= k < b.nodes@.len() ==> #[trigger] b.nodes@[k].children@ == a.nodes@[k].children@
                && b.nodes@[k].parent == a.nodes@[k].parent,
        ensures
            b.kids_parented(),
    {
        reveal(Dom::kids_parented);
        assert forall|i: int, j: int|
            0 <= i < b.nodes@.len() && 0 <= j < b.nodes@[i].children@.len() && (b.nodes@[i].children@[j].0 as int) < b.nodes@.len()
            implies #[trigger] b.nodes@[b.nodes@[i].children@[j].0 as int].parent is Some by {
            assert(b.nodes@[i].children@ == a.nodes@[i].children@);
            let c = b.nodes@[i].children@[j].0 as int;
            assert(a.nodes@[i].children@[j] == b.nodes@[i].children@[j]);
            assert(b.nodes@[c].children@ == a.nodes@[c].children@);
        }
    }

    /// Arena well-formedness: every id stored in the arena addresses a slot, a node in a child
    /// list has a parent, text nodes have no children, and a fresh id still fits in a `u32`.
    pub open spec fn wf(&self) -> bool {
        &&& self.has(self.root)
        &&& self.nodes@.len() < u32::MAX
        &&& forall|i: int|
            #![trigger self.nodes@[i].parent]
            0 <= i < self.nodes@.len() ==> (self.nodes@[i].parent matches Some(p) ==> (p.0 as int)
                < self.nodes@.len() && self.nodes@[p.0 as int].kind is Element)
        &&& forall|i: int, j: int|
            #![trigger self.nodes@[i].children@[j]]
            0 <= i < self.nodes@.len() && 0 <= j < self.nodes@[i].children@.len() ==> (
            self.nodes@[i].children@[j].0 as int) < self.nodes@.len()
        &&& self.kids_parented()
        &&& forall|i: int|
            #![trigger self.nodes@[i].kind]
            0 <= i < self.nodes@.len() ==> (self.nodes@[i].kind is Text
                ==> self.nodes@[i].children@.len() == 0)
    }

    /// The value of the first attribute of `n` named `q`, when `n` is an element that has one.
    pub open spec fn spec_attr(&self, n: NodeId, q: QName) -> Option<Seq<char>> {
        if self.has(n) {
            match self.at(n).kind {
                NodeKind::Element(e) => first_attr(e.attrs@, q, 0),
                NodeKind::Text(_) => None,
            }
        } else {
            None
        }
    }

    /// The live children of `n`, in order.
    pub open spec fn spec_live_children(&self, n: NodeId) -> Seq<NodeId> {
        self.kids(n).filter(|c: NodeId| self.live(c))
    }

    /// The live element children of `n`, in order.
    pub open spec fn spec_live_element_children(&self, n: NodeId) -> Seq<NodeId> {
        self.kids(n).filter(|c: NodeId| self.live(c) && self.is_element(c))
    }

    /// The live children of `n` named `q`, in order.
    pub open spec fn spec_live_children_named(&self, n: NodeId, q: QName) -> Seq<NodeId> {
        self.kids(n).filter(|c: NodeId| self.live(c) && self.named(c, q))
    }

    /// The node reached from `n` after `k` parent steps (`None` once the chain ends).
    pub open spec fn up(&self, n: NodeId, k: nat) -> Option<NodeId>
        decreases k,
    {
        if k == 0 {
            Some(n)
        } else {
            match self.up(n, (k - 1) as nat) {
                Some(x) => if self.has(x) {
                    self.at(x).parent
                } else {
                    None
                },
                None => None,
            }
        }
    }

    /// Walking up from `n` (at most `fuel` nodes), the first node whose parent is `anc`.
    pub open spec fn spec_child_toward(&self, anc: NodeId, n: NodeId, fuel: nat) -> Option<NodeId>
        decreases fuel,
    {
        if fuel == 0 || !self.has(n) {
            None
        } else {
            match self.at(n).parent {
                Some(p) => if p == anc {
                    Some(n)
                } else {
                    self.spec_child_toward(anc, p, (fuel - 1) as nat)
                },
                None => None,
            }
        }
    }

    /// `a` is `n` or on the parent chain of `n` (within `fuel` steps).
    pub open spec fn spec_ancestor_or_self(&self, a: NodeId, n: NodeId, fuel: nat) -> bool
        decreases fuel,
    {
        if n == a {
            true
        } else if fuel == 0 || !self.has(n) {
            false
        } else {
            match self.at(n).parent {
                Some(p) => self.spec_ancestor_or_self(a, p, (fuel - 1) as nat),
                None => false,
            }
        }
    }

    /// The root element.
    pub fn root(&self) -> (r: NodeId)
        ensures
            r == self.root,
    {
        self.root
    }

    /// Number of nodes in the arena (deleted ones included).
    pub fn node_count(&self) -> (r: usize)
        ensures
            r == self.len(),
    {
        self.nodes.len()
    }

    /// The node record.
    pub fn node(&self, n: NodeId) -> (r: &Node)
        requires
            self.has(n),
        ensures
            *r == self.at(n),
    {
        &self.nodes[n.0 as usize]
    }

    /// Does `n` address a slot?
    pub fn contains(&self, n: NodeId) -> (r: bool)
        ensures
            r == self.has(n),
    {
        (n.0 as usize) < self.nodes.len()
    }

    /// Is `n` a node that exists and is not deleted?
    pub fn is_live(&self, n: NodeId) -> (r: bool)
        ensures
            r == self.live(n),
    {
        (n.0 as usize) < self.nodes.len() && !matches!(self.nodes[n.0 as usize].dirty, Dirty::Deleted)
    }

    /// All children of `n` in document order, deleted ones included.
    pub fn children(&self, n: NodeId) -> (r: &Vec<NodeId>)
        requires
            self.has(n),
        ensures
            r@ == self.kids(n),
    {
        &self.nodes[n.0 as usize].children
    }

    /// The parent of `n`.
    pub fn parent(&self, n: NodeId) -> (r: Option<NodeId>)
        ensures
            r == (if self.has(n) { self.at(n).parent } else { None }),
    {
        if (n.0 as usize) < self.nodes.len() {
            self.nodes[n.0 as usize].parent
        } else {
            None
        }
    }

    /// The element record of `n`, if it is an element.
    pub fn element(&self, n: NodeId) -> (r: Option<&Element>)
        ensures
            r is Some <==> self.is_element(n),
            r matches Some(e) ==> self.at(n).kind == NodeKind::Element(*e),
    {
        if (n.0 as usize) < self.nodes.len() {
            match &self.nodes[n.0 as usize].kind {
                NodeKind::Element(e) => Some(e),
                NodeKind::Text(_) => None,
            }
        } else {
            None
        }
    }

    /// The name of `n`, if it is an element.
    pub fn name(&self, n: NodeId) -> (r: Option<QName>)
        ensures
            r == self.name_of(n),
    {
        if (n.0 as usize) < self.nodes.len() {
            match &self.nodes[n.0 as usize].kind {
                NodeKind::Element(e) => Some(e.name),
                NodeKind::Text(_) => None,
            }
        } else {
            None
        }
    }

    /// Is `n` an element named `q`?
    pub fn is(&self, n: NodeId, q: QName) -> (r: bool)
        ensures
            r == self.named(n, q),
    {
        match self.name(n) {
            Some(x) => x == q,
            None => false,
        }
    }

    /// The value of attribute `q` on element `n` (first match).
    pub fn attr(&self, n: NodeId, q: QName) -> (r: Option<&String>)
        ensures
            r matches Some(v) ==> self.spec_attr(n, q) == Some(v@),
            r is None <==> self.spec_attr(n, q) is None,
            r matches Some(v) ==> self.at(n).kind matches NodeKind::Element(e) && exists|i: int|
                0 <= i < e.attrs@.len() && e.attrs@[i].name == q && e.attrs@[i].value == *v,
            r is None ==> !(self.has(n) && (self.at(n).kind matches NodeKind::Element(e) && exists|
                i: int,
            | 0 <= i < e.attrs@.len() && e.attrs@[i].name == q)),
    {
        match self.element(n) {
            Some(e) => {
                for i in 0..e.attrs.len()
                    invariant
                        self.at(n).kind == NodeKind::Element(*e),
                        self.has(n),
                        forall|j: int| 0 <= j < i ==> e.attrs@[j].name != q,
                        first_attr(e.attrs@, q, 0) == first_attr(e.attrs@, q, i as int),
                {
                    if e.attrs[i].name == q {
                        return Some(&e.attrs[i].value);
                    }
                }
                None
            },
            None => None,
        }
    }

    /// Position of `child` in the child list of `parent`.
    pub fn child_index(&self, parent: NodeId, child: NodeId) -> (r: Option<usize>)
        ensures
            r matches Some(i) ==> self.has(parent) && i < self.kids(parent).len() && self.kids(
                parent,
            )[i as int] == child,
            r is None ==> !(self.has(parent) && self.kids(parent).contains(child)),
            r matches Some(i) ==> forall|j: int| 0 <= j < i ==> self.kids(parent)[j] != child,
    {
        if (parent.0 as usize) >= self.nodes.len() {
            return None;
        }
        let kids = &self.nodes[parent.0 as usize].children;
        for i in 0..kids.len()
            invariant
                (parent.0 as int) < self.nodes@.len(),
                kids@ == self.kids(parent),
                forall|j: int| 0 <= j < i ==> kids@[j] != child,
        {
            if kids[i] == child {
                return Some(i);
            }
        }
        None
    }

    /// Pre-order walk of the live subtrees whose roots are on `stack` (the top at the end),
    /// visiting at most `fuel` nodes.
    pub open spec fn walk(&self, stack: Seq<NodeId>, fuel: nat) -> Seq<NodeId>
        decreases fuel,
    {
        if fuel == 0 || stack.len() == 0 {
            seq![]
        } else {
            let n = stack.last();
            seq![n] + self.walk(stack.drop_last() + self.spec_live_children(n).reverse(), (fuel - 1) as nat)
        }
    }

    /// The live descendants of `n` (without `n`), in document order; a deleted node hides its
    /// subtree.
    pub open spec fn spec_descendants(&self, n: NodeId) -> Seq<NodeId> {
        self.walk(self.spec_live_children(n).reverse(), self.len())
    }

    /// Every live child of an addressed node is addressed.
    pub proof fn lemma_live_children_have(&self, n: NodeId)
        ensures
            forall|i: int| 0 <= i < self.spec_live_children(n).len() ==> self.has(#[trigger] self.spec_live_children(n)[i]),
    {
        assert forall|i: int| 0 <= i < self.spec_live_children(n).len() implies self.has(#[trigger] self.spec_live_children(n)[i]) by {
            self.kids(n).lemma_filter_pred(|c: NodeId| self.live(c), i);
        }
    }

    /// A walk from live nodes visits live nodes only.
    pub proof fn lemma_walk_live(&self, stack: Seq<NodeId>, fuel: nat)
        requires
            forall|i: int| 0 <= i < stack.len() ==> self.live(#[trigger] stack[i]),
        ensures
            forall|i: int| 0 <= i < self.walk(stack, fuel).len() ==> self.live(#[trigger] self.walk(stack, fuel)[i]),
        decreases fuel,
    {
        if fuel == 0 || stack.len() == 0 {
        } else {
            let n = stack.last();
            let lc = self.spec_live_children(n);
            let next = stack.drop_last() + lc.reverse();
            assert forall|i: int| 0 <= i < next.len() implies self.live(#[trigger] next[i]) by {
                if i < stack.len() - 1 {
                    assert(next[i] == stack[i]);
                } else {
                    let k = i - (stack.len() - 1);
                    assert(next[i] == lc.reverse()[k]);
                    assert(lc.reverse()[k] == lc[lc.len() - 1 - k]);
                    self.kids(n).lemma_filter_pred(|c: NodeId| self.live(c), lc.len() - 1 - k);
                }
            }
            self.lemma_walk_live(next, (fuel - 1) as nat);
            let w = self.walk(stack, fuel);
            assert(w == seq![n] + self.walk(next, (fuel - 1) as nat));
            assert forall|i: int| 0 <= i < w.len() implies self.live(#[trigger] w[i]) by {
                if i > 0 {
                    assert(w[i] == self.walk(next, (fuel - 1) as nat)[i - 1]);
                }
            }
        }
    }

    /// The descendants of a node are live.
    pub proof fn lemma_descendants_live(&self, n: NodeId)
        ensures
            forall|i: int| 0 <= i < self.spec_descendants(n).len() ==> self.live(#[trigger] self.spec_descendants(n)[i]),
    {
        let lc = self.spec_live_children(n);
        assert forall|i: int| 0 <= i < lc.reverse().len() implies self.live(#[trigger] lc.reverse()[i]) by {
            assert(lc.reverse()[i] == lc[lc.len() - 1 - i]);
            self.kids(n).lemma_filter_pred(|c: NodeId| self.live(c), lc.len() - 1 - i);
        }
        self.lemma_walk_live(lc.reverse(), self.len());
    }

    /// Pre-order walk of all the subtrees whose roots are on `stack` (deleted ones too),
    /// visiting at most `fuel` nodes.
    pub open spec fn walk_all(&self, stack: Seq<NodeId>, fuel: nat) -> Seq<NodeId>
        decreases fuel,
    {
        if fuel == 0 || stack.len() == 0 {
            seq![]
        } else {
            let n = stack.last();
            seq![n] + self.walk_all(stack.drop_last() + self.kids(n).reverse(), (fuel - 1) as nat)
        }
    }

    /// All descendants of `n` (without `n`), deleted ones included, in document order.
    pub open spec fn spec_all_descendants(&self, n: NodeId) -> Seq<NodeId> {
        self.walk_all(self.kids(n).reverse(), self.len())
    }

    /// All descendants of `n`, deleted ones included, in document order.
    pub fn all_descendants(&self, n: NodeId) -> (r: Vec<NodeId>)
        requires
            self.wf(),
            self.has(n),
        ensures
            r@ == self.spec_all_descendants(n),
            forall|i: int| 0 <= i < r@.len() ==> self.has(#[trigger] r@[i]),
    {
        let kids = self.children(n);
        let mut stack: Vec<NodeId> = Vec::new();
        push_reversed(&mut stack, kids);
        let mut out: Vec<NodeId> = Vec::new();
        let mut fuel: usize = self.nodes.len();
        proof {
            assert(stack@ =~= kids@.reverse());
            assert(out@ + self.walk_all(stack@, fuel as nat) =~= self.spec_all_descendants(n));
            assert forall|i: int| 0 <= i < stack@.len() implies self.has(#[trigger] stack@[i]) by {
                assert(stack@[i] == kids@[kids@.len() - 1 - i]);
            }
        }
        while fuel > 0 && stack.len() > 0
            invariant
                self.wf(),
                out@ + self.walk_all(stack@, fuel as nat) == self.spec_all_descendants(n),
                forall|i: int| 0 <= i < stack@.len() ==> self.has(#[trigger] stack@[i]),
                forall|i: int| 0 <= i < out@.len() ==> self.has(#[trigger] out@[i]),
            decreases fuel,
        {
            let ghost st = stack@;
            let x = stack.pop().unwrap();
            let ks = self.children(x);
            proof {
                assert(stack@ == st.drop_last());
            }
            let ghost mid = stack@;
            push_reversed(&mut stack, ks);
            proof {
                assert(self.walk_all(st, fuel as nat) == seq![x] + self.walk_all(stack@, (fuel - 1) as nat));
                assert(out@.push(x) + self.walk_all(stack@, (fuel - 1) as nat) =~= out@ + self.walk_all(st, fuel as nat));
                assert forall|i: int| 0 <= i < stack@.len() implies self.has(#[trigger] stack@[i]) by {
                    if i >= mid.len() {
                        assert(stack@[i] == ks@[ks@.len() - 1 - (i - mid.len())]);
                    } else {
                        assert(stack@[i] == mid[i]);
                    }
                }
            }
            out.push(x);
            fuel = fuel - 1;
        }
        proof {
            assert(self.walk_all(stack@, fuel as nat) == Seq::<NodeId>::empty());
            assert(out@ =~= out@ + self.walk_all(stack@, fuel as nat));
        }
        out
    }

    /// The live descendants of `n`, in document order.
    pub fn descendants(&self, n: NodeId) -> (r: Vec<NodeId>)
        requires
            self.wf(),
            self.has(n),
        ensures
            r@ == self.spec_descendants(n),
            forall|i: int| 0 <= i < r@.len() ==> self.has(#[trigger] r@[i]),
    {
        let kids = self.live_children(n);
        proof {
            self.lemma_live_children_have(n);
        }
        let mut stack: Vec<NodeId> = Vec::new();
        push_reversed(&mut stack, &kids);
        let mut out: Vec<NodeId> = Vec::new();
        let mut fuel: usize = self.nodes.len();
        proof {
            assert(stack@ =~= kids@.reverse());
            assert(out@ + self.walk(stack@, fuel as nat) =~= self.spec_descendants(n));
        }
        while fuel > 0 && stack.len() > 0
            invariant
                self.wf(),
                out@ + self.walk(stack@, fuel as nat) == self.spec_descendants(n),
                forall|i: int| 0 <= i < stack@.len() ==> self.has(#[trigger] stack@[i]),
                forall|i: int| 0 <= i < out@.len() ==> self.has(#[trigger] out@[i]),
            decreases fuel,
        {
            let ghost st = stack@;
            let x = stack.pop().unwrap();
            let ks = self.live_children(x);
            proof {
                self.lemma_live_children_have(x);
                assert(stack@ == st.drop_last());
            }
            push_reversed(&mut stack, &ks);
            proof {
                assert(self.walk(st, fuel as nat) == seq![x] + self.walk(stack@, (fuel - 1) as nat));
                assert(out@.push(x) + self.walk(stack@, (fuel - 1) as nat) =~= out@ + self.walk(st, fuel as nat));
            }
            out.push(x);
            fuel = fuel - 1;
        }
        proof {
            assert(self.walk(stack@, fuel as nat) == Seq::<NodeId>::empty());
            assert(out@ =~= out@ + self.walk(stack@, fuel as nat));
        }
        out
    }

    /// The first of `n` and its ancestors (within `fuel` parent steps) named `q`.
    pub open spec fn spec_up_named(&self, n: NodeId, q: QName, fuel: nat) -> Option<NodeId>
        decreases fuel,
    {
        if self.named(n, q) {
            Some(n)
        } else if fuel == 0 || !self.has(n) {
            None
        } else {
            match self.at(n).parent {
                Some(p) => self.spec_up_named(p, q, (fuel - 1) as nat),
                None => None,
            }
        }
    }

    /// `n` followed by its ancestors, nearest first (at most `fuel` of them).
    pub open spec fn chain(&self, n: NodeId, fuel: nat) -> Seq<NodeId>
        decreases fuel,
    {
        if fuel > 0 && self.has(n) && self.at(n).parent is Some {
            seq![n] + self.chain(self.at(n).parent.unwrap(), (fuel - 1) as nat)
        } else {
            seq![n]
        }
    }

    /// `n` followed by its ancestors, nearest first.
    pub open spec fn spec_self_and_ancestors(&self, n: NodeId) -> Seq<NodeId> {
        self.chain(n, self.len())
    }

    /// `n` followed by its ancestors, nearest first.
    pub fn self_and_ancestors(&self, n: NodeId) -> (r: Vec<NodeId>)
        requires
            self.wf(),
        ensures
            r@ == self.spec_self_and_ancestors(n),
            r@.len() >= 1,
            r@[0] == n,
            forall|i: int| 1 <= i < r@.len() ==> self.has(#[trigger] r@[i]),
    {
        let mut out: Vec<NodeId> = Vec::new();
        let mut x = n;
        let mut fuel: usize = self.nodes.len();
        loop
            invariant
                self.wf(),
                out@ + self.chain(x, fuel as nat) == self.spec_self_and_ancestors(n),
                out@.len() == 0 ==> x == n,
                out@.len() > 0 ==> out@[0] == n,
                out@.len() > 0 ==> self.has(x),
                forall|i: int| 1 <= i < out@.len() ==> self.has(#[trigger] out@[i]),
            decreases fuel,
        {
            let p = if fuel > 0 && (x.0 as usize) < self.nodes.len() {
                self.nodes[x.0 as usize].parent
            } else {
                None
            };
            match p {
                Some(q) => {
                    proof {
                        assert(self.chain(x, fuel as nat) == seq![x] + self.chain(q, (fuel - 1) as nat));
                        assert(out@.push(x) + self.chain(q, (fuel - 1) as nat) =~= out@ + self.chain(x, fuel as nat));
                    }
                    out.push(x);
                    x = q;
                    fuel = fuel - 1;
                },
                None => {
                    proof {
                        assert(self.chain(x, fuel as nat) == seq![x]);
                        assert(out@.push(x) =~= out@ + self.chain(x, fuel as nat));
                    }
                    out.push(x);
                    return out;
                },
            }
        }
    }

    /// What `spec_up_named` finds is named `q`.
    pub proof fn lemma_up_named(&self, n: NodeId, q: QName, fuel: nat)
        ensures
            self.spec_up_named(n, q, fuel) matches Some(y) ==> self.named(y, q),
        decreases fuel,
    {
        if !self.named(n, q) && fuel > 0 && self.has(n) {
            if let Some(p) = self.at(n).parent {
                self.lemma_up_named(p, q, (fuel - 1) as nat);
            }
        }
    }

    /// The first of `n` and its ancestors named `q`.
    pub fn closest_named(&self, n: NodeId, q: QName) -> (r: Option<NodeId>)
        requires
            self.wf(),
        ensures
            r == self.spec_up_named(n, q, self.len()),
            r matches Some(x) ==> self.named(x, q),
    {
        proof {
            self.lemma_up_named(n, q, self.len());
        }
        let mut x = n;
        let mut fuel: usize = self.nodes.len();
        loop
            invariant
                self.wf(),
                self.spec_up_named(n, q, self.len()) == self.spec_up_named(x, q, fuel as nat),
                self.spec_up_named(n, q, self.len()) matches Some(y) ==> self.named(y, q),
            decreases fuel,
        {
            if self.is(x, q) {
                return Some(x);
            }
            if fuel == 0 || (x.0 as usize) >= self.nodes.len() {
                return None;
            }
            match self.nodes[x.0 as usize].parent {
                Some(p) => {
                    x = p;
                },
                None => {
                    return None;
                },
            }
            fuel = fuel - 1;
        }
    }

    /// Live children of `n`, in order.
    pub fn live_children(&self, n: NodeId) -> (r: Vec<NodeId>)
        requires
            self.wf(),
            self.has(n),
        ensures
            r@ == self.spec_live_children(n),
    {
        let kids = &self.nodes[n.0 as usize].children;
        let mut out: Vec<NodeId> = Vec::new();
        for i in 0..kids.len()
            invariant
                kids@ == self.kids(n),
                out@ == kids@.take(i as int).filter(|c: NodeId| self.live(c)),
        {
            proof {
                reveal_with_fuel(Seq::<_>::filter, 1);
                assert(kids@.take(i + 1).drop_last() =~= kids@.take(i as int));
            }
            if self.is_live(kids[i]) {
                out.push(kids[i]);
            }
        }
        proof {
            assert(kids@.take(kids@.len() as int) =~= kids@);
        }
        out
    }

    /// Live element children of `n`, in order.
    pub fn live_element_children(&self, n: NodeId) -> (r: Vec<NodeId>)
        requires
            self.wf(),
            self.has(n),
        ensures
            r@ == self.spec_live_element_children(n),
    {
        let kids = &self.nodes[n.0 as usize].children;
        let mut out: Vec<NodeId> = Vec::new();
        for i in 0..kids.len()
            invariant
                kids@ == self.kids(n),
                out@ == kids@.take(i as int).filter(
                    |c: NodeId| self.live(c) && self.is_element(c),
                ),
        {
            proof {
                reveal_with_fuel(Seq::<_>::filter, 1);
                assert(kids@.take(i + 1).drop_last() =~= kids@.take(i as int));
            }
            let c = kids[i];
            if self.is_live(c) && self.element(c).is_some() {
                out.push(c);
            }
        }
        proof {
            assert(kids@.take(kids@.len() as int) =~= kids@);
        }
        out
    }

    /// Live children of `n` named `q`, in order.
    pub fn live_children_named(&self, n: NodeId, q: QName) -> (r: Vec<NodeId>)
        requires
            self.wf(),
            self.has(n),
        ensures
            r@ == self.spec_live_children_named(n, q),
    {
        let kids = &self.nodes[n.0 as usize].children;
        let mut out: Vec<NodeId> = Vec::new();
        for i in 0..kids.len()
            invariant
                kids@ == self.kids(n),
                out@ == kids@.take(i as int).filter(|c: NodeId| self.live(c) && self.named(c, q)),
        {
            proof {
                reveal_with_fuel(Seq::<_>::filter, 1);
                assert(kids@.take(i + 1).drop_last() =~= kids@.take(i as int));
            }
            let c = kids[i];
            if self.is_live(c) && self.is(c, q) {
                out.push(c);
            }
        }
        proof {
            assert(kids@.take(kids@.len() as int) =~= kids@);
        }
        out
    }

    /// The first live child of `n` named `q`.
    pub fn first_live_child_named(&self, n: NodeId, q: QName) -> (r: Option<NodeId>)
        requires
            self.wf(),
            self.has(n),
        ensures
            r == (if self.spec_live_children_named(n, q).len() > 0 {
                Some(self.spec_live_children_named(n, q)[0])
            } else {
                None
            }),
    {
        let v = self.live_children_named(n, q);
        if v.len() > 0 {
            Some(v[0])
        } else {
            None
        }
    }

    /// The child of `ancestor` that is `n` or contains `n`.
    pub fn direct_child_containing(&self, ancestor: NodeId, n: NodeId) -> (r: Option<NodeId>)
        requires
            self.wf(),
        ensures
            r == self.spec_child_toward(ancestor, n, self.len()),
    {
        let mut x = n;
        let mut fuel = self.nodes.len();
        while fuel > 0
            invariant
                self.wf(),
                fuel <= self.len(),
                self.spec_child_toward(ancestor, n, self.len()) == self.spec_child_toward(
                    ancestor,
                    x,
                    fuel as nat,
                ),
            decreases fuel,
        {
            if (x.0 as usize) >= self.nodes.len() {
                return None;
            }
            match self.nodes[x.0 as usize].parent {
                Some(p) => {
                    if p == ancestor {
                        return Some(x);
                    }
                    x = p;
                },
                None => {
                    return None;
                },
            }
            fuel = fuel - 1;
        }
        None
    }

    /// Is `a` the node `n` itself or one of its ancestors?
    pub fn is_ancestor_or_self(&self, a: NodeId, n: NodeId) -> (r: bool)
        requires
            self.wf(),
        ensures
            r == self.spec_ancestor_or_self(a, n, self.len()),
    {
        let mut x = n;
        let mut fuel = self.nodes.len();
        loop
            invariant
                self.wf(),
                fuel <= self.len(),
                self.spec_ancestor_or_self(a, n, self.len()) == self.spec_ancestor_or_self(
                    a,
                    x,
                    fuel as nat,
                ),
            decreases fuel,
        {
            if x == a {
                return true;
            }
            if fuel == 0 || (x.0 as usize) >= self.nodes.len() {
                return false;
            }
            match self.nodes[x.0 as usize].parent {
                Some(p) => {
                    x = p;
                },
                None => {
                    return false;
                },
            }
            fuel = fuel - 1;
        }
    }

    /// Ancestors of `n` from its parent upward (at most `node_count` of them).
    pub fn ancestors(&self, n: NodeId) -> (r: Vec<NodeId>)
        requires
            self.wf(),
        ensures
            r@.len() <= self.len(),
            forall|i: int| 0 <= i < r@.len() ==> self.up(n, (i + 1) as nat) == Some(r@[i]),
            r@.len() < self.len() ==> self.up(n, (r@.len() + 1) as nat) is None,
            forall|i: int| 0 <= i < r@.len() ==> self.has(#[trigger] r@[i]),
    {
        let mut out: Vec<NodeId> = Vec::new();
        if (n.0 as usize) >= self.nodes.len() {
            return out;
        }
        let mut x = n;
        while out.len() < self.nodes.len()
            invariant
                self.wf(),
                self.has(x),
                out@.len() <= self.len(),
                self.up(n, out@.len() as nat) == Some(x),
                forall|i: int| 0 <= i < out@.len() ==> self.up(n, (i + 1) as nat) == Some(out@[i]),
                forall|i: int| 0 <= i < out@.len() ==> self.has(#[trigger] out@[i]),
            decreases self.len() - out@.len(),
        {
            match self.nodes[x.0 as usize].parent {
                Some(p) => {
                    out.push(p);
                    x = p;
                },
                None => {
                    return out;
                },
            }
        }
        out
    }

    /// The nearest node at or above `n` that is an element named `q`.
    pub fn closest(&self, n: NodeId, q: QName) -> (r: Option<NodeId>)
        requires
            self.wf(),
        ensures
            r matches Some(x) ==> self.named(x, q) && (x == n || exists|k: nat|
                1 <= k <= self.len() && self.up(n, k) == Some(x)),
            r is None ==> !self.named(n, q),
    {
        if self.is(n, q) {
            return Some(n);
        }
        let anc = self.ancestors(n);
        for i in 0..anc.len()
            invariant
                forall|j: int| 0 <= j < anc@.len() ==> self.up(n, (j + 1) as nat) == Some(anc@[j]),
                anc@.len() <= self.len(),
        {
            if self.is(anc[i], q) {
                assert(self.up(n, (i + 1) as nat) == Some(anc@[i as int]));
                return Some(anc[i]);
            }
        }
        None
    }

    /// Does `c` pass the sibling filter (live, and an element when `elements_only`)?
    pub open spec fn sibling_ok(&self, c: NodeId, elements_only: bool) -> bool {
        self.live(c) && (!elements_only || self.is_element(c))
    }

    /// Index of the first occurrence of `n` in `ks` at or after `j`.
    pub open spec fn first_pos(ks: Seq<NodeId>, n: NodeId, j: int) -> Option<int>
        decreases ks.len() - j,
    {
        if j < 0 || j >= ks.len() {
            None
        } else if ks[j] == n {
            Some(j)
        } else {
            Self::first_pos(ks, n, j + 1)
        }
    }

    /// The first entry of `ks` at or after `j` that passes the sibling filter.
    pub open spec fn next_ok(&self, ks: Seq<NodeId>, j: int, elements_only: bool) -> Option<NodeId>
        decreases ks.len() - j,
    {
        if j < 0 || j >= ks.len() {
            None
        } else if self.sibling_ok(ks[j], elements_only) {
            Some(ks[j])
        } else {
            self.next_ok(ks, j + 1, elements_only)
        }
    }

    /// The next sibling of `n` that passes the sibling filter.
    pub open spec fn spec_next_sibling(&self, n: NodeId, elements_only: bool) -> Option<NodeId> {
        match (if self.has(n) { self.at(n).parent } else { None }) {
            Some(p) => if self.has(p) {
                match Self::first_pos(self.kids(p), n, 0) {
                    Some(i) => self.next_ok(self.kids(p), i + 1, elements_only),
                    None => None,
                }
            } else {
                None
            },
            None => None,
        }
    }

    /// The next live sibling of `n`.
    pub fn next_live_sibling(&self, n: NodeId) -> (r: Option<NodeId>)
        requires
            self.wf(),
        ensures
            r == self.spec_next_sibling(n, false),
    {
        self.next_sibling_where(n, false)
    }

    /// The next live element sibling of `n`.
    pub fn next_live_element_sibling(&self, n: NodeId) -> (r: Option<NodeId>)
        requires
            self.wf(),
        ensures
            r == self.spec_next_sibling(n, true),
    {
        self.next_sibling_where(n, true)
    }

    fn next_sibling_where(&self, n: NodeId, elements_only: bool) -> (r: Option<NodeId>)
        requires
            self.wf(),
        ensures
            r == self.spec_next_sibling(n, elements_only),
    {
        let p = match self.parent(n) {
            Some(p) => p,
            None => {
                return None;
            },
        };
        if (p.0 as usize) >= self.nodes.len() {
            return None;
        }
        let ks = &self.nodes[p.0 as usize].children;
        let mut i: usize = 0;
        while i < ks.len()
            invariant
                ks@ == self.kids(p),
                i <= ks@.len(),
                Self::first_pos(ks@, n, 0) == Self::first_pos(ks@, n, i as int),
            ensures
                i <= ks@.len(),
                Self::first_pos(ks@, n, 0) == Self::first_pos(ks@, n, i as int),
                i < ks@.len() ==> ks@[i as int] == n,
            decreases ks@.len() - i,
        {
            if ks[i] == n {
                break;
            }
            i = i + 1;
        }
        if i >= ks.len() {
            return None;
        }
        assert(Self::first_pos(ks@, n, i as int) == Some(i as int));
        let mut j = i + 1;
        while j < ks.len()
            invariant
                self.wf(),
                ks@ == self.kids(p),
                j <= ks@.len(),
                self.spec_next_sibling(n, elements_only) == self.next_ok(ks@, j as int, elements_only),
            decreases ks@.len() - j,
        {
            let c = ks[j];
            if self.is_live(c) && (!elements_only || self.element(c).is_some()) {
                return Some(c);
            }
            j = j + 1;
        }
        None
    }

    /// The only live child of `n`, when it is a text node.
    pub fn sole_live_text_child(&self, n: NodeId) -> (r: Option<NodeId>)
        requires
            self.wf(),
        ensures
            r == (if self.has(n) && self.spec_live_children(n).len() == 1 && self.is_text(
                self.spec_live_children(n)[0],
            ) {
                Some(self.spec_live_children(n)[0])
            } else {
                None
            }),
    {
        if (n.0 as usize) >= self.nodes.len() {
            return None;
        }
        let live = self.live_children(n);
        if live.len() == 1 {
            let c = live[0];
            if (c.0 as usize) < self.nodes.len() {
                if let NodeKind::Text(_) = &self.nodes[c.0 as usize].kind {
                    return Some(c);
                }
            }
        }
        None
    }

    /// The text of a text node.
    pub fn text_of(&self, n: NodeId) -> (r: Option<&String>)
        ensures
            r matches Some(t) ==> self.has(n) && self.at(n).kind == NodeKind::Text(*t),
            r is None ==> !self.is_text(n),
    {
        if (n.0 as usize) < self.nodes.len() {
            match &self.nodes[n.0 as usize].kind {
                NodeKind::Text(t) => Some(t),
                NodeKind::Element(_) => None,
            }
        } else {
            None
        }
    }

    /// Marks `n` deleted; it stays in the arena and in its parent's child list.
    pub fn delete(&mut self, n: NodeId)
        requires
            old(self).wf(),
        ensures
            final(self).wf(),
            final(self).root == old(self).root,
            final(self).part == old(self).part,
            final(self).nodes@.len() == old(self).nodes@.len(),
            forall|i: int|
                0 <= i < old(self).nodes@.len() && i != n.0 as int ==> final(self).nodes@[i]
                    == old(self).nodes@[i],
            old(self).has(n) ==> final(self).at(n) == (Node {
                dirty: Dirty::Deleted,
                ..old(self).at(n)
            }),
    {
        if (n.0 as usize) < self.nodes.len() {
            let i = n.0 as usize;
            let ghost before = self.nodes@;
            self.nodes[i].dirty = Dirty::Deleted;
            proof {
                assert forall|k: int| 0 <= k < self.nodes@.len() implies #[trigger] self.nodes@[k].children@ == before[k].children@ && self.nodes@[k].parent == before[k].parent && self.nodes@[k].kind == before[k].kind by {}
                Dom::lemma_kids_parented_kept(*old(self), *self);
            }
        }
    }
}

} // verus!
