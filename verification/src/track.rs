use vstd::prelude::*;
use crate::chars::str_eq;
use crate::diag::{DiagCode, Error, text};
use crate::dom::{Attr, Dom, NodeKind};
use crate::edit::{NodeEdit, Target};
use crate::emit::wq;
use crate::ids::NodeId;
use crate::plan::MutationPlan;
use crate::text::{decimal, spec_decimal};
use crate::xml::{LocalName, NewElement, NewNode, NsId, QName};

verus! {

/// Who a revision is attributed to.
#[derive(Debug, Clone, PartialEq, Eq)]
pub struct RevisionAuthor {
    pub author: String,
    pub date: Option<String>,
}

/// The context of one operation.
#[derive(Debug, Clone, Default, PartialEq, Eq)]
pub struct EditContext {
    /// `Some`: record revisions; `None`: edit directly.
    pub track_changes: Option<RevisionAuthor>,
    /// Keep comment bodies whose ranges were deleted.
    pub keep_orphan_comments: bool,
    /// Mark updated fields for recalculation.
    pub mark_updated_fields_dirty: bool,
}

impl EditContext {
    /// Sets the revision author; `None` edits directly.
    pub fn with_track_changes(self, track_changes: Option<RevisionAuthor>) -> (r: EditContext)
        ensures
            r == (EditContext { track_changes, ..self }),
    {
        EditContext { track_changes, ..self }
    }

    /// Sets whether updated fields are marked dirty.
    pub fn with_mark_updated_fields_dirty(self, mark_updated_fields_dirty: bool) -> (r: EditContext)
        ensures
            r == (EditContext { mark_updated_fields_dirty, ..self }),
    {
        EditContext { mark_updated_fields_dirty, ..self }
    }

    /// Sets whether comment bodies without a reference are kept.
    pub fn with_keep_orphan_comments(self, keep_orphan_comments: bool) -> (r: EditContext)
        ensures
            r == (EditContext { keep_orphan_comments, ..self }),
    {
        EditContext { keep_orphan_comments, ..self }
    }
}

/// Where `container_mark` puts its marker: the owner of the property container, the
/// container's name, and where to create the container when it is missing.
#[derive(Debug, Clone, Copy, PartialEq, Eq, Structural)]
pub struct MarkSite {
    /// `w:tr` / `w:tc` / `w:tbl`.
    pub owner: NodeId,
    /// `w:trPr` / `w:tcPr` / `w:tblPr`.
    pub container: LocalName,
    /// A missing container is inserted before this sibling (`None`: appended).
    pub container_before: Option<NodeId>,
}

/// The revision wrapper around a position (looking up to the paragraph only).
#[derive(Debug, Clone, Copy, PartialEq, Eq, Structural)]
pub enum TrackSite {
    /// No wrapper.
    Clean,
    /// Inside this author's `w:ins` / `w:moveTo` (the innermost one).
    OwnIns(NodeId),
    /// Inside another author's `w:ins` / `w:moveTo`.
    OtherIns(NodeId),
    /// Inside `w:del` / `w:moveFrom`.
    Deleted(NodeId),
}

/// The innermost revision wrapper met walking up from `x` to `stop` (at most `fuel` nodes).
pub open spec fn site_from(dom: Dom, x: NodeId, stop: NodeId, author: Seq<char>, fuel: nat) -> TrackSite
    decreases fuel,
{
    if fuel == 0 || x == stop || !dom.has(x) {
        TrackSite::Clean
    } else {
        let nm = dom.name_of(x);
        if nm matches Some(q) && q.ns == NsId::W && (q.local == LocalName::Del || q.local
            == LocalName::MoveFrom) {
            TrackSite::Deleted(x)
        } else if nm matches Some(q) && q.ns == NsId::W && (q.local == LocalName::Ins || q.local
            == LocalName::MoveTo) {
            if dom.spec_attr(x, wq(LocalName::Author)) == Some(author) {
                TrackSite::OwnIns(x)
            } else {
                TrackSite::OtherIns(x)
            }
        } else {
            match dom.at(x).parent {
                Some(p) => site_from(dom, p, stop, author, (fuel - 1) as nat),
                None => TrackSite::Clean,
            }
        }
    }
}

/// Walking up from `node` until `stop` (the paragraph), the innermost revision wrapper:
/// `w:del` / `w:moveFrom` is `Deleted`; `w:ins` / `w:moveTo` is `OwnIns` when its `w:author`
/// is `author`, else `OtherIns`.
pub fn track_site_of(dom: &Dom, node: NodeId, stop: NodeId, author: &str) -> (r: TrackSite)
    requires
        dom.wf(),
    ensures
        r == site_from(*dom, node, stop, author@, dom.len()),
{
    let mut x = node;
    let mut fuel = dom.nodes.len();
    loop
        invariant
            dom.wf(),
            fuel <= dom.len(),
            site_from(*dom, node, stop, author@, dom.len()) == site_from(*dom, x, stop, author@, fuel as nat),
        decreases fuel,
    {
        if fuel == 0 || x == stop || !dom.contains(x) {
            return TrackSite::Clean;
        }
        if let Some(name) = dom.name(x) {
            if name.ns == NsId::W {
                if name.local == LocalName::Del || name.local == LocalName::MoveFrom {
                    return TrackSite::Deleted(x);
                }
                if name.local == LocalName::Ins || name.local == LocalName::MoveTo {
                    let same = match dom.attr(x, QName::w(LocalName::Author)) {
                        Some(a) => str_eq(a.as_str(), author),
                        None => false,
                    };
                    return if same {
                        TrackSite::OwnIns(x)
                    } else {
                        TrackSite::OtherIns(x)
                    };
                }
            }
        }
        match dom.parent(x) {
            Some(p) => {
                x = p;
            },
            None => {
                return TrackSite::Clean;
            },
        }
        fuel = fuel - 1;
    }
}

/// Typing inside deleted text is refused while tracking.
pub fn err_in_deleted() -> (e: Error)
    ensures
        e matches Error::Edit { code, .. } && code == DiagCode::EditInDeleted,
{
    Error::edit(DiagCode::EditInDeleted, text("位置落在已删除的文字里，追踪时不能插入"))
}

pub open spec fn opt_view(o: Option<String>) -> Option<Seq<char>> {
    match o {
        Some(s) => Some(s@),
        None => None,
    }
}

/// `n + 1`, staying at `u32::MAX`.
pub open spec fn bump(n: u32) -> u32 {
    if n == u32::MAX {
        n
    } else {
        (n + 1) as u32
    }
}

/// The decimal text of a revision id.
pub open spec fn spec_decimal_of(id: u32) -> Seq<char> {
    spec_decimal(id as nat)
}

/// `e` is an empty revision element `local` carrying `w:id` = `id`, `w:author` and, when
/// there is one, `w:date`.
pub open spec fn is_marker(e: NewElement, local: LocalName, id: u32, author: Seq<char>, date: Option<Seq<char>>) -> bool {
    &&& e.name == wq(local)
    &&& e.children@.len() == 0
    &&& e.attrs@.len() == (if date is Some { 3int } else { 2int })
    &&& e.attrs@[0].0 == wq(LocalName::Id)
    &&& e.attrs@[0].1@ == spec_decimal(id as nat)
    &&& e.attrs@[1].0 == wq(LocalName::Author)
    &&& e.attrs@[1].1@ == author
    &&& date matches Some(d) ==> e.attrs@[2].0 == wq(LocalName::Date) && e.attrs@[2].1@ == d
}

/// The attributes of `a` other than `w:id`, as name and value, in order.
pub open spec fn non_id_attrs(a: Seq<Attr>) -> Seq<(QName, Seq<char>)>
    decreases a.len(),
{
    if a.len() == 0 {
        seq![]
    } else if a.last().name == wq(LocalName::Id) {
        non_id_attrs(a.drop_last())
    } else {
        non_id_attrs(a.drop_last()).push((a.last().name, a.last().value@))
    }
}

/// Produces revision elements for one planning stage, numbering them from the next free
/// revision id.
#[derive(Debug)]
pub struct Tracker {
    pub author: String,
    pub date: Option<String>,
    /// The next `w:id` to hand out.
    next_id: u32,
}

impl Tracker {
    /// The next id this tracker hands out.
    pub closed spec fn next(&self) -> u32 {
        self.next_id
    }

    /// The author written on revisions.
    pub closed spec fn author_of(&self) -> Seq<char> {
        self.author@
    }

    /// The date written on revisions.
    pub closed spec fn date_of(&self) -> Option<Seq<char>> {
        opt_view(self.date)
    }

    /// A tracker when the context asks for revisions; ids start after `max_w_id`, the
    /// largest revision id in the package (from 1 when there is none).
    pub fn new(max_w_id: Option<u32>, ctx: &EditContext) -> (r: Option<Tracker>)
        ensures
            r is Some <==> ctx.track_changes is Some,
            r matches Some(t) ==> ctx.track_changes matches Some(a) && t.author_of() == a.author@
                && t.date_of() == opt_view(a.date)
                && t.next() == bump(match max_w_id { Some(m) => m, None => 0 }),
    {
        match &ctx.track_changes {
            Some(a) => {
                let base = match max_w_id {
                    Some(m) => m,
                    None => 0,
                };
                let next_id = if base == u32::MAX { base } else { base + 1 };
                Some(Tracker { author: a.author.clone(), date: a.date.clone(), next_id })
            },
            None => None,
        }
    }

    /// The author written on revisions.
    pub fn author_name(&self) -> (r: &str)
        ensures
            r@ == self.author_of(),
    {
        self.author.as_str()
    }

    fn take_id(&mut self) -> (id: u32)
        ensures
            id == old(self).next(),
            final(self).next() == bump(old(self).next()),
            final(self).author_of() == old(self).author_of(),
            final(self).date_of() == old(self).date_of(),
    {
        let id = self.next_id;
        self.next_id = if self.next_id == u32::MAX { self.next_id } else { self.next_id + 1 };
        id
    }

    /// An empty revision element (`w:ins`, `w:del`, `w:moveFrom`, `*PrChange`, ...) with
    /// `w:id`, `w:author` and `w:date`.
    pub fn marker(&mut self, local: LocalName) -> (e: NewElement)
        ensures
            is_marker(e, local, old(self).next(), old(self).author_of(), old(self).date_of()),
            final(self).next() == bump(old(self).next()),
            final(self).author_of() == old(self).author_of(),
            final(self).date_of() == old(self).date_of(),
    {
        let mut e = NewElement::new(QName::w(local));
        let id = self.take_id();
        e.push_attr(QName::w(LocalName::Id), decimal(id as u64));
        e.push_attr(QName::w(LocalName::Author), self.author.clone());
        if let Some(d) = &self.date {
            e.push_attr(QName::w(LocalName::Date), d.clone());
        }
        e
    }

    /// An element with the name and attributes of `node` but a fresh `w:id` (for the right
    /// half of another author's split `w:ins`).
    pub fn clone_marker(&mut self, dom: &Dom, node: NodeId) -> (e: NewElement)
        requires
            dom.is_element(node),
        ensures
            Some(e.name) == dom.name_of(node),
            e.children@.len() == 0,
            e.attrs@.len() >= 1,
            e.attrs@[0].0 == wq(LocalName::Id),
            e.attrs@[0].1@ == spec_decimal(old(self).next() as nat),
            dom.at(node).kind matches NodeKind::Element(el) && {
                let rest = non_id_attrs(el.attrs@);
                &&& e.attrs@.len() == 1 + rest.len()
                &&& forall|j: int| 0 <= j < rest.len() ==> (#[trigger] e.attrs@[1 + j]).0 == rest[j].0
                    && e.attrs@[1 + j].1@ == rest[j].1
            },
            final(self).next() == bump(old(self).next()),
            final(self).author_of() == old(self).author_of(),
            final(self).date_of() == old(self).date_of(),
    {
        let el = match dom.element(node) {
            Some(el) => el,
            None => {
                proof {
                    assert(false);
                }
                return NewElement::new(QName::w(LocalName::Unknown));
            },
        };
        let mut e = NewElement::new(el.name);
        let id = self.take_id();
        e.push_attr(QName::w(LocalName::Id), decimal(id as u64));
        let ghost a = el.attrs@;
        proof {
            assert(a.take(0) =~= Seq::<Attr>::empty());
        }
        for i in 0..el.attrs.len()
            invariant
                a == el.attrs@,
                e.name == el.name,
                e.children@.len() == 0,
                e.attrs@.len() == 1 + non_id_attrs(a.take(i as int)).len(),
                e.attrs@[0].0 == wq(LocalName::Id),
                e.attrs@[0].1@ == spec_decimal(id as nat),
                forall|j: int| 0 <= j < non_id_attrs(a.take(i as int)).len() ==> (#[trigger] e.attrs@[1 + j]).0
                    == non_id_attrs(a.take(i as int))[j].0 && e.attrs@[1 + j].1@ == non_id_attrs(
                    a.take(i as int),
                )[j].1,
        {
            proof {
                assert(a.take(i + 1).drop_last() =~= a.take(i as int));
                assert(a.take(i + 1).last() == a[i as int]);
            }
            if el.attrs[i].name != QName::w(LocalName::Id) {
                e.push_attr(el.attrs[i].name, el.attrs[i].value.clone());
            }
        }
        proof {
            assert(a.take(a.len() as int) =~= a);
        }
        e
    }

    /// Wraps one content item in a new `local` (`w:ins` / `w:del`) in place: the wrapper is
    /// inserted where the item is and the item moves into it. Returns the wrapper's edit
    /// index; `None` (and no change) when the item has no parent.
    pub fn wrap_item(&mut self, plan: &mut MutationPlan, dom: &Dom, node: NodeId, local: LocalName) -> (r: Option<usize>)
        ensures
            match (if dom.has(node) { dom.at(node).parent } else { None }) {
                None => r is None && *final(plan) == *old(plan) && final(self).next() == old(self).next(),
                Some(p) => {
                    let k = old(plan).node_edits@.len();
                    &&& r == Some(k as usize)
                    &&& final(plan).node_edits@.len() == k + 2
                    &&& final(plan).node_edits@.subrange(0, k as int) == old(plan).node_edits@
                    &&& final(plan).node_edits@[k as int] matches NodeEdit::Insert { parent, before, node: m }
                        && parent == Target::Node(p) && before == Some(node)
                        && is_marker(m, local, old(self).next(), old(self).author_of(), old(self).date_of())
                    &&& final(plan).node_edits@[k + 1int] == (NodeEdit::Move { node, parent: Target::New(k as usize), before: None })
                    &&& final(plan).span.rewraps@ == old(plan).span.rewraps@.push(node)
                    &&& final(plan).part == old(plan).part
                    &&& final(plan).affected_blocks@ == old(plan).affected_blocks@
                    &&& final(plan).structure_changed == old(plan).structure_changed
                    &&& final(plan).diagnostics@ == old(plan).diagnostics@
                    &&& final(plan).offset_delta@ == old(plan).offset_delta@
                    &&& final(self).next() == bump(old(self).next())
                },
            },
            final(self).author_of() == old(self).author_of(),
            final(self).date_of() == old(self).date_of(),
    {
        let parent = match dom.parent(node) {
            Some(p) => p,
            None => {
                return None;
            },
        };
        let k = plan.node_edits.len();
        let m = self.marker(local);
        plan.node_edits.push(NodeEdit::Insert { parent: Target::Node(parent), before: Some(node), node: m });
        plan.node_edits.push(NodeEdit::Move { node, parent: Target::New(k), before: None });
        plan.span.rewraps.push(node);
        Some(k)
    }
}


/// The first element of `s`.
pub open spec fn first_of(s: Seq<NodeId>) -> Option<NodeId> {
    if s.len() == 0 {
        None
    } else {
        Some(s[0])
    }
}

/// The first element of `s` satisfying `p`.
pub open spec fn find_first(s: Seq<NodeId>, p: spec_fn(NodeId) -> bool) -> Option<NodeId>
    decreases s.len(),
{
    if s.len() == 0 {
        None
    } else if p(s[0]) {
        Some(s[0])
    } else {
        find_first(s.drop_first(), p)
    }
}

/// The elements of `s` satisfying `p`, in order.
pub open spec fn select(s: Seq<NodeId>, p: spec_fn(NodeId) -> bool) -> Seq<NodeId>
    decreases s.len(),
{
    if s.len() == 0 {
        seq![]
    } else if p(s.last()) {
        select(s.drop_last(), p).push(s.last())
    } else {
        select(s.drop_last(), p)
    }
}

/// The position of `q` in an order table (the schema order of a property container), from
/// index `j` on.
pub open spec fn order_from(table: Seq<QName>, q: QName, j: int) -> Option<int>
    decreases table.len() - j,
{
    if j < 0 || j >= table.len() {
        None
    } else if table[j] == q {
        Some(j)
    } else {
        order_from(table, q, j + 1)
    }
}

/// The position of `q` in an order table.
pub open spec fn order_of(table: Seq<QName>, q: QName) -> Option<int> {
    order_from(table, q, 0)
}

/// The position of `q` in `table`.
pub fn order_index(table: &[QName], q: QName) -> (r: Option<usize>)
    ensures
        r matches Some(k) ==> order_of(table@, q) == Some(k as int),
        r is None <==> order_of(table@, q) is None,
{
    let mut i: usize = 0;
    while i < table.len()
        invariant
            i <= table@.len(),
            order_of(table@, q) == order_from(table@, q, i as int),
        decreases table@.len() - i,
    {
        if table[i] == q {
            return Some(i);
        }
        i = i + 1;
    }
    None
}


/// The first node of `s` that comes after order `mine` (see [`later_than`]); only elements
/// count when `elements_only`.
fn find_later(dom: &Dom, s: &Vec<NodeId>, table: &[QName], mine: usize, elements_only: bool) -> (r: Option<NodeId>)
    ensures
        r == find_first(s@, later_pick(*dom, table@, mine as int, elements_only)),
{
    let ghost p = later_pick(*dom, table@, mine as int, elements_only);
    let mut i: usize = 0;
    proof {
        assert(s@.skip(0) =~= s@);
    }
    while i < s.len()
        invariant
            i <= s@.len(),
            p == later_pick(*dom, table@, mine as int, elements_only),
            find_first(s@, p) == find_first(s@.skip(i as int), p),
        decreases s@.len() - i,
    {
        proof {
            assert(s@.skip(i as int).drop_first() =~= s@.skip(i + 1));
        }
        let c = s[i];
        let later = match dom.name(c) {
            None => !elements_only,
            Some(q) => match order_index(table, q) {
                None => true,
                Some(k) => k > mine,
            },
        };
        assert(later == p(c));
        if later {
            return Some(c);
        }
        i = i + 1;
    }
    None
}

/// The first node of `s` that is a live `w:sectPr` or `w:pPrChange` element.
fn find_sect_or_change(dom: &Dom, s: &Vec<NodeId>) -> (r: Option<NodeId>)
    ensures
        r == find_first(s@, sect_or_change(*dom)),
{
    let ghost p = sect_or_change(*dom);
    let mut i: usize = 0;
    proof {
        assert(s@.skip(0) =~= s@);
    }
    while i < s.len()
        invariant
            i <= s@.len(),
            p == sect_or_change(*dom),
            find_first(s@, p) == find_first(s@.skip(i as int), p),
        decreases s@.len() - i,
    {
        proof {
            assert(s@.skip(i as int).drop_first() =~= s@.skip(i + 1));
        }
        let c = s[i];
        if dom.is(c, QName::w(LocalName::SectPr)) || dom.is(c, QName::w(LocalName::PPrChange)) {
            return Some(c);
        }
        i = i + 1;
    }
    None
}

pub open spec fn sect_or_change(dom: Dom) -> spec_fn(NodeId) -> bool {
    |c: NodeId| dom.named(c, wq(LocalName::SectPr)) || dom.named(c, wq(LocalName::PPrChange))
}

/// [`later_than`], restricted to elements when `elements_only`.
pub open spec fn later_pick(dom: Dom, table: Seq<QName>, mine: int, elements_only: bool) -> spec_fn(NodeId) -> bool {
    |c: NodeId| match dom.name_of(c) {
        None => !elements_only,
        Some(q) => match order_of(table, q) {
            None => true,
            Some(i) => i > mine,
        },
    }
}

/// Everything in a plan but its edits.
pub open spec fn same_rest(a: MutationPlan, b: MutationPlan) -> bool {
    &&& a.part == b.part
    &&& a.affected_blocks@ == b.affected_blocks@
    &&& a.structure_changed == b.structure_changed
    &&& a.diagnostics@ == b.diagnostics@
    &&& a.offset_delta@ == b.offset_delta@
    &&& a.span.rewraps@ == b.span.rewraps@
}

/// `b` is `a` with one more edit at the end.
pub open spec fn one_more(a: MutationPlan, b: MutationPlan) -> bool {
    &&& same_rest(a, b)
    &&& b.node_edits@.len() == a.node_edits@.len() + 1
    &&& b.node_edits@.subrange(0, a.node_edits@.len() as int) == a.node_edits@
}

/// The single element child of `e` when `e` is a bare `q` holding exactly one element.
pub open spec fn only_child(e: NewElement, q: QName) -> Option<NewElement> {
    if e.name == q && e.attrs@.len() == 0 && e.children@.len() == 1 && e.children@[0] is Element {
        Some(e.children@[0]->Element_0)
    } else {
        None
    }
}

/// Nodes that come after an item of order `mine` in a property container: text, elements
/// missing from the table, and elements placed later in it.
pub open spec fn later_than(dom: Dom, table: Seq<QName>, mine: int) -> spec_fn(NodeId) -> bool {
    |c: NodeId| match dom.name_of(c) {
        None => true,
        Some(q) => match order_of(table, q) {
            None => true,
            Some(i) => i > mine,
        },
    }
}

/// The order of `q` in `table`, 0 when it is missing.
pub open spec fn order_or_zero(table: Seq<QName>, q: QName) -> int {
    match order_of(table, q) {
        Some(i) => i,
        None => 0,
    }
}

/// The first live `w:pPr` of a paragraph.
pub open spec fn ppr_of(dom: Dom, para: NodeId) -> Option<NodeId> {
    first_of(dom.spec_live_children_named(para, wq(LocalName::PPr)))
}

/// The first live `w:rPr` of the paragraph's `w:pPr`.
pub open spec fn para_rpr_of(dom: Dom, para: NodeId) -> Option<NodeId> {
    match ppr_of(dom, para) {
        Some(p) => first_of(dom.spec_live_children_named(p, wq(LocalName::RPr))),
        None => None,
    }
}

/// The first live child of `n` named `q`.
fn first_named(dom: &Dom, n: NodeId, q: QName) -> (r: Option<NodeId>)
    requires
        dom.wf(),
        dom.has(n),
    ensures
        r == first_of(dom.spec_live_children_named(n, q)),
        r matches Some(x) ==> dom.has(x),
{
    let v = dom.live_children_named(n, q);
    if v.len() == 0 {
        None
    } else {
        proof {
            let pr = |c: NodeId| dom.live(c) && dom.named(c, q);
            assert(dom.kids(n).filter(pr).contains(v@[0]));
            dom.kids(n).lemma_filter_contains_rev(pr, v@[0]);
            let k = choose|k: int| 0 <= k < dom.kids(n).len() && dom.kids(n)[k] == v@[0];
            assert(dom.nodes@[n.0 as int].children@[k] == v@[0]);
        }
        Some(v[0])
    }
}

impl Tracker {
    /// Paragraph mark insertion / deletion: `w:ins` / `w:del` in `pPr/rPr`, placed by the run
    /// property order `run_order`; `pPr` and `rPr` are created when missing. Nothing happens
    /// when the mark is already there.
    pub fn para_mark(&mut self, plan: &mut MutationPlan, dom: &Dom, para: NodeId, local: LocalName, run_order: &[QName])
        requires
            dom.wf(),
            dom.has(para),
        ensures
            final(self).author_of() == old(self).author_of(),
            final(self).date_of() == old(self).date_of(),
            ({
                let rpr = para_rpr_of(*dom, para);
                let ppr = ppr_of(*dom, para);
                if rpr matches Some(r) && dom.spec_live_children_named(r, wq(local)).len() > 0 {
                    *final(plan) == *old(plan) && final(self).next() == old(self).next()
                } else {
                    &&& final(self).next() == bump(old(self).next())
                    &&& one_more(*old(plan), *final(plan))
                    &&& final(plan).node_edits@.last() matches NodeEdit::Insert { parent, before, node: m }
                        && match (ppr, rpr) {
                        (_, Some(r)) => {
                            &&& parent == Target::Node(r)
                            &&& before == find_first(dom.spec_live_children(r), later_than(*dom, run_order@, order_or_zero(run_order@, wq(local))))
                            &&& is_marker(m, local, old(self).next(), old(self).author_of(), old(self).date_of())
                        },
                        (Some(p), None) => {
                            &&& parent == Target::Node(p)
                            &&& before == find_first(dom.spec_live_children(p), sect_or_change(*dom))
                            &&& only_child(m, wq(LocalName::RPr)) matches Some(x)
                            &&& is_marker(x, local, old(self).next(), old(self).author_of(), old(self).date_of())
                        },
                        (None, _) => {
                            &&& parent == Target::Node(para)
                            &&& before == first_of(dom.spec_live_children(para))
                            &&& only_child(m, wq(LocalName::PPr)) matches Some(r)
                            &&& only_child(r, wq(LocalName::RPr)) matches Some(x)
                            &&& is_marker(x, local, old(self).next(), old(self).author_of(), old(self).date_of())
                        },
                    }
                }
            }),
    {
        let ppr = first_named(dom, para, QName::w(LocalName::PPr));
        let rpr = match ppr {
            Some(p) => first_named(dom, p, QName::w(LocalName::RPr)),
            None => None,
        };
        if let Some(r) = rpr {
            if dom.live_children_named(r, QName::w(local)).len() > 0 {
                return;
            }
        }
        let ghost e0 = plan.node_edits@;
        let marker = self.marker(local);
        match (ppr, rpr) {
            (_, Some(r)) => {
                let mine: usize = match order_index(run_order, QName::w(local)) {
                    Some(i) => i,
                    None => 0,
                };
                let kids = dom.live_children(r);
                let before = find_later(dom, &kids, run_order, mine, false);
                proof {
                    assert(mine as int == order_or_zero(run_order@, wq(local)));
                    assert(later_pick(*dom, run_order@, mine as int, false) =~= later_than(*dom, run_order@, order_or_zero(run_order@, wq(local))));
                }
                plan.node_edits.push(NodeEdit::Insert { parent: Target::Node(r), before, node: marker });
                assert(plan.node_edits@.subrange(0, e0.len() as int) =~= e0);
            },
            (Some(p), None) => {
                let kids = dom.live_children(p);
                let before = find_sect_or_change(dom, &kids);
                let node = NewElement::new(QName::w(LocalName::RPr)).with_child(marker);
                plan.node_edits.push(NodeEdit::Insert { parent: Target::Node(p), before, node });
                assert(plan.node_edits@.subrange(0, e0.len() as int) =~= e0);
            },
            (None, _) => {
                let kids = dom.live_children(para);
                let before = if kids.len() > 0 {
                    Some(kids[0])
                } else {
                    None
                };
                let node = NewElement::new(QName::w(LocalName::PPr)).with_child(
                    NewElement::new(QName::w(LocalName::RPr)).with_child(marker),
                );
                plan.node_edits.push(NodeEdit::Insert { parent: Target::Node(para), before, node });
                assert(plan.node_edits@.subrange(0, e0.len() as int) =~= e0);
            },
        }
    }
}


/// Snapshot content: elements that are not a `*Change` element and not skipped.
pub open spec fn snap_keep(dom: Dom, skip: Seq<LocalName>) -> spec_fn(NodeId) -> bool {
    |c: NodeId| match dom.name_of(c) {
        None => false,
        Some(q) => !(q.ns == NsId::W && (is_change(q.local) || skip.contains(q.local))),
    }
}

/// The `*Change` elements (a snapshot leaves them out).
pub open spec fn is_change(local: LocalName) -> bool {
    local == LocalName::RPrChange || local == LocalName::PPrChange || local == LocalName::SectPrChange
        || local == LocalName::TblPrChange || local == LocalName::TblPrExChange || local
        == LocalName::TblGridChange || local == LocalName::TrPrChange || local == LocalName::TcPrChange
        || local == LocalName::NumberingChange
}

/// Is `local` one of the `*Change` elements?
pub fn is_change_element(local: LocalName) -> (r: bool)
    ensures
        r == is_change(local),
{
    match local {
        LocalName::RPrChange | LocalName::PPrChange | LocalName::SectPrChange | LocalName::TblPrChange
        | LocalName::TblPrExChange | LocalName::TblGridChange | LocalName::TrPrChange
        | LocalName::TcPrChange | LocalName::NumberingChange => true,
        _ => false,
    }
}

fn contains_local(v: &[LocalName], l: LocalName) -> (r: bool)
    ensures
        r == v@.contains(l),
{
    for i in 0..v.len()
        invariant
            forall|j: int| 0 <= j < i ==> v@[j] != l,
    {
        if v[i] == l {
            return true;
        }
    }
    false
}

/// The text element a name becomes: `w:t` <-> `w:delText`, `w:instrText` <-> `w:delInstrText`.
pub open spec fn renamed(local: LocalName, to_deleted: bool) -> Option<LocalName> {
    if to_deleted {
        if local == LocalName::T {
            Some(LocalName::DelText)
        } else if local == LocalName::InstrText {
            Some(LocalName::DelInstrText)
        } else {
            None
        }
    } else {
        if local == LocalName::DelText {
            Some(LocalName::T)
        } else if local == LocalName::DelInstrText {
            Some(LocalName::InstrText)
        } else {
            None
        }
    }
}

/// The renames of the live subtree at `n` (pre-order, at most `fuel` levels deep).
pub open spec fn renames(dom: Dom, n: NodeId, fuel: nat, to_deleted: bool) -> Seq<NodeEdit>
    decreases fuel, 0int,
{
    if fuel == 0 || !dom.has(n) || dom.at(n).dirty == crate::dom::Dirty::Deleted {
        seq![]
    } else {
        match dom.at(n).kind {
            NodeKind::Text(_) => seq![],
            NodeKind::Element(e) => {
                let own: Seq<NodeEdit> = if e.name.ns == NsId::W && renamed(e.name.local, to_deleted) is Some {
                    seq![NodeEdit::Rename { node: n, name: wq(renamed(e.name.local, to_deleted)->Some_0) }]
                } else {
                    seq![]
                };
                own + kids_renames(dom, dom.kids(n), (fuel - 1) as nat, to_deleted)
            },
        }
    }
}

/// The renames of the subtrees at `ks`, in order.
pub open spec fn kids_renames(dom: Dom, ks: Seq<NodeId>, fuel: nat, to_deleted: bool) -> Seq<NodeEdit>
    decreases fuel, ks.len() + 1,
{
    if ks.len() == 0 {
        seq![]
    } else {
        kids_renames(dom, ks.drop_last(), fuel, to_deleted) + renames(dom, ks.last(), fuel, to_deleted)
    }
}

fn rename_rec(plan: &mut MutationPlan, dom: &Dom, n: NodeId, fuel: usize, to_deleted: bool)
    requires
        dom.wf(),
    ensures
        final(plan).node_edits@ == old(plan).node_edits@ + renames(*dom, n, fuel as nat, to_deleted),
        same_rest(*old(plan), *final(plan)),
    decreases fuel,
{
    if fuel == 0 || !dom.contains(n) || !dom.is_live(n) {
        assert(renames(*dom, n, fuel as nat, to_deleted) =~= Seq::<NodeEdit>::empty());
        assert(plan.node_edits@ =~= old(plan).node_edits@ + Seq::<NodeEdit>::empty());
        return;
    }
    let e = match dom.element(n) {
        Some(e) => e,
        None => {
            assert(renames(*dom, n, fuel as nat, to_deleted) =~= Seq::<NodeEdit>::empty());
            assert(plan.node_edits@ =~= old(plan).node_edits@ + Seq::<NodeEdit>::empty());
            return;
        },
    };
    let ghost e0 = plan.node_edits@;
    if e.name.ns == NsId::W {
        let to = if to_deleted {
            if e.name.local == LocalName::T {
                Some(LocalName::DelText)
            } else if e.name.local == LocalName::InstrText {
                Some(LocalName::DelInstrText)
            } else {
                None
            }
        } else {
            if e.name.local == LocalName::DelText {
                Some(LocalName::T)
            } else if e.name.local == LocalName::DelInstrText {
                Some(LocalName::InstrText)
            } else {
                None
            }
        };
        if let Some(t) = to {
            plan.node_edits.push(NodeEdit::Rename { node: n, name: QName::w(t) });
        }
    }
    let ghost e1 = plan.node_edits@;
    let kids = dom.children(n);
    let ghost ks = kids@;
    proof {
        assert(ks.take(0) =~= Seq::<NodeId>::empty());
        assert(e1 =~= e1 + kids_renames(*dom, ks.take(0), (fuel - 1) as nat, to_deleted));
    }
    for j in 0..kids.len()
        invariant
            dom.wf(),
            ks == kids@,
            fuel > 0,
            plan.node_edits@ == e1 + kids_renames(*dom, ks.take(j as int), (fuel - 1) as nat, to_deleted),
            same_rest(*old(plan), *plan),
    {
        proof {
            assert(ks.take(j + 1).drop_last() =~= ks.take(j as int));
            assert(ks.take(j + 1).last() == ks[j as int]);
        }
        rename_rec(plan, dom, kids[j], fuel - 1, to_deleted);
        proof {
            let a = kids_renames(*dom, ks.take(j as int), (fuel - 1) as nat, to_deleted);
            let b = renames(*dom, ks[j as int], (fuel - 1) as nat, to_deleted);
            assert(e1 + a + b =~= e1 + (a + b));
        }
    }
    proof {
        assert(ks.take(ks.len() as int) =~= ks);
        assert(plan.node_edits@ =~= old(plan).node_edits@ + renames(*dom, n, fuel as nat, to_deleted));
    }
}

impl Tracker {
    /// Marks in a property container (`w:trPr` / `w:tcPr` / `w:tblPr`): `w:ins` / `w:del` /
    /// `w:cellIns` / `w:cellDel`, placed by the container's order table; a missing container
    /// is created at `container_before`. Nothing happens when the mark is already there.
    pub fn container_mark(&mut self, plan: &mut MutationPlan, dom: &Dom, at: MarkSite, mark: LocalName, order: &[QName])
        requires
            dom.wf(),
            dom.has(at.owner),
        ensures
            final(self).author_of() == old(self).author_of(),
            final(self).date_of() == old(self).date_of(),
            ({
                let existing = first_of(dom.spec_live_children_named(at.owner, wq(at.container)));
                if existing matches Some(c) && dom.spec_live_children_named(c, wq(mark)).len() > 0 {
                    *final(plan) == *old(plan) && final(self).next() == old(self).next()
                } else {
                    &&& final(self).next() == bump(old(self).next())
                    &&& one_more(*old(plan), *final(plan))
                    &&& final(plan).node_edits@.last() matches NodeEdit::Insert { parent, before, node: m }
                        && match existing {
                        Some(c) => {
                            &&& parent == Target::Node(c)
                            &&& before == find_first(dom.spec_live_children(c), later_pick(*dom, order@, order_or_zero(order@, wq(mark)), true))
                            &&& is_marker(m, mark, old(self).next(), old(self).author_of(), old(self).date_of())
                        },
                        None => {
                            &&& parent == Target::Node(at.owner)
                            &&& before == at.container_before
                            &&& only_child(m, wq(at.container)) matches Some(x)
                            &&& is_marker(x, mark, old(self).next(), old(self).author_of(), old(self).date_of())
                        },
                    }
                }
            }),
    {
        let existing = first_named(dom, at.owner, QName::w(at.container));
        if let Some(c) = existing {
            if dom.live_children_named(c, QName::w(mark)).len() > 0 {
                return;
            }
        }
        let ghost e0 = plan.node_edits@;
        let marker = self.marker(mark);
        match existing {
            Some(c) => {
                let mine: usize = match order_index(order, QName::w(mark)) {
                    Some(i) => i,
                    None => 0,
                };
                let kids = dom.live_children(c);
                let before = find_later(dom, &kids, order, mine, true);
                plan.node_edits.push(NodeEdit::Insert { parent: Target::Node(c), before, node: marker });
                assert(plan.node_edits@.subrange(0, e0.len() as int) =~= e0);
            },
            None => {
                let node = NewElement::new(QName::w(at.container)).with_child(marker);
                plan.node_edits.push(NodeEdit::Insert { parent: Target::Node(at.owner), before: at.container_before, node });
                assert(plan.node_edits@.subrange(0, e0.len() as int) =~= e0);
            },
        }
    }

    /// The old-value snapshot of a `*PrChange`: clean clones of the container's current
    /// children, leaving out `*Change` elements and the names in `skip`, appended to the
    /// container as `change`/`inner`. Nothing happens (and `None`) when `change` is already
    /// there: the earliest snapshot is kept.
    pub fn snapshot(&mut self, plan: &mut MutationPlan, dom: &Dom, container: NodeId, change: LocalName, inner: LocalName, skip: &[LocalName]) -> (r: Option<usize>)
        requires
            dom.wf(),
            dom.has(container),
        ensures
            final(self).author_of() == old(self).author_of(),
            final(self).date_of() == old(self).date_of(),
            if dom.spec_live_children_named(container, wq(change)).len() > 0 {
                r is None && *final(plan) == *old(plan) && final(self).next() == old(self).next()
            } else {
                let k = old(plan).node_edits@.len();
                let kept = select(dom.spec_live_children(container), snap_keep(*dom, skip@));
                &&& r == Some(k as usize)
                &&& final(self).next() == bump(old(self).next())
                &&& same_rest(*old(plan), *final(plan))
                &&& final(plan).node_edits@.len() == k + 2 + kept.len()
                &&& final(plan).node_edits@.subrange(0, k as int) == old(plan).node_edits@
                &&& final(plan).node_edits@[k as int] matches NodeEdit::Insert { parent, before, node: m }
                    && parent == Target::Node(container) && before is None
                    && is_marker(m, change, old(self).next(), old(self).author_of(), old(self).date_of())
                &&& final(plan).node_edits@[k + 1int] matches NodeEdit::Insert { parent, before, node: m }
                    && parent == Target::New(k as usize) && before is None && crate::emit::bare(m, wq(inner))
                &&& forall|j: int| 0 <= j < kept.len() ==> #[trigger] final(plan).node_edits@[k + 2 + j]
                    == (NodeEdit::InsertClone { parent: Target::New((k + 1) as usize), before: None, source: kept[j] })
            },
    {
        if dom.live_children_named(container, QName::w(change)).len() > 0 {
            return None;
        }
        let k = plan.node_edits.len();
        let m = self.marker(change);
        plan.node_edits.push(NodeEdit::Insert { parent: Target::Node(container), before: None, node: m });
        plan.node_edits.push(NodeEdit::Insert { parent: Target::New(k), before: None, node: NewElement::new(QName::w(inner)) });
        let ghost e1 = plan.node_edits@;
        let k1 = plan.node_edits.len() - 1;
        let kids = dom.live_children(container);
        let ghost ks = kids@;
        let ghost p = snap_keep(*dom, skip@);
        proof {
            assert(ks.take(0) =~= Seq::<NodeId>::empty());
        }
        for i in 0..kids.len()
            invariant
                ks == kids@,
                p == snap_keep(*dom, skip@),
                k == old(plan).node_edits@.len(),
                k1 == k + 1,
                plan.node_edits@.len() == k + 2 + select(ks.take(i as int), p).len(),
                plan.node_edits@.subrange(0, k + 2) == e1,
                e1.len() == k + 2,
                forall|j: int| 0 <= j < select(ks.take(i as int), p).len() ==> #[trigger] plan.node_edits@[k + 2 + j]
                    == (NodeEdit::InsertClone { parent: Target::New((k + 1) as usize), before: None, source: select(ks.take(i as int), p)[j] }),
                same_rest(*old(plan), *plan),
        {
            proof {
                assert(ks.take(i + 1).drop_last() =~= ks.take(i as int));
                assert(ks.take(i + 1).last() == ks[i as int]);
            }
            let c = kids[i];
            let keep = match dom.name(c) {
                None => false,
                Some(q) => !(q.ns == NsId::W && (is_change_element(q.local) || contains_local(skip, q.local))),
            };
            assert(keep == p(c));
            if keep {
                let ghost before = plan.node_edits@;
                plan.node_edits.push(NodeEdit::InsertClone { parent: Target::New(k1), before: None, source: c });
                assert(plan.node_edits@.subrange(0, k + 2) =~= before.subrange(0, k + 2));
            }
        }
        proof {
            assert(ks.take(ks.len() as int) =~= ks);
            assert(plan.node_edits@.subrange(0, k as int) =~= e1.subrange(0, k as int));
            assert(plan.node_edits@[k as int] == plan.node_edits@.subrange(0, k + 2)[k as int]);
            assert(plan.node_edits@[k + 1] == plan.node_edits@.subrange(0, k + 2)[k + 1]);
        }
        Some(k)
    }

    /// `w:delText` -> `w:t`, `w:delInstrText` -> `w:instrText` in the live subtree at `root`
    /// (rejecting a deletion).
    pub fn rename_to_live(plan: &mut MutationPlan, dom: &Dom, root: NodeId)
        requires
            dom.wf(),
        ensures
            final(plan).node_edits@ == old(plan).node_edits@ + renames(*dom, root, dom.len(), false),
            same_rest(*old(plan), *final(plan)),
    {
        rename_rec(plan, dom, root, dom.nodes.len(), false);
    }

    /// `w:t` -> `w:delText`, `w:instrText` -> `w:delInstrText` in the live subtree at `root`
    /// (a run moved into `w:del`).
    pub fn rename_to_deleted(plan: &mut MutationPlan, dom: &Dom, root: NodeId)
        requires
            dom.wf(),
        ensures
            final(plan).node_edits@ == old(plan).node_edits@ + renames(*dom, root, dom.len(), true),
            same_rest(*old(plan), *final(plan)),
    {
        rename_rec(plan, dom, root, dom.nodes.len(), true);
    }
}

/// Where a child comes after an item of order `mine` (`None`: after everything ordered).
pub open spec fn child_later(c: NewNode, table: Seq<QName>, mine: Option<int>) -> bool {
    match c {
        NewNode::Element(e) => match order_of(table, e.name) {
            None => true,
            Some(i) => match mine {
                None => false,
                Some(m) => i > m,
            },
        },
        NewNode::Text(_) => false,
    }
}

/// The first position at or after `j` whose child comes after `mine` (the length when none).
pub open spec fn insert_pos(cs: Seq<NewNode>, table: Seq<QName>, mine: Option<int>, j: int) -> int
    decreases cs.len() - j,
{
    if j < 0 || j >= cs.len() {
        cs.len() as int
    } else if child_later(cs[j], table, mine) {
        j
    } else {
        insert_pos(cs, table, mine, j + 1)
    }
}

/// Inserts `marker` into a property container that is not in the DOM yet, at its place in
/// the container's order table.
pub fn insert_ordered(container: &mut NewElement, marker: NewElement, order: &[QName])
    ensures
        final(container).name == old(container).name,
        final(container).attrs@ == old(container).attrs@,
        final(container).children@ == old(container).children@.insert(
            insert_pos(old(container).children@, order@, order_of(order@, marker.name), 0),
            NewNode::Element(marker),
        ),
{
    let mine = order_index(order, marker.name);
    let ghost mine_s = order_of(order@, marker.name);
    let ghost cs = container.children@;
    let mut at: usize = 0;
    let mut found = false;
    let n = container.children.len();
    while !found && at < n
        invariant
            n == cs.len(),
            cs == container.children@,
            at <= n,
            mine_s == order_of(order@, marker.name),
            mine matches Some(k) ==> mine_s == Some(k as int),
            mine is None <==> mine_s is None,
            found ==> at < n && child_later(cs[at as int], order@, mine_s),
            insert_pos(cs, order@, mine_s, 0) == insert_pos(cs, order@, mine_s, at as int),
        decreases n - at, (if found { 0int } else { 1int }),
    {
        let later = match &container.children[at] {
            NewNode::Element(e) => match order_index(order, e.name) {
                None => true,
                Some(i) => match mine {
                    None => false,
                    Some(m) => i > m,
                },
            },
            NewNode::Text(_) => false,
        };
        assert(later == child_later(cs[at as int], order@, mine_s));
        if later {
            found = true;
        } else {
            at = at + 1;
        }
    }
    assert(insert_pos(cs, order@, mine_s, 0) == at as int);
    container.children.insert(at, NewNode::Element(marker));
}

/// Operations Word does not track either: they are carried out as usual.
pub fn not_tracked(_ctx: &EditContext, _what: &str) {
}

} // verus!
