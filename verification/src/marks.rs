use vstd::prelude::*;
use crate::emit::wq;
use crate::track::{Tracker, bump, is_marker, TrackSite, site_from, track_site_of, err_in_deleted};
use crate::diag::{DiagCode, Error, text};
use crate::dom::Dom;
use crate::edit::{NodeEdit, Target};
use crate::ids::NodeId;
use crate::plan::MutationPlan;
use crate::tables::wn;
use crate::xml::{LocalName, NewElement, NewNode, QName, element_same};

verus! {

/// `c` is an element named `w:<l>`.
pub open spec fn is_w_child(c: NewNode, l: LocalName) -> bool {
    c matches NewNode::Element(e) && e.name == wq(l)
}

/// The index of the first child of `cs` (from `j` on) for which `p` holds, else the length.
pub open spec fn first_index(cs: Seq<NewNode>, p: spec_fn(NewNode) -> bool, j: int) -> int
    decreases cs.len() - j,
{
    if j < 0 || j >= cs.len() {
        cs.len() as int
    } else if p(cs[j]) {
        j
    } else {
        first_index(cs, p, j + 1)
    }
}

/// `out` is `c` with marker `m` put into it as a revision container: the same name and
/// attributes, with the marker first (`first`) or last among its children.
pub open spec fn container_with(c: NewElement, out: NewNode, m: NewElement, first: bool) -> bool {
    out matches NewNode::Element(o) && o.name == c.name && o.attrs@ == c.attrs@ && o.children@.len() == c.children@.len() + 1
        && (if first {
            (o.children@[0] matches NewNode::Element(x) && element_same(m, x)) && o.children@.subrange(1, o.children@.len() as int) == c.children@
        } else {
            (o.children@.last() matches NewNode::Element(x) && element_same(m, x)) && o.children@.drop_last() == c.children@
        })
}

/// `out` is `src` with a revision marker `m` in its property container `w:<prop>`: every
/// such container gets the marker (first, or last when `!first`); without one, a new
/// container holding just the marker goes in at index `at_new`.
pub open spec fn marked(src: NewElement, out: NewElement, m: NewElement, prop: LocalName, first: bool, at_new: int) -> bool {
    &&& out.name == src.name
    &&& out.attrs@ == src.attrs@
    &&& if exists|i: int| 0 <= i < src.children@.len() && is_w_child(#[trigger] src.children@[i], prop) {
        &&& out.children@.len() == src.children@.len()
        &&& forall|i: int| 0 <= i < src.children@.len() ==> (if is_w_child(#[trigger] src.children@[i], prop) {
            src.children@[i] matches NewNode::Element(c) && container_with(c, out.children@[i], m, first)
        } else {
            out.children@[i] == src.children@[i]
        })
    } else {
        &&& 0 <= at_new <= src.children@.len()
        &&& out.children@.len() == src.children@.len() + 1
        &&& out.children@.subrange(0, at_new) == src.children@.subrange(0, at_new)
        &&& out.children@.subrange(at_new + 1, out.children@.len() as int) == src.children@.subrange(at_new, src.children@.len() as int)
        &&& out.children@[at_new] matches NewNode::Element(c) && c.name == wq(prop) && c.attrs@.len() == 0
            && c.children@.len() == 1 && c.children@[0] == NewNode::Element(m)
    }
}

fn child_is(c: &NewNode, l: LocalName) -> (r: bool)
    ensures
        r == is_w_child(*c, l),
{
    match c {
        NewNode::Element(e) => e.name == QName::w(l),
        NewNode::Text(_) => false,
    }
}

/// Puts `m` into every `w:<prop>` child of `src` (first or last); reports whether there was one.
fn mark_containers(src: NewElement, m: &NewElement, prop: LocalName, first: bool) -> (r: (NewElement, bool))
    ensures
        r.0.name == src.name,
        r.0.attrs@ == src.attrs@,
        r.1 == exists|i: int| 0 <= i < src.children@.len() && is_w_child(#[trigger] src.children@[i], prop),
        r.1 ==> marked(src, r.0, *m, prop, first, 0),
        !r.1 ==> r.0.children@ == src.children@,
{
    let ghost s0 = src;
    let mut out = NewElement::new(src.name);
    out.attrs = src.attrs;
    let mut kids = src.children;
    let mut done = false;
    let mut i: usize = 0;
    let n = kids.len();
    let mut taken: Vec<NewNode> = Vec::new();
    while kids.len() > 0
        invariant
            kids@ == s0.children@.subrange(i as int, n as int),
            n == s0.children@.len(),
            i + kids@.len() == n,
            out.name == s0.name,
            out.attrs@ == s0.attrs@,
            out.children@.len() == i,
            done == exists|j: int| 0 <= j < i && is_w_child(#[trigger] s0.children@[j], prop),
            forall|j: int| 0 <= j < i ==> (if is_w_child(#[trigger] s0.children@[j], prop) {
                s0.children@[j] matches NewNode::Element(c) && container_with(c, out.children@[j], *m, first)
            } else {
                out.children@[j] == s0.children@[j]
            }),
        decreases kids@.len(),
    {
        let c = kids.remove(0);
        proof {
            assert(s0.children@[i as int] == c);
            assert(kids@ =~= s0.children@.subrange(i + 1, n as int));
        }
        let is_prop = child_is(&c, prop);
        let ghost prev = out.children@;
        let ghost cc = c;
        match c {
            NewNode::Element(e) if is_prop => {
                let mut box_ = NewElement::new(e.name);
                box_.attrs = e.attrs;
                if first {
                    box_.children.push(NewNode::Element(m.clone()));
                    let mut rest = e.children;
                    box_.children.append(&mut rest);
                } else {
                    let mut rest = e.children;
                    box_.children.append(&mut rest);
                    box_.children.push(NewNode::Element(m.clone()));
                }
                proof {
                    if first {
                        assert(box_.children@.subrange(1, box_.children@.len() as int) =~= e.children@);
                    } else {
                        assert(box_.children@.drop_last() =~= e.children@);
                    }
                }
                out.children.push(NewNode::Element(box_));
                done = true;
                proof {
                    assert(container_with(e, out.children@[i as int], *m, first));
                }
            },
            other => {
                out.children.push(other);
            },
        }
        proof {
            assert forall|j: int| 0 <= j < i implies out.children@[j] == prev[j] by {}
            assert(is_w_child(cc, prop) ==> (cc matches NewNode::Element(c) && container_with(c, out.children@[i as int], *m, first)));
            assert(!is_w_child(cc, prop) ==> out.children@[i as int] == cc);
        }
        i = i + 1;
    }
    proof {
        assert(out.children@.len() == s0.children@.len());
    }
    (out, done)
}

impl Tracker {
    /// A new row marked inserted or deleted: `w:<mark>` last in its `w:trPr`, or a new
    /// `w:trPr` holding just the marker right after the leading `w:tblPrEx` children.
    pub fn with_row_mark(&mut self, row: NewElement, mark: LocalName) -> (out: NewElement)
        ensures
            final(self).next() == bump(old(self).next()),
            final(self).author_of() == old(self).author_of(),
            final(self).date_of() == old(self).date_of(),
            exists|m: NewElement| is_marker(m, mark, old(self).next(), old(self).author_of(), old(self).date_of())
                && marked(row, out, m, LocalName::TrPr, false,
                    first_index(row.children@, |c: NewNode| !is_w_child(c, LocalName::TblPrEx), 0)),
    {
        let marker = self.marker(mark);
        let ghost r0 = row;
        let (mut out, done) = mark_containers(row, &marker, LocalName::TrPr, false);
        if !done {
            let mut at: usize = 0;
            while at < out.children.len() && child_is(&out.children[at], LocalName::TblPrEx)
                invariant
                    out.children@ == r0.children@,
                    at <= out.children@.len(),
                    first_index(r0.children@, |c: NewNode| !is_w_child(c, LocalName::TblPrEx), 0)
                        == first_index(r0.children@, |c: NewNode| !is_w_child(c, LocalName::TblPrEx), at as int),
                decreases out.children@.len() - at,
            {
                at = at + 1;
            }
            let ghost before = out.children@;
            let wrap = NewElement::new(QName::w(LocalName::TrPr)).with_child(marker);
            out.children.insert(at, NewNode::Element(wrap));
            proof {
                assert(out.children@.subrange(0, at as int) =~= before.subrange(0, at as int));
                assert(out.children@.subrange(at + 1, out.children@.len() as int) =~= before.subrange(at as int, before.len() as int));
                assert(marked(r0, out, marker, LocalName::TrPr, false,
                    first_index(r0.children@, |c: NewNode| !is_w_child(c, LocalName::TblPrEx), 0)));
            }
            return out;
        }
        out
    }

    /// A paragraph mark marked inserted: `w:ins` first in every `w:rPr` of the `w:pPr`, or a
    /// new `w:rPr` holding just the marker before the first `w:sectPr` / `w:pPrChange` (else
    /// last).
    pub fn with_para_mark(&mut self, ppr: NewElement) -> (out: NewElement)
        ensures
            final(self).next() == bump(old(self).next()),
            final(self).author_of() == old(self).author_of(),
            final(self).date_of() == old(self).date_of(),
            exists|m: NewElement| is_marker(m, LocalName::Ins, old(self).next(), old(self).author_of(), old(self).date_of())
                && marked(ppr, out, m, LocalName::RPr, true,
                    first_index(ppr.children@, |c: NewNode| is_w_child(c, LocalName::SectPr) || is_w_child(c, LocalName::PPrChange), 0)),
    {
        let marker = self.marker(LocalName::Ins);
        let ghost p0 = ppr;
        let (mut out, done) = mark_containers(ppr, &marker, LocalName::RPr, true);
        if !done {
            let mut at: usize = 0;
            while at < out.children.len() && !(child_is(&out.children[at], LocalName::SectPr) || child_is(&out.children[at], LocalName::PPrChange))
                invariant
                    out.children@ == p0.children@,
                    at <= out.children@.len(),
                    first_index(p0.children@, |c: NewNode| is_w_child(c, LocalName::SectPr) || is_w_child(c, LocalName::PPrChange), 0)
                        == first_index(p0.children@, |c: NewNode| is_w_child(c, LocalName::SectPr) || is_w_child(c, LocalName::PPrChange), at as int),
                decreases out.children@.len() - at,
            {
                at = at + 1;
            }
            let ghost before = out.children@;
            let wrap = NewElement::new(QName::w(LocalName::RPr)).with_child(marker);
            out.children.insert(at, NewNode::Element(wrap));
            proof {
                assert(out.children@.subrange(0, at as int) =~= before.subrange(0, at as int));
                assert(out.children@.subrange(at + 1, out.children@.len() as int) =~= before.subrange(at as int, before.len() as int));
            }
            return out;
        }
        out
    }
}


/// `e` has the name and attributes of an insertion marker of this author (any id); its
/// children are not looked at.
pub open spec fn ins_by(e: NewElement, author: Seq<char>, date: Option<Seq<char>>) -> bool {
    exists|id: u32| #[trigger] crate::track::spec_decimal_of(id) == e.attrs@[0].1@ && {
        &&& e.name == wq(LocalName::Ins)
        &&& e.attrs@.len() == (if date is Some { 3int } else { 2int })
        &&& e.attrs@[0].0 == wq(LocalName::Id)
        &&& e.attrs@[1].0 == wq(LocalName::Author)
        &&& e.attrs@[1].1@ == author
        &&& date matches Some(d) ==> e.attrs@[2].0 == wq(LocalName::Date) && e.attrs@[2].1@ == d
    }
}

/// `out` is `w:ins` around `node` alone.
pub open spec fn wrapped_in_ins(out: NewElement, node: NewElement, author: Seq<char>, date: Option<Seq<char>>) -> bool {
    &&& out.children@ == seq![NewNode::Element(node)]
    &&& ins_by(out, author, date)
}

/// `out` is the new paragraph `p` marked inserted: its `w:pPr` children carry the paragraph
/// mark (see [`Tracker::with_para_mark`]; a `w:pPr` is added first when there is none), and
/// all its other children, in order, go into one `w:ins` at the end (none when there are no
/// such children).
pub open spec fn para_marked(p: NewElement, out: NewElement, author: Seq<char>, date: Option<Seq<char>>) -> bool {
    let others = p.children@.filter(|c: NewNode| !is_w_child(c, LocalName::PPr));
    let pprs = p.children@.filter(|c: NewNode| is_w_child(c, LocalName::PPr));
    let k: int = if pprs.len() == 0 { 1 } else { pprs.len() as int };
    &&& out.name == p.name
    &&& out.attrs@ == p.attrs@
    &&& out.children@.len() == k + (if others.len() > 0 { 1int } else { 0int })
    &&& forall|i: int| 0 <= i < k ==> is_w_child(#[trigger] out.children@[i], LocalName::PPr)
    &&& (others.len() > 0 ==> (out.children@.last() matches NewNode::Element(c) && c.children@ == others
        && ins_by(c, author, date)))
}

impl Tracker {
    /// A new block marked inserted: a paragraph as [`para_marked`]; a table gets `w:ins` in
    /// every row's `w:trPr`; anything else, and any block given as raw XML (`opaque`), is
    /// wrapped in a block-level `w:ins`.
    pub fn mark_new_block_inserted(&mut self, node: NewElement, opaque: bool) -> (out: NewElement)
        ensures
            final(self).author_of() == old(self).author_of(),
            final(self).date_of() == old(self).date_of(),
            (opaque || !(node.name == wq(LocalName::P) || node.name == wq(LocalName::Tbl))) ==> wrapped_in_ins(out, node,
                old(self).author_of(), old(self).date_of()),
            !opaque && node.name == wq(LocalName::P) ==> para_marked(node, out, old(self).author_of(), old(self).date_of()),
            !opaque && node.name == wq(LocalName::Tbl) ==> {
                &&& out.name == node.name
                &&& out.attrs@ == node.attrs@
                &&& out.children@.len() == node.children@.len()
                &&& forall|i: int| 0 <= i < node.children@.len() ==> (if is_w_child(#[trigger] node.children@[i], LocalName::Tr) {
                    node.children@[i] matches NewNode::Element(tr) && (out.children@[i] matches NewNode::Element(o)
                        && exists|m: NewElement| #[trigger] ins_by(m, old(self).author_of(), old(self).date_of()) && marked(tr, o, m,
                            LocalName::TrPr, false, first_index(tr.children@, |c: NewNode| !is_w_child(c, LocalName::TblPrEx), 0)))
                } else {
                    out.children@[i] == node.children@[i]
                })
            },
    {
        if opaque || !(node.name == QName::w(LocalName::P) || node.name == QName::w(LocalName::Tbl)) {
            let m = self.marker(LocalName::Ins);
            let ghost nd = node;
            let out = m.with_child(node);
            proof {
                assert(out.children@ =~= seq![NewNode::Element(nd)]);
                assert(crate::track::spec_decimal_of(old(self).next()) == out.attrs@[0].1@);
            }
            return out;
        }
        if node.name == QName::w(LocalName::P) {
            return self.mark_paragraph(node);
        }
        let ghost n0 = node;
        let mut out = NewElement::new(node.name);
        out.attrs = node.attrs;
        let mut kids = node.children;
        let n = kids.len();
        let mut i: usize = 0;
        while kids.len() > 0
            invariant
                kids@ == n0.children@.subrange(i as int, n as int),
                n == n0.children@.len(),
                i + kids@.len() == n,
                out.name == n0.name,
                out.attrs@ == n0.attrs@,
                out.children@.len() == i,
                self.author_of() == old(self).author_of(),
                self.date_of() == old(self).date_of(),
                forall|j: int| 0 <= j < i ==> (if is_w_child(#[trigger] n0.children@[j], LocalName::Tr) {
                    n0.children@[j] matches NewNode::Element(tr) && (out.children@[j] matches NewNode::Element(o)
                        && exists|m: NewElement| #[trigger] ins_by(m, old(self).author_of(), old(self).date_of()) && marked(tr, o, m,
                            LocalName::TrPr, false, first_index(tr.children@, |c: NewNode| !is_w_child(c, LocalName::TblPrEx), 0)))
                } else {
                    out.children@[j] == n0.children@[j]
                }),
            decreases kids@.len(),
        {
            let c = kids.remove(0);
            proof {
                assert(n0.children@[i as int] == c);
                assert(kids@ =~= n0.children@.subrange(i + 1, n as int));
            }
            let is_row = child_is(&c, LocalName::Tr);
            let ghost prev = out.children@;
            match c {
                NewNode::Element(e) if is_row => {
                    let ghost me = self.next();
                    let r = self.with_row_mark(e, LocalName::Ins);
                    out.children.push(NewNode::Element(r));
                    proof {
                        let m = choose|m: NewElement| is_marker(m, LocalName::Ins, me, old(self).author_of(), old(self).date_of())
                            && marked(e, r, m, LocalName::TrPr, false, first_index(e.children@, |c: NewNode| !is_w_child(c, LocalName::TblPrEx), 0));
                        assert(crate::track::spec_decimal_of(me) == m.attrs@[0].1@);
                        assert(ins_by(m, old(self).author_of(), old(self).date_of()));
                    }
                },
                other => out.children.push(other),
            }
            proof {
                assert forall|j: int| 0 <= j < i implies out.children@[j] == prev[j] by {}
            }
            i = i + 1;
        }
        out
    }

    fn mark_paragraph(&mut self, node: NewElement) -> (out: NewElement)
        requires
            node.name == wq(LocalName::P),
        ensures
            final(self).author_of() == old(self).author_of(),
            final(self).date_of() == old(self).date_of(),
            para_marked(node, out, old(self).author_of(), old(self).date_of()),
    {
        let ghost n0 = node;
        let mut content = self.marker(LocalName::Ins);
        let ghost m0 = content;
        let mut out = NewElement::new(node.name);
        out.attrs = node.attrs;
        let mut kids = node.children;
        let n = kids.len();
        let mut i: usize = 0;
        while kids.len() > 0
            invariant
                kids@ == n0.children@.subrange(i as int, n as int),
                n == n0.children@.len(),
                i + kids@.len() == n,
                out.name == n0.name,
                out.attrs@ == n0.attrs@,
                content.name == m0.name,
                content.attrs@ == m0.attrs@,
                content.children@ == n0.children@.take(i as int).filter(|c: NewNode| !is_w_child(c, LocalName::PPr)),
                out.children@.len() == n0.children@.take(i as int).filter(|c: NewNode| is_w_child(c, LocalName::PPr)).len(),
                forall|j: int| 0 <= j < out.children@.len() ==> is_w_child(#[trigger] out.children@[j], LocalName::PPr),
                self.author_of() == old(self).author_of(),
                self.date_of() == old(self).date_of(),
            decreases kids@.len(),
        {
            let c = kids.remove(0);
            proof {
                assert(n0.children@[i as int] == c);
                assert(kids@ =~= n0.children@.subrange(i + 1, n as int));
                reveal_with_fuel(Seq::<_>::filter, 1);
                assert(n0.children@.take(i + 1).drop_last() =~= n0.children@.take(i as int));
                assert(n0.children@.take(i + 1).last() == c);
            }
            let is_ppr = child_is(&c, LocalName::PPr);
            match c {
                NewNode::Element(e) if is_ppr => {
                    let ghost en = e.name;
                    let p = self.with_para_mark(e);
                    out.children.push(NewNode::Element(p));
                },
                other => content.children.push(other),
            }
            i = i + 1;
        }
        proof {
            assert(n0.children@.take(n as int) =~= n0.children@);
        }
        if out.children.len() == 0 {
            let p = self.with_para_mark(NewElement::new(QName::w(LocalName::PPr)));
            out.children.insert(0, NewNode::Element(p));
        }
        if content.children.len() > 0 {
            let ghost cv = content;
            out.children.push(NewNode::Element(content));
            proof {
                assert(out.children@.last() == NewNode::Element(cv));
                assert(crate::track::spec_decimal_of(old(self).next()) == cv.attrs@[0].1@);
            }
        }
        out
    }
}


impl Tracker {
    /// Records the old run properties of `run` before they change: a `w:rPrChange` snapshot
    /// in its `w:rPr` (see [`Tracker::snapshot`]); a run without `w:rPr` gets an empty one
    /// (before its first live child) holding an `w:rPrChange` with an empty `w:rPr` (all its
    /// formatting was inherited).
    pub fn snapshot_run_props(&mut self, plan: &mut MutationPlan, dom: &Dom, run: NodeId)
        requires
            dom.wf(),
            dom.has(run),
        ensures
            final(self).author_of() == old(self).author_of(),
            final(self).date_of() == old(self).date_of(),
            final(plan).node_edits@.len() >= old(plan).node_edits@.len(),
            final(plan).node_edits@.subrange(0, old(plan).node_edits@.len() as int) == old(plan).node_edits@,
            crate::drawing::child_named(*dom, run, wn(LocalName::RPr)) is Some && dom.spec_live_children_named(
                crate::drawing::child_named(*dom, run, wn(LocalName::RPr)).unwrap(), wq(LocalName::RPrChange)).len() == 0
                ==> (final(plan).node_edits@[old(plan).node_edits@.len() as int] matches NodeEdit::Insert { parent, before, node: m }
                && parent == Target::Node(crate::drawing::child_named(*dom, run, wn(LocalName::RPr)).unwrap()) && before is None
                && is_marker(m, LocalName::RPrChange, old(self).next(), old(self).author_of(), old(self).date_of())),
            crate::drawing::child_named(*dom, run, wn(LocalName::RPr)) is None ==> {
                let k = old(plan).node_edits@.len() as int;
                &&& final(plan).node_edits@.len() == k + 2
                &&& final(self).next() == bump(old(self).next())
                &&& final(plan).node_edits@[k] matches NodeEdit::Insert { parent, before, node } && parent == Target::Node(run)
                    && before == (if dom.spec_live_children(run).len() > 0 { Some(dom.spec_live_children(run)[0]) } else { None })
                    && node.name == wq(LocalName::RPr) && node.attrs@.len() == 0 && node.children@.len() == 0
                &&& final(plan).node_edits@[k + 1] matches NodeEdit::Insert { parent, before, node: c } && parent == Target::New(k as usize)
                    && before is None && c.name == wq(LocalName::RPrChange) && c.children@.len() == 1
                    && (c.children@[0] matches NewNode::Element(inner) && inner.name == wq(LocalName::RPr)
                    && inner.attrs@.len() == 0 && inner.children@.len() == 0)
            },
    {
        match crate::drawing::first_child_named(dom, run, QName::w(LocalName::RPr)) {
            Some(rpr) => {
                let _ = self.snapshot(plan, dom, rpr, LocalName::RPrChange, LocalName::RPr, &[]);
                proof {
                    if plan.node_edits@ == old(plan).node_edits@ {
                        assert(plan.node_edits@.subrange(0, old(plan).node_edits@.len() as int) =~= old(plan).node_edits@);
                    }
                }
            },
            None => {
                let k = plan.node_edits.len();
                let kids = dom.live_children(run);
                let before = if kids.len() > 0 { Some(kids[0]) } else { None };
                plan.push(NodeEdit::Insert { parent: Target::Node(run), before, node: NewElement::new(QName::w(LocalName::RPr)) });
                let change = self.marker(LocalName::RPrChange).with_child(NewElement::new(QName::w(LocalName::RPr)));
                plan.push(NodeEdit::Insert { parent: Target::New(k), before: None, node: change });
                proof {
                    assert(plan.node_edits@.subrange(0, k as int) =~= old(plan).node_edits@);
                }
            },
        }
    }
}

/// The plan gained the edits `es` and nothing else.
pub open spec fn gained(old: MutationPlan, new: MutationPlan, es: Seq<NodeEdit>) -> bool {
    &&& new.node_edits@ == old.node_edits@ + es
    &&& new.part == old.part
    &&& new.affected_blocks == old.affected_blocks
    &&& new.structure_changed == old.structure_changed
    &&& new.diagnostics == old.diagnostics
    &&& new.offset_delta == old.offset_delta
    &&& new.span == old.span
}

/// `e` inserts this author's new `w:ins` (with id `id`) under `parent` before `before`.
pub open spec fn ins_at(e: NodeEdit, parent: NodeId, before: Option<NodeId>, id: u32, t: Tracker) -> bool {
    e matches NodeEdit::Insert { parent: p, before: b, node } && p == Target::Node(parent) && b == before
        && is_marker(node, LocalName::Ins, id, t.author_of(), t.date_of())
}

/// Where in the live children of another author's `w:ins` a position before `before` cuts it.
pub open spec fn cut_of(kids: Seq<NodeId>, before: Option<NodeId>) -> Option<int> {
    match before {
        Some(b) => Dom::first_pos(kids, b, 0),
        None => None,
    }
}

fn position_of(kids: &Vec<NodeId>, before: Option<NodeId>) -> (r: Option<usize>)
    ensures
        r matches Some(i) ==> cut_of(kids@, before) == Some(i as int) && i < kids@.len(),
        r is None ==> cut_of(kids@, before) is None,
{
    let b = match before {
        Some(b) => b,
        None => {
            return None;
        },
    };
    let mut i: usize = 0;
    while i < kids.len()
        invariant
            i <= kids@.len(),
            before == Some(b),
            Dom::first_pos(kids@, b, 0) == Dom::first_pos(kids@, b, i as int),
        decreases kids@.len() - i,
    {
        if kids[i] == b {
            return Some(i);
        }
        i = i + 1;
    }
    None
}

impl MutationPlan {
    fn wrap_new_ins(&mut self, t: &mut Tracker, parent: NodeId, before: Option<NodeId>) -> (r: (Target, Option<NodeId>))
        ensures
            r == (Target::New(old(self).node_edits@.len() as usize), None::<NodeId>),
            gained(*old(self), *final(self), seq![final(self).node_edits@.last()]),
            ins_at(final(self).node_edits@.last(), parent, before, old(t).next(), *old(t)),
            final(t).next() == bump(old(t).next()),
            final(t).author_of() == old(t).author_of(),
            final(t).date_of() == old(t).date_of(),
    {
        let k = self.node_edits.len();
        let m = t.marker(LocalName::Ins);
        self.node_edits.push(NodeEdit::Insert { parent: Target::Node(parent), before, node: m });
        assert(self.node_edits@ =~= old(self).node_edits@ + seq![self.node_edits@.last()]);
        (Target::New(k), None)
    }

    /// Where new text goes while tracking, at `before` under `parent` in paragraph `para`:
    /// inside this author's `w:ins` as it is; inside deleted text, refused (`EditInDeleted`);
    /// directly inside another author's `w:ins`, that one is cut in two around a new `w:ins`
    /// (the right half gets the same name and attributes and a fresh id); anywhere else, a new
    /// `w:ins` is inserted there. Returns the container and the node to insert before.
    pub fn plan_ins_site(&mut self, dom: &Dom, t: &mut Tracker, para: NodeId, parent: NodeId, before: Option<NodeId>) -> (r: Result<(Target, Option<NodeId>), Error>)
        requires
            dom.wf(),
            dom.has(parent),
        ensures
            match site_from(*dom, parent, para, old(t).author_of(), dom.len()) {
                TrackSite::Deleted(_) => r matches Err(e) && e.has_code(DiagCode::EditInDeleted)
                    && *final(self) == *old(self) && *final(t) == *old(t),
                TrackSite::OwnIns(_) => r == Ok::<(Target, Option<NodeId>), Error>((Target::Node(parent), before))
                    && *final(self) == *old(self) && *final(t) == *old(t),
                TrackSite::Clean => r == Ok::<(Target, Option<NodeId>), Error>((Target::New(old(self).node_edits@.len() as usize), None))
                    && gained(*old(self), *final(self), seq![final(self).node_edits@.last()])
                    && ins_at(final(self).node_edits@.last(), parent, before, old(t).next(), *old(t)),
                TrackSite::OtherIns(ins) => if ins != parent {
                    r == Ok::<(Target, Option<NodeId>), Error>((Target::New(old(self).node_edits@.len() as usize), None))
                        && gained(*old(self), *final(self), seq![final(self).node_edits@.last()])
                        && ins_at(final(self).node_edits@.last(), parent, before, old(t).next(), *old(t))
                } else {
                    match dom.at(ins).parent {
                        None => r matches Err(e) && e.has_code(DiagCode::EditUnsupported)
                            && *final(self) == *old(self) && *final(t) == *old(t),
                        Some(gp) => {
                            let kids = dom.spec_live_children(ins);
                            let k = old(self).node_edits@.len();
                            let es = final(self).node_edits@.skip(k as int);
                            &&& r == Ok::<(Target, Option<NodeId>), Error>((Target::New(k as usize), None))
                            &&& gained(*old(self), *final(self), es)
                            &&& match cut_of(kids, before) {
                                None => es.len() == 1 && ins_at(es[0], gp, dom.spec_next_sibling(ins, false), old(t).next(), *old(t)),
                                Some(i) => if i == 0 {
                                    es.len() == 1 && ins_at(es[0], gp, Some(ins), old(t).next(), *old(t))
                                } else {
                                    &&& es.len() == 2 + kids.len() - i
                                    &&& ins_at(es[0], gp, dom.spec_next_sibling(ins, false), old(t).next(), *old(t))
                                    &&& es[1] matches NodeEdit::Insert { parent: p, before: b, node }
                                        && p == Target::Node(gp) && b == dom.spec_next_sibling(ins, false)
                                        && Some(node.name) == dom.name_of(ins) && node.attrs@.len() >= 1
                                        && node.attrs@[0].0 == wq(LocalName::Id)
                                        && node.attrs@[0].1@ == crate::text::spec_decimal(bump(old(t).next()) as nat)
                                    &&& forall|j: int| 0 <= j < kids.len() - i ==> #[trigger] es[2 + j]
                                        == (NodeEdit::Move { node: kids[i + j], parent: Target::New((k + 1) as usize), before: None })
                                },
                            }
                        },
                    }
                },
            },
            r is Ok ==> final(t).author_of() == old(t).author_of() && final(t).date_of() == old(t).date_of(),
    {
        let site = track_site_of(dom, parent, para, t.author_name());
        match site {
            TrackSite::Deleted(_) => Err(err_in_deleted()),
            TrackSite::OwnIns(_) => Ok((Target::Node(parent), before)),
            TrackSite::Clean => Ok(self.wrap_new_ins(t, parent, before)),
            TrackSite::OtherIns(ins) => {
                if ins != parent {
                    return Ok(self.wrap_new_ins(t, parent, before));
                }
                let gp = match dom.parent(ins) {
                    Some(g) => g,
                    None => {
                        return Err(Error::edit(DiagCode::EditUnsupported, text("w:ins 没有父节点")));
                    },
                };
                let kids = dom.live_children(ins);
                let cut = position_of(&kids, before);
                match cut {
                    None => {
                        let after = dom.next_live_sibling(ins);
                        let r = self.wrap_new_ins(t, gp, after);
                        assert(final(self).node_edits@.skip(old(self).node_edits@.len() as int) =~= seq![final(self).node_edits@.last()]);
                        Ok(r)
                    },
                    Some(i) => {
                        if i == 0 {
                            let r = self.wrap_new_ins(t, gp, Some(ins));
                            assert(final(self).node_edits@.skip(old(self).node_edits@.len() as int) =~= seq![final(self).node_edits@.last()]);
                            return Ok(r);
                        }
                        let after = dom.next_live_sibling(ins);
                        let k = self.node_edits.len();
                        let ghost t0 = *t;
                        let (target, _) = self.wrap_new_ins(t, gp, after);
                        let ghost wrapped = self.node_edits@;
                        let k2 = self.node_edits.len();
                        proof {
                            assert(dom.is_element(ins)) by {
                                assert(dom.name_of(ins) is Some);
                            }
                        }
                        let right = t.clone_marker(dom, ins);
                        self.node_edits.push(NodeEdit::Insert { parent: Target::Node(gp), before: after, node: right });
                        let ghost base = self.node_edits@;
                        let mut j: usize = i;
                        while j < kids.len()
                            invariant
                                i <= j <= kids@.len(),
                                k2 == k + 1,
                                self.node_edits@.len() == base.len() + (j - i),
                                self.node_edits@.take(base.len() as int) == base,
                                forall|m: int| 0 <= m < j - i ==> #[trigger] self.node_edits@[base.len() + m]
                                    == (NodeEdit::Move { node: kids@[i + m], parent: Target::New(k2), before: None }),
                                self.part == old(self).part,
                                self.affected_blocks == old(self).affected_blocks,
                                self.structure_changed == old(self).structure_changed,
                                self.diagnostics == old(self).diagnostics,
                                self.offset_delta == old(self).offset_delta,
                                self.span == old(self).span,
                            decreases kids@.len() - j,
                        {
                            let ghost before_push = self.node_edits@;
                            self.node_edits.push(NodeEdit::Move { node: kids[j], parent: Target::New(k2), before: None });
                            proof {
                                assert(self.node_edits@.take(base.len() as int) =~= before_push.take(base.len() as int));
                                assert forall|m: int| 0 <= m < j + 1 - i implies #[trigger] self.node_edits@[base.len() + m]
                                    == (NodeEdit::Move { node: kids@[i + m], parent: Target::New(k2), before: None }) by {
                                    if m < j - i {
                                        assert(self.node_edits@[base.len() + m] == before_push[base.len() + m]);
                                    }
                                }
                            }
                            j = j + 1;
                        }
                        proof {
                            let es = self.node_edits@.skip(k as int);
                            assert(wrapped.take(k as int) =~= old(self).node_edits@);
                            assert(base.take(k as int) =~= wrapped.take(k as int));
                            assert(self.node_edits@.take(k as int) =~= base.take(k as int));
                            assert(self.node_edits@ =~= self.node_edits@.take(k as int) + es);
                            assert(base[k as int] == wrapped[k as int]);
                            assert(self.node_edits@.take(base.len() as int)[k as int] == self.node_edits@[k as int]);
                            assert(self.node_edits@.take(base.len() as int)[k + 1] == self.node_edits@[k + 1]);
                            assert(es[0] == wrapped[k as int]);
                            assert(es[1] == base[k + 1]);
                            assert forall|m: int| 0 <= m < kids@.len() - i implies #[trigger] es[2 + m]
                                == (NodeEdit::Move { node: kids@[i + m], parent: Target::New(k2), before: None }) by {
                                assert(es[2 + m] == self.node_edits@[base.len() + m]);
                            }
                        }
                        Ok((target, None))
                    },
                }
            },
        }
    }
}

} // verus!
