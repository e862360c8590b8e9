use vstd::prelude::*;
use crate::diag::text;
use crate::dom::Dom;
use crate::edit::{NodeEdit, Target};
use crate::ids::NodeId;
use crate::image::{aq, nq, named_pred};
use crate::plan::MutationPlan;
use crate::tables::is_leaf;
use crate::track::{find_first, first_of};
use crate::xml::{LocalName, NewElement, NewNode, NsId, QName};

verus! {

/// A name in the chart namespace.
pub open spec fn cq(l: LocalName) -> QName {
    QName { ns: NsId::C, local: l }
}

/// Only the edit list of a plan changed.
pub open spec fn only_edits_changed(old: MutationPlan, new: MutationPlan) -> bool {
    &&& new.part == old.part
    &&& new.affected_blocks == old.affected_blocks
    &&& new.structure_changed == old.structure_changed
    &&& new.diagnostics == old.diagnostics
    &&& new.offset_delta == old.offset_delta
    &&& new.span == old.span
}

/// `a:r` holding an `a:t` with the text `t`.
pub open spec fn title_run(e: NewElement, t: Seq<char>) -> bool {
    &&& e.name == aq(LocalName::R)
    &&& e.attrs@.len() == 0
    &&& e.children@.len() == 1
    &&& e.children@[0] matches NewNode::Element(x) && x.name == aq(LocalName::T) && x.attrs@.len() == 0
        && x.children@.len() == 1 && (x.children@[0] matches NewNode::Text(s) && s@ == t)
}

/// `c:tx` with a rich body: `a:bodyPr`, `a:lstStyle`, and one `a:p` holding the run of `t`.
pub open spec fn rich_tx(e: NewElement, t: Seq<char>) -> bool {
    &&& e.name == cq(LocalName::Tx)
    &&& e.attrs@.len() == 0
    &&& e.children@.len() == 1
    &&& e.children@[0] matches NewNode::Element(r) && r.name == cq(LocalName::Rich) && r.attrs@.len() == 0
        && r.children@.len() == 3 && is_leaf(r.children@[0], aq(LocalName::BodyPr), seq![])
        && is_leaf(r.children@[1], aq(LocalName::LstStyle), seq![])
        && (r.children@[2] matches NewNode::Element(p) && p.name == aq(LocalName::P) && p.attrs@.len() == 0
        && p.children@.len() == 1 && (p.children@[0] matches NewNode::Element(x) && title_run(x, t)))
}

/// A new `c:title`: the rich text of `t`, then `c:overlay val="0"`.
pub open spec fn new_title_element(e: NewElement, t: Seq<char>) -> bool {
    &&& e.name == cq(LocalName::Title)
    &&& e.attrs@.len() == 0
    &&& e.children@.len() == 2
    &&& e.children@[0] matches NewNode::Element(x) && rich_tx(x, t)
    &&& is_leaf(e.children@[1], cq(LocalName::Overlay), seq![(nq(LocalName::Val), "0"@)])
}

fn run_of(t: &str) -> (e: NewElement)
    ensures
        title_run(e, t@),
{
    NewElement::new(QName::new(NsId::A, LocalName::R)).with_child(
        NewElement::new(QName::new(NsId::A, LocalName::T)).with_text(text(t)),
    )
}

fn rich_of(run: NewElement) -> (e: NewElement)
    ensures
        e.name == cq(LocalName::Tx),
        e.attrs@.len() == 0,
        e.children@.len() == 1,
        e.children@[0] matches NewNode::Element(r) && r.name == cq(LocalName::Rich) && r.attrs@.len() == 0
            && r.children@.len() == 3 && is_leaf(r.children@[0], aq(LocalName::BodyPr), seq![])
            && is_leaf(r.children@[1], aq(LocalName::LstStyle), seq![])
            && (r.children@[2] matches NewNode::Element(p) && p.name == aq(LocalName::P) && p.attrs@.len() == 0
            && p.children@.len() == 1 && p.children@[0] == NewNode::Element(run)),
{
    NewElement::new(QName::new(NsId::C, LocalName::Tx)).with_child(
        NewElement::new(QName::new(NsId::C, LocalName::Rich))
            .with_child(NewElement::new(QName::new(NsId::A, LocalName::BodyPr)))
            .with_child(NewElement::new(QName::new(NsId::A, LocalName::LstStyle)))
            .with_child(NewElement::new(QName::new(NsId::A, LocalName::P)).with_child(run)),
    )
}

fn first_named(dom: &Dom, ns: &Vec<NodeId>, q: QName) -> (r: Option<NodeId>)
    ensures
        r == find_first(ns@, named_pred(*dom, q)),
{
    let mut i: usize = 0;
    assert(ns@.skip(0) =~= ns@);
    while i < ns.len()
        invariant
            i <= ns@.len(),
            find_first(ns@, named_pred(*dom, q)) == find_first(ns@.skip(i as int), named_pred(*dom, q)),
        decreases ns@.len() - i,
    {
        proof {
            assert(ns@.skip(i as int).drop_first() =~= ns@.skip(i + 1));
            assert(ns@.skip(i as int)[0] == ns@[i as int]);
        }
        if dom.is(ns[i], q) {
            return Some(ns[i]);
        }
        i = i + 1;
    }
    None
}

/// The chart element under `root`.
pub open spec fn chart_of(dom: Dom, root: NodeId) -> Option<NodeId> {
    find_first(dom.spec_descendants(root), named_pred(dom, cq(LocalName::Chart)))
}

/// The `a:p` of the text of a title, and the `a:endParaRPr` of that paragraph.
pub open spec fn title_tx(dom: Dom, title: NodeId) -> Option<NodeId> {
    find_first(dom.kids(title), named_pred(dom, cq(LocalName::Tx)))
}

/// The first paragraph under the text of a title.
pub open spec fn title_para(dom: Dom, title: NodeId) -> Option<NodeId> {
    match title_tx(dom, title) {
        Some(tx) => find_first(dom.spec_descendants(tx), named_pred(dom, aq(LocalName::P))),
        None => None,
    }
}

impl MutationPlan {
    /// A chart without a title gets one with `text`, as the first child of `c:chart` (nothing
    /// happens without a `c:chart`).
    pub fn new_title(dom: &Dom, root: NodeId, t: &str, plan: &mut MutationPlan)
        requires
            dom.wf(),
            dom.has(root),
        ensures
            only_edits_changed(*old(plan), *final(plan)),
            match chart_of(*dom, root) {
                None => final(plan).node_edits@ == old(plan).node_edits@,
                Some(chart) => final(plan).node_edits@.len() == old(plan).node_edits@.len() + 1
                    && final(plan).node_edits@.drop_last() == old(plan).node_edits@
                    && (final(plan).node_edits@.last() matches NodeEdit::Insert { parent, before, node }
                    && parent == Target::Node(chart) && before == first_of(dom.spec_live_children(chart))
                    && new_title_element(node, t@)),
            },
    {
        let desc = dom.descendants(root);
        let chart = match first_named(dom, &desc, QName::new(NsId::C, LocalName::Chart)) {
            Some(c) => c,
            None => {
                return;
            },
        };
        proof {
            crate::image::lemma_find_first_in(desc@, named_pred(*dom, cq(LocalName::Chart)));
        }
        let title = NewElement::new(QName::new(NsId::C, LocalName::Title)).with_child(rich_of(run_of(t))).with_child(
            NewElement::new(QName::new(NsId::C, LocalName::Overlay)).with_attr(QName::new(NsId::NoNamespace, LocalName::Val), text("0")),
        );
        let kids = dom.live_children(chart);
        let first = if kids.len() > 0 { Some(kids[0]) } else { None };
        plan.node_edits.push(NodeEdit::Insert { parent: Target::Node(chart), before: first, node: title });
        assert(final(plan).node_edits@.drop_last() =~= old(plan).node_edits@);
    }

    /// A title without text gets a run of `text`: into the paragraph of its rich text (before
    /// a closing `a:endParaRPr`), or as a new rich text that replaces a `c:tx` without a
    /// paragraph, or comes first in the title.
    pub fn inject_title(dom: &Dom, title: NodeId, t: &str, plan: &mut MutationPlan)
        requires
            dom.wf(),
            dom.has(title),
        ensures
            only_edits_changed(*old(plan), *final(plan)),
            final(plan).node_edits@.len() == old(plan).node_edits@.len() + 1,
            final(plan).node_edits@.drop_last() == old(plan).node_edits@,
            match title_para(*dom, title) {
                Some(p) => final(plan).node_edits@.last() matches NodeEdit::Insert { parent, before, node }
                    && parent == Target::Node(p)
                    && before == find_first(dom.kids(p), named_pred(*dom, aq(LocalName::EndParaRPr)))
                    && title_run(node, t@),
                None => match title_tx(*dom, title) {
                    Some(tx) => final(plan).node_edits@.last() matches NodeEdit::Replace { old, node }
                        && old == tx && rich_tx(node, t@),
                    None => final(plan).node_edits@.last() matches NodeEdit::Insert { parent, before, node }
                        && parent == Target::Node(title) && before == first_of(dom.spec_live_children(title))
                        && rich_tx(node, t@),
                },
            },
    {
        let run = run_of(t);
        let tx = first_named(dom, dom.children(title), QName::new(NsId::C, LocalName::Tx));
        let p = match tx {
            Some(x) => {
                proof {
                    crate::image::lemma_find_first_in(dom.kids(title), named_pred(*dom, cq(LocalName::Tx)));
                }
                let d = dom.descendants(x);
                first_named(dom, &d, QName::new(NsId::A, LocalName::P))
            },
            None => None,
        };
        if let Some(p) = p {
            proof {
                let tx_node = tx.unwrap();
                crate::image::lemma_find_first_in(dom.spec_descendants(tx_node), named_pred(*dom, aq(LocalName::P)));
            }
            let end_pr = first_named(dom, dom.children(p), QName::new(NsId::A, LocalName::EndParaRPr));
            plan.node_edits.push(NodeEdit::Insert { parent: Target::Node(p), before: end_pr, node: run });
            assert(final(plan).node_edits@.drop_last() =~= old(plan).node_edits@);
            return;
        }
        let rich = rich_of(run);
        match tx {
            Some(x) => {
                plan.node_edits.push(NodeEdit::Replace { old: x, node: rich });
            },
            None => {
                let kids = dom.live_children(title);
                let first = if kids.len() > 0 { Some(kids[0]) } else { None };
                plan.node_edits.push(NodeEdit::Insert { parent: Target::Node(title), before: first, node: rich });
            },
        }
        assert(final(plan).node_edits@.drop_last() =~= old(plan).node_edits@);
    }
}

} // verus!
