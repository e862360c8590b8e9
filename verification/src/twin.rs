use vstd::prelude::*;
use crate::diag::{DiagCode, Error, text};
use crate::dom::Dom;
use crate::edit::{NodeEdit, Target};
use crate::ids::{NodeId, PartId};
use crate::image::named_pred;
use crate::package::Package;
use crate::plan::{MutationPlan, MutationResult};
use crate::session::EditSession;
use crate::tables::wn;
use crate::track::{find_first, select};
use crate::xml::{LocalName, NsId, QName};

verus! {

/// A name in the markup-compatibility namespace.
pub open spec fn mq(l: LocalName) -> QName {
    QName { ns: NsId::Mc, local: l }
}

/// A content twin to keep in step: an `mc:AlternateContent` and the index of one of the
/// `w:txbxContent` of its `mc:Choice` (the `mc:Fallback` holds the same text boxes in the
/// same order).
#[derive(Debug, Clone, Copy, PartialEq, Eq, Structural)]
pub struct TwinSite {
    pub part: Option<PartId>,
    pub ac: NodeId,
    pub idx: usize,
}

/// The live `w:txbxContent` under `branch`, in document order.
pub open spec fn txbx_of(dom: Dom, branch: NodeId) -> Seq<NodeId> {
    select(dom.spec_descendants(branch), named_pred(dom, wn(LocalName::TxbxContent)))
}

/// The site a text box content belongs to: the `mc:AlternateContent` above its nearest
/// `mc:Choice` and its position among the Choice's text boxes. `None` outside a Choice.
pub open spec fn site_of(dom: Dom, part: Option<PartId>, t: NodeId) -> Option<TwinSite> {
    match find_first(dom.spec_self_and_ancestors(t).drop_first(), named_pred(dom, mq(LocalName::Choice))) {
        None => None,
        Some(choice) => match (if dom.has(choice) { dom.at(choice).parent } else { None }) {
            Some(ac) => if dom.named(ac, mq(LocalName::AlternateContent)) {
                match Dom::first_pos(txbx_of(dom, choice), t, 0) {
                    Some(i) => Some(TwinSite { part, ac, idx: i as usize }),
                    None => None,
                }
            } else {
                None
            },
            None => None,
        },
    }
}

/// The text boxes an edit at `node` touches: those below it (deepest first), then `node`
/// and its ancestors that are text boxes (innermost first).
pub open spec fn boxes_at(dom: Dom, node: NodeId) -> Seq<NodeId> {
    txbx_of(dom, node).reverse() + select(dom.spec_self_and_ancestors(node), named_pred(dom, wn(LocalName::TxbxContent)))
}

/// `acc` with the sites of the boxes `ts` appended, each once.
pub open spec fn add_sites(acc: Seq<TwinSite>, dom: Dom, part: Option<PartId>, ts: Seq<NodeId>) -> Seq<TwinSite>
    decreases ts.len(),
{
    if ts.len() == 0 {
        acc
    } else {
        let prev = add_sites(acc, dom, part, ts.drop_last());
        match site_of(dom, part, ts.last()) {
            Some(s) => if prev.contains(s) {
                prev
            } else {
                prev.push(s)
            },
            None => prev,
        }
    }
}

/// The part a position names: `None` is the main part.
pub open spec fn part_id(pkg: Package, part: Option<PartId>) -> PartId {
    match part {
        Some(p) => p,
        None => pkg.main,
    }
}

/// One target's contribution: a part without a tree is an error (`EditTargetOpaque` when
/// its XML could not be parsed, else `EditBadPosition`); a target that is not a live node is
/// skipped; a target inside `mc:Fallback` is refused with `EditTargetFallback`.
pub open spec fn sites_step(pkg: Package, acc: Seq<TwinSite>, tgt: (Option<PartId>, NodeId)) -> Result<Seq<TwinSite>, DiagCode> {
    let id = part_id(pkg, tgt.0);
    match pkg.at(id).dom {
        None => Err(if pkg.at(id).opaque { DiagCode::EditTargetOpaque } else { DiagCode::EditBadPosition }),
        Some(d) => if !d.live(tgt.1) {
            Ok(acc)
        } else if find_first(d.spec_self_and_ancestors(tgt.1).drop_first(), named_pred(d, mq(LocalName::Fallback))) is Some {
            Err(DiagCode::EditTargetFallback)
        } else {
            Ok(add_sites(acc, d, tgt.0, boxes_at(d, tgt.1)))
        },
    }
}

/// The sites of the first `k` targets.
pub open spec fn sites_spec(pkg: Package, ts: Seq<(Option<PartId>, NodeId)>, k: nat) -> Result<Seq<TwinSite>, DiagCode>
    decreases k,
{
    if k == 0 {
        Ok(seq![])
    } else {
        match sites_spec(pkg, ts, (k - 1) as nat) {
            Err(c) => Err(c),
            Ok(acc) => sites_step(pkg, acc, ts[k - 1]),
        }
    }
}

/// Once a target fails, the whole list fails the same way.
proof fn lemma_sites_err(pkg: Package, ts: Seq<(Option<PartId>, NodeId)>, k: nat, m: nat)
    requires
        k <= m,
        sites_spec(pkg, ts, k) is Err,
    ensures
        sites_spec(pkg, ts, m) == sites_spec(pkg, ts, k),
    decreases m - k,
{
    if k < m {
        lemma_sites_err(pkg, ts, k, (m - 1) as nat);
    }
}

fn find_named_from(dom: &Dom, v: &Vec<NodeId>, from: usize, q: QName) -> (r: Option<NodeId>)
    requires
        from <= v@.len(),
    ensures
        r == find_first(v@.skip(from as int), named_pred(*dom, q)),
{
    let mut i: usize = from;
    while i < v.len()
        invariant
            from <= i <= v@.len(),
            find_first(v@.skip(from as int), named_pred(*dom, q)) == find_first(v@.skip(i as int), named_pred(*dom, q)),
        decreases v@.len() - i,
    {
        proof {
            assert(v@.skip(i as int).drop_first() =~= v@.skip(i + 1));
            assert(v@.skip(i as int)[0] == v@[i as int]);
        }
        if dom.is(v[i], q) {
            return Some(v[i]);
        }
        i = i + 1;
    }
    None
}

fn select_named(dom: &Dom, v: &Vec<NodeId>, q: QName) -> (r: Vec<NodeId>)
    ensures
        r@ == select(v@, named_pred(*dom, q)),
        forall|i: int| 0 <= i < r@.len() ==> v@.contains(#[trigger] r@[i]),
{
    let mut out: Vec<NodeId> = Vec::new();
    for i in 0..v.len()
        invariant
            out@ == select(v@.take(i as int), named_pred(*dom, q)),
            forall|j: int| 0 <= j < out@.len() ==> v@.contains(#[trigger] out@[j]),
    {
        proof {
            assert(v@.take(i + 1).drop_last() =~= v@.take(i as int));
            assert(v@.take(i + 1).last() == v@[i as int]);
        }
        if dom.is(v[i], q) {
            out.push(v[i]);
            proof {
                assert(v@.contains(v@[i as int]));
            }
        }
    }
    proof {
        assert(v@.take(v@.len() as int) =~= v@);
    }
    out
}

fn position_of(v: &Vec<NodeId>, x: NodeId) -> (r: Option<usize>)
    ensures
        match Dom::first_pos(v@, x, 0) {
            Some(i) => r == Some(i as usize),
            None => r is None,
        },
{
    let mut i: usize = 0;
    while i < v.len()
        invariant
            i <= v@.len(),
            Dom::first_pos(v@, x, 0) == Dom::first_pos(v@, x, i as int),
        decreases v@.len() - i,
    {
        if v[i] == x {
            return Some(i);
        }
        i = i + 1;
    }
    None
}

/// The live `w:txbxContent` under `branch`.
fn txbx_contents(dom: &Dom, branch: NodeId) -> (r: Vec<NodeId>)
    requires
        dom.wf(),
        dom.has(branch),
    ensures
        r@ == txbx_of(*dom, branch),
        forall|i: int| 0 <= i < r@.len() ==> dom.has(#[trigger] r@[i]),
{
    let desc = dom.descendants(branch);
    let r = select_named(dom, &desc, QName::w(LocalName::TxbxContent));
    proof {
        assert forall|i: int| 0 <= i < r@.len() implies dom.has(#[trigger] r@[i]) by {
            assert(desc@.contains(r@[i]));
        }
    }
    r
}

/// The site of text box `t`.
fn twin_site_of(dom: &Dom, part: Option<PartId>, t: NodeId) -> (r: Option<TwinSite>)
    requires
        dom.wf(),
    ensures
        r == site_of(*dom, part, t),
{
    let chain = dom.self_and_ancestors(t);
    proof {
        assert(chain@.skip(1) =~= chain@.drop_first());
    }
    let choice = match find_named_from(dom, &chain, 1, QName::new(NsId::Mc, LocalName::Choice)) {
        Some(c) => c,
        None => {
            return None;
        },
    };
    proof {
        crate::image::lemma_find_first_in(chain@.skip(1), named_pred(*dom, mq(LocalName::Choice)));
        let k = choose|k: int| 0 <= k < chain@.skip(1).len() && chain@.skip(1)[k] == choice;
        assert(chain@[k + 1] == choice);
    }
    let ac = match dom.parent(choice) {
        Some(a) => a,
        None => {
            return None;
        },
    };
    if !dom.is(ac, QName::new(NsId::Mc, LocalName::AlternateContent)) {
        return None;
    }
    let boxes = txbx_contents(dom, choice);
    match position_of(&boxes, t) {
        Some(i) => Some(TwinSite { part, ac, idx: i }),
        None => None,
    }
}

fn contains_site(v: &Vec<TwinSite>, s: TwinSite) -> (r: bool)
    ensures
        r == v@.contains(s),
{
    for i in 0..v.len()
        invariant
            forall|j: int| 0 <= j < i ==> v@[j] != s,
    {
        if v[i] == s {
            return true;
        }
    }
    false
}

fn push_sites(out: &mut Vec<TwinSite>, dom: &Dom, part: Option<PartId>, ts: &Vec<NodeId>)
    requires
        dom.wf(),
    ensures
        final(out)@ == add_sites(old(out)@, *dom, part, ts@),
{
    let ghost acc = out@;
    for i in 0..ts.len()
        invariant
            dom.wf(),
            acc == old(out)@,
            out@ == add_sites(acc, *dom, part, ts@.take(i as int)),
    {
        proof {
            assert(ts@.take(i + 1).drop_last() =~= ts@.take(i as int));
            assert(ts@.take(i + 1).last() == ts@[i as int]);
        }
        match twin_site_of(dom, part, ts[i]) {
            Some(s) => {
                if !contains_site(out, s) {
                    out.push(s);
                }
            },
            None => {},
        }
    }
    proof {
        assert(ts@.take(ts@.len() as int) =~= ts@);
    }
}

/// The text boxes an edit at `node` touches (see [`boxes_at`]).
fn boxes(dom: &Dom, node: NodeId) -> (r: Vec<NodeId>)
    requires
        dom.wf(),
        dom.has(node),
    ensures
        r@ == boxes_at(*dom, node),
{
    let inside = txbx_contents(dom, node);
    let mut out: Vec<NodeId> = Vec::new();
    crate::dom::push_reversed(&mut out, &inside);
    let chain = dom.self_and_ancestors(node);
    let up = select_named(dom, &chain, QName::w(LocalName::TxbxContent));
    let mut j: usize = 0;
    let ghost start = out@;
    while j < up.len()
        invariant
            j <= up@.len(),
            out@ == start + up@.take(j as int),
        decreases up@.len() - j,
    {
        out.push(up[j]);
        proof {
            assert(up@.take(j + 1) =~= up@.take(j as int).push(up@[j as int]));
        }
        j = j + 1;
    }
    proof {
        assert(up@.take(up@.len() as int) =~= up@);
        assert(start =~= Seq::<NodeId>::empty() + inside@.reverse());
    }
    out
}

/// The content twins edits at `targets` touch, innermost first, each once. A target in a
/// part without a tree fails as [`EditSession::dom_in`] does; targets that are not live
/// nodes are skipped; a target inside `mc:Fallback` is refused with `EditTargetFallback`
/// (that copy is overwritten by the next sync).
pub fn sites(s: &EditSession, targets: &Vec<(Option<PartId>, NodeId)>) -> (r: Result<Vec<TwinSite>, Error>)
    requires
        s.wf(),
        forall|i: int| 0 <= i < targets@.len() ==> ((#[trigger] targets@[i]).0 matches Some(p) ==> s.spec_pkg().has(p)),
    ensures
        match sites_spec(s.spec_pkg(), targets@, targets@.len()) {
            Ok(v) => r matches Ok(x) && x@ == v,
            Err(c) => r matches Err(e) && e.has_code(c),
        },
{
    let mut out: Vec<TwinSite> = Vec::new();
    for i in 0..targets.len()
        invariant
            s.wf(),
            forall|k: int| 0 <= k < targets@.len() ==> ((#[trigger] targets@[k]).0 matches Some(p) ==> s.spec_pkg().has(p)),
            sites_spec(s.spec_pkg(), targets@, i as nat) == Ok::<Seq<TwinSite>, DiagCode>(out@),
    {
        let (part, node) = targets[i];
        let ghost tgt = targets@[i as int];
        assert(tgt.0 == part && tgt.1 == node);
        let dom = match s.dom_in(part) {
            Ok(d) => d,
            Err(e) => {
                proof {
                    lemma_sites_err(s.spec_pkg(), targets@, (i + 1) as nat, targets@.len());
                }
                return Err(e);
            },
        };
        if dom.is_live(node) {
            let chain = dom.self_and_ancestors(node);
            proof {
                assert(chain@.skip(1) =~= chain@.drop_first());
            }
            if find_named_from(dom, &chain, 1, QName::new(NsId::Mc, LocalName::Fallback)).is_some() {
                proof {
                    lemma_sites_err(s.spec_pkg(), targets@, (i + 1) as nat, targets@.len());
                }
                return Err(Error::edit(DiagCode::EditTargetFallback,
                    text("编辑位置在 mc:Fallback 里；那是 mc:Choice 的 VML 孪生，改 Choice 那一份")));
            }
            let bs = boxes(dom, node);
            push_sites(&mut out, dom, part, &bs);
        }
    }
    Ok(out)
}


/// The first live child of `ac` named `mc:which`.
pub open spec fn branch_of(dom: Dom, ac: NodeId, which: LocalName) -> Option<NodeId> {
    find_first(dom.kids(ac), |c: NodeId| dom.live(c) && dom.named(c, mq(which)))
}

/// The block (`w:p` or `w:tbl`) holding `n`, or `n` itself.
pub open spec fn block_of(dom: Dom, n: NodeId) -> Option<NodeId> {
    find_first(dom.spec_self_and_ancestors(n), |b: NodeId| dom.named(b, wn(LocalName::P)) || dom.named(b, wn(LocalName::Tbl)))
}

/// The Choice text box and its Fallback twin of a site, when both exist.
pub open spec fn sync_ends(dom: Dom, site: TwinSite) -> Option<(NodeId, NodeId)> {
    if !dom.live(site.ac) {
        None
    } else {
        match (branch_of(dom, site.ac, LocalName::Choice), branch_of(dom, site.ac, LocalName::Fallback)) {
            (Some(c), Some(f)) => {
                let a = txbx_of(dom, c);
                let b = txbx_of(dom, f);
                if site.idx < a.len() && site.idx < b.len() {
                    Some((a[site.idx as int], b[site.idx as int]))
                } else {
                    None
                }
            },
            _ => None,
        }
    }
}

/// The edits that make `to` a copy of `from`: the live children of `to` are deleted and deep
/// copies of the live children of `from` are appended to it.
pub open spec fn sync_edits(dom: Dom, from: NodeId, to: NodeId) -> Seq<NodeEdit> {
    dom.spec_live_children(to).map_values(|c: NodeId| NodeEdit::Delete(c)) + dom.spec_live_children(from).map_values(
        |c: NodeId| NodeEdit::InsertClone { parent: Target::Node(to), before: None, source: c },
    )
}

/// A block as a list of at most one.
pub open spec fn opt_seq(o: Option<NodeId>) -> Seq<NodeId> {
    match o {
        Some(b) => seq![b],
        None => seq![],
    }
}

fn find_live_named(dom: &Dom, v: &Vec<NodeId>, q: QName) -> (r: Option<NodeId>)
    ensures
        r == find_first(v@, |c: NodeId| dom.live(c) && dom.named(c, q)),
{
    let mut i: usize = 0;
    assert(v@.skip(0) =~= v@);
    while i < v.len()
        invariant
            i <= v@.len(),
            find_first(v@, |c: NodeId| dom.live(c) && dom.named(c, q)) == find_first(v@.skip(i as int), |c: NodeId| dom.live(c) && dom.named(c, q)),
        decreases v@.len() - i,
    {
        proof {
            assert(v@.skip(i as int).drop_first() =~= v@.skip(i + 1));
            assert(v@.skip(i as int)[0] == v@[i as int]);
        }
        if dom.is_live(v[i]) && dom.is(v[i], q) {
            return Some(v[i]);
        }
        i = i + 1;
    }
    None
}

fn find_block(dom: &Dom, v: &Vec<NodeId>) -> (r: Option<NodeId>)
    ensures
        r == find_first(v@, |b: NodeId| dom.named(b, wn(LocalName::P)) || dom.named(b, wn(LocalName::Tbl))),
{
    let mut i: usize = 0;
    assert(v@.skip(0) =~= v@);
    while i < v.len()
        invariant
            i <= v@.len(),
            find_first(v@, |b: NodeId| dom.named(b, wn(LocalName::P)) || dom.named(b, wn(LocalName::Tbl)))
                == find_first(v@.skip(i as int), |b: NodeId| dom.named(b, wn(LocalName::P)) || dom.named(b, wn(LocalName::Tbl))),
        decreases v@.len() - i,
    {
        proof {
            assert(v@.skip(i as int).drop_first() =~= v@.skip(i + 1));
            assert(v@.skip(i as int)[0] == v@[i as int]);
        }
        if dom.is(v[i], QName::w(LocalName::P)) || dom.is(v[i], QName::w(LocalName::Tbl)) {
            return Some(v[i]);
        }
        i = i + 1;
    }
    None
}

/// The plan that brings the Fallback twin of `site` in step with its Choice (see
/// [`sync_edits`]); the block holding the `mc:AlternateContent` is refreshed. `None` when
/// the site no longer has both ends.
pub fn twin_sync_plan(dom: &Dom, part: PartId, site: TwinSite) -> (r: Option<MutationPlan>)
    requires
        dom.wf(),
    ensures
        r is None <==> sync_ends(*dom, site) is None,
        r matches Some(p) ==> sync_ends(*dom, site) matches Some((from, to)) && p.part == part
            && p.node_edits@ == sync_edits(*dom, from, to)
            && p.affected_blocks@ == opt_seq(block_of(*dom, site.ac))
            && !p.structure_changed && p.diagnostics@.len() == 0 && p.offset_delta@.len() == 0
            && p.span.rewraps@.len() == 0,
{
    if !dom.is_live(site.ac) {
        return None;
    }
    let kids = dom.children(site.ac);
    let choice = find_live_named(dom, kids, QName::new(NsId::Mc, LocalName::Choice));
    let fallback = find_live_named(dom, kids, QName::new(NsId::Mc, LocalName::Fallback));
    let (c, f) = match (choice, fallback) {
        (Some(c), Some(f)) => (c, f),
        _ => {
            return None;
        },
    };
    proof {
        crate::image::lemma_find_first_in(dom.kids(site.ac), |x: NodeId| dom.live(x) && dom.named(x, mq(LocalName::Choice)));
        crate::image::lemma_find_first_in(dom.kids(site.ac), |x: NodeId| dom.live(x) && dom.named(x, mq(LocalName::Fallback)));
    }
    let a = txbx_contents(dom, c);
    let b = txbx_contents(dom, f);
    if site.idx >= a.len() || site.idx >= b.len() {
        return None;
    }
    let from = a[site.idx];
    let to = b[site.idx];
    let mut plan = MutationPlan::new(part);
    let chain = dom.self_and_ancestors(site.ac);
    if let Some(blk) = find_block(dom, &chain) {
        plan.touch(blk);
    }
    let old_kids = dom.live_children(to);
    for j in 0..old_kids.len()
        invariant
            plan.node_edits@ == old_kids@.take(j as int).map_values(|c: NodeId| NodeEdit::Delete(c)),
            plan.part == part,
            plan.affected_blocks@ == opt_seq(block_of(*dom, site.ac)),
            !plan.structure_changed,
            plan.diagnostics@.len() == 0,
            plan.offset_delta@.len() == 0,
            plan.span.rewraps@.len() == 0,
    {
        plan.push(NodeEdit::Delete(old_kids[j]));
        proof {
            assert(plan.node_edits@ =~= old_kids@.take(j + 1).map_values(|c: NodeId| NodeEdit::Delete(c)));
        }
    }
    proof {
        assert(old_kids@.take(old_kids@.len() as int) =~= old_kids@);
    }
    let ghost mid = plan.node_edits@;
    let new_kids = dom.live_children(from);
    for j in 0..new_kids.len()
        invariant
            plan.node_edits@ == mid + new_kids@.take(j as int).map_values(
                |c: NodeId| NodeEdit::InsertClone { parent: Target::Node(to), before: None, source: c },
            ),
            plan.part == part,
            plan.affected_blocks@ == opt_seq(block_of(*dom, site.ac)),
            !plan.structure_changed,
            plan.diagnostics@.len() == 0,
            plan.offset_delta@.len() == 0,
            plan.span.rewraps@.len() == 0,
    {
        plan.push(NodeEdit::InsertClone { parent: Target::Node(to), before: None, source: new_kids[j] });
        proof {
            assert(plan.node_edits@ =~= mid + new_kids@.take(j + 1).map_values(
                |c: NodeId| NodeEdit::InsertClone { parent: Target::Node(to), before: None, source: c },
            ));
        }
    }
    proof {
        assert(new_kids@.take(new_kids@.len() as int) =~= new_kids@);
        assert(plan.node_edits@ =~= sync_edits(*dom, from, to));
    }
    Some(plan)
}

/// `b` is `a` after syncing `site`: when both of its text boxes exist, the tree of its part
/// is the tree before with [`sync_edits`] applied (the Fallback box's live children deleted
/// and deep copies of the Choice box's live children appended); otherwise nothing changed.
pub open spec fn site_synced(a: Package, site: TwinSite, b: Package) -> bool {
    let id = part_id(a, site.part);
    match a.at(id).dom {
        Some(d) => match sync_ends(d, site) {
            Some((from, to)) => if sync_edits(d, from, to).len() == 0 {
                b == a
            } else {
                &&& b.main == a.main
                &&& b.at(id).dom matches Some(d1)
                    && exists|c: Seq<Option<NodeId>>| #[trigger] crate::edit::applied(d, sync_edits(d, from, to), c, d1)
            },
            None => b == a,
        },
        None => false,
    }
}

/// After an edit: the Fallback text box of each site becomes a deep copy of its Choice
/// twin (see [`twin_sync_plan`]); sites that lost an end are skipped, and an empty plan
/// commits nothing.
pub fn sync(s: &mut EditSession, sites: &Vec<TwinSite>) -> (r: Result<MutationResult, Error>)
    requires
        old(s).wf(),
        forall|i: int| 0 <= i < sites@.len() ==> ((#[trigger] sites@[i]).part matches Some(p) ==> old(s).spec_pkg().has(p)),
    ensures
        final(s).spec_pkg().wf(),
        final(s).spec_pkg().main == old(s).spec_pkg().main,
        final(s).spec_pkg().parts@.len() == old(s).spec_pkg().parts@.len(),
        r is Ok ==> final(s).wf(),
        r matches Ok(res) ==> !res.structure_changed && res.diagnostics@.len() == 0,
        sites@.len() == 0 ==> *final(s) == *old(s) && (r matches Ok(res) && res.created@.len() == 0
            && res.affected_blocks@.len() == 0 && res.offset_delta@.len() == 0),
        r is Ok ==> exists|trace: Seq<Package>| #![trigger trace.len()] trace.len() == sites@.len() + 1
            && trace[0] == old(s).spec_pkg() && trace[sites@.len() as int] == final(s).spec_pkg()
            && forall|i: int| 0 <= i < sites@.len() ==> site_synced(trace[i], #[trigger] sites@[i], trace[i + 1]),
{
    let mut out = MutationResult::empty();
    let ghost mut trace: Seq<Package> = seq![s.spec_pkg()];
    for i in 0..sites.len()
        invariant
            trace.len() == i + 1,
            trace[0] == old(s).spec_pkg(),
            trace[i as int] == s.spec_pkg(),
            forall|k: int| 0 <= k < i ==> site_synced(trace[k], #[trigger] sites@[k], trace[k + 1]),
            !out.structure_changed,
            out.diagnostics@.len() == 0,
            sites@.len() == 0 ==> *s == *old(s) && out.created@.len() == 0 && out.affected_blocks@.len() == 0
                && out.offset_delta@.len() == 0,
            s.wf(),
            s.spec_pkg().main == old(s).spec_pkg().main,
            s.spec_pkg().parts@.len() == old(s).spec_pkg().parts@.len(),
            forall|k: int| 0 <= k < sites@.len() ==> ((#[trigger] sites@[k]).part matches Some(p) ==> old(s).spec_pkg().has(p)),
    {
        let site = sites[i];
        let part = s.part_or_main(site.part);
        let ghost p0 = s.spec_pkg();
        let plan = {
            let dom = s.dom_in(Some(part))?;
            twin_sync_plan(dom, part, site)
        };
        if let Some(plan) = plan {
            if !plan.is_empty() {
                let ghost edits = plan.node_edits@;
                let res = s.commit_plan(plan)?;
                proof {
                    let d = p0.at(part).dom->0;
                    let d1 = s.spec_pkg().at(part).dom->0;
                    assert(crate::edit::applied(d, edits, res.created@, d1));
                }
                out.absorb(res);
            }
        }
        proof {
            assert(site_synced(p0, site, s.spec_pkg()));
            trace = trace.push(s.spec_pkg());
        }
    }
    proof {
        assert(trace.len() == sites@.len() + 1);
    }
    Ok(out)
}

} // verus!
