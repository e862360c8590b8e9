use vstd::prelude::*;
use crate::dom::Dom;
use crate::ids::NodeId;
use crate::package::{Package, Part};
use crate::session::{digits_value, pow10, lemma_pow10_le, lemma_pow10_9};
use crate::track::is_change;
use crate::xml::{LocalName, NsId, QName};
use crate::plan::MutationPlan;
use crate::drawing::{i64_value, trim_spec, parse_i64, trimmed_chars};

verus! {

/// Revision elements: insertions, deletions, moves, cell revisions and the `*Change` elements.
pub open spec fn is_revision(local: LocalName) -> bool {
    local == LocalName::Ins || local == LocalName::Del || local == LocalName::MoveFrom || local == LocalName::MoveTo
        || local == LocalName::CellIns || local == LocalName::CellDel || local == LocalName::CellMerge || is_change(local)
}

fn is_revision_element(local: LocalName) -> (r: bool)
    ensures
        r == is_revision(local),
{
    match local {
        LocalName::Ins | LocalName::Del | LocalName::MoveFrom | LocalName::MoveTo | LocalName::CellIns
        | LocalName::CellDel | LocalName::CellMerge => true,
        _ => crate::track::is_change_element(local),
    }
}

/// The value of a revision id: one to ten decimal digits whose value fits in a `u32`.
pub open spec fn id_value(s: Seq<char>) -> Option<nat> {
    if 1 <= s.len() <= 10 && (forall|i: int| 0 <= i < s.len() ==> '0' <= #[trigger] s[i] && s[i] <= '9')
        && digits_value(s) <= u32::MAX {
        Some(digits_value(s))
    } else {
        None
    }
}

/// Parses a revision id.
pub fn parse_id(s: &str) -> (r: Option<u32>)
    ensures
        match id_value(s@) {
            Some(v) => r == Some(v as u32),
            None => r is None,
        },
{
    let cs = crate::chars::chars_of(s);
    if cs.len() < 1 || cs.len() > 10 {
        return None;
    }
    let mut v: u64 = 0;
    let mut i: usize = 0;
    proof {
        assert(cs@.take(0) =~= Seq::<char>::empty());
    }
    while i < cs.len()
        invariant
            cs@ == s@,
            i <= cs@.len(),
            cs@.len() <= 10,
            forall|j: int| 0 <= j < i ==> '0' <= #[trigger] cs@[j] && cs@[j] <= '9',
            v == digits_value(cs@.take(i as int)),
            v < pow10(i as int),
        decreases cs@.len() - i,
    {
        let c = cs[i];
        if !('0' <= c && c <= '9') {
            return None;
        }
        proof {
            assert(cs@.take(i + 1).drop_last() =~= cs@.take(i as int));
            assert(cs@.take(i + 1).last() == c);
            assert(pow10(i + 1) == pow10(i as int) * 10);
            assert(pow10(i as int) <= 1_000_000_000) by {
                lemma_pow10_le(i as int, 9);
                lemma_pow10_9();
            }
        }
        v = v * 10 + ((c as u32) - ('0' as u32)) as u64;
        i = i + 1;
    }
    proof {
        assert(cs@.take(cs@.len() as int) =~= cs@);
    }
    if v > u32::MAX as u64 {
        return None;
    }
    Some(v as u32)
}

/// The revision id a node carries: a live revision element of the main namespace with a
/// well-formed `w:id`.
pub open spec fn rev_id(dom: Dom, n: NodeId) -> Option<nat> {
    if dom.live(n) && (dom.name_of(n) matches Some(q) && q.ns == NsId::W && is_revision(q.local)) {
        match dom.spec_attr(n, QName { ns: NsId::W, local: LocalName::Id }) {
            Some(v) => id_value(v),
            None => None,
        }
    } else {
        None
    }
}

/// The larger of two optional values.
pub open spec fn max_opt(a: Option<nat>, b: Option<nat>) -> Option<nat> {
    match (a, b) {
        (Some(x), Some(y)) => Some(if x >= y { x } else { y }),
        (Some(x), None) => Some(x),
        (None, y) => y,
    }
}

/// The largest revision id among the first `k` nodes of the arena.
pub open spec fn max_rev_upto(dom: Dom, k: nat) -> Option<nat>
    decreases k,
{
    if k == 0 {
        None
    } else {
        max_opt(max_rev_upto(dom, (k - 1) as nat), rev_id(dom, NodeId((k - 1) as u32)))
    }
}

/// The largest revision id of a tree.
pub open spec fn dom_max_rev(dom: Dom) -> Option<nat> {
    max_rev_upto(dom, dom.len())
}

/// The largest revision id of a part that is neither deleted nor binary.
pub open spec fn part_max_rev(p: Part) -> Option<nat> {
    if !p.deleted && p.dom is Some {
        dom_max_rev(p.dom.unwrap())
    } else {
        None
    }
}

/// The largest revision id among the first `k` parts.
pub open spec fn parts_max_rev(parts: Seq<Part>, k: nat) -> Option<nat>
    decreases k,
{
    if k == 0 {
        None
    } else {
        max_opt(parts_max_rev(parts, (k - 1) as nat), part_max_rev(parts[k - 1]))
    }
}

/// The largest revision id in the package.
pub open spec fn pkg_max_rev(pkg: Package) -> Option<nat> {
    parts_max_rev(pkg.parts@, pkg.parts@.len())
}

/// An optional `u32` as an optional natural number.
pub open spec fn opt_nat(o: Option<u32>) -> Option<nat> {
    match o {
        Some(v) => Some(v as nat),
        None => None,
    }
}

fn max_of(a: Option<u32>, b: Option<u32>) -> (r: Option<u32>)
    ensures
        opt_nat(r) == max_opt(opt_nat(a), opt_nat(b)),
{
    match (a, b) {
        (Some(x), Some(y)) => Some(if x >= y { x } else { y }),
        (Some(x), None) => Some(x),
        (None, y) => y,
    }
}

/// The revision id node `n` carries.
fn node_rev_id(dom: &Dom, n: NodeId) -> (r: Option<u32>)
    requires
        dom.wf(),
    ensures
        opt_nat(r) == rev_id(*dom, n),
{
    if !dom.is_live(n) {
        return None;
    }
    match dom.name(n) {
        Some(q) => {
            if q.ns != NsId::W || !is_revision_element(q.local) {
                return None;
            }
        },
        None => {
            return None;
        },
    }
    match dom.attr(n, QName::w(LocalName::Id)) {
        Some(v) => match parse_id(v.as_str()) {
            Some(x) => Some(x),
            None => None,
        },
        None => None,
    }
}

/// The largest revision id in a tree.
pub fn max_revision_id(dom: &Dom) -> (r: Option<u32>)
    requires
        dom.wf(),
    ensures
        opt_nat(r) == dom_max_rev(*dom),
{
    let mut best: Option<u32> = None;
    let mut k: usize = 0;
    while k < dom.nodes.len()
        invariant
            dom.wf(),
            k <= dom.nodes@.len(),
            opt_nat(best) == max_rev_upto(*dom, k as nat),
        decreases dom.nodes@.len() - k,
    {
        let here = node_rev_id(dom, NodeId(k as u32));
        best = max_of(best, here);
        k = k + 1;
    }
    best
}

/// The largest revision id in the package (deleted and binary parts left out).
pub fn package_max_revision_id(pkg: &Package) -> (r: Option<u32>)
    requires
        pkg.wf(),
    ensures
        opt_nat(r) == pkg_max_rev(*pkg),
{
    let mut best: Option<u32> = None;
    let mut k: usize = 0;
    while k < pkg.parts.len()
        invariant
            pkg.wf(),
            k <= pkg.parts@.len(),
            opt_nat(best) == parts_max_rev(pkg.parts@, k as nat),
        decreases pkg.parts@.len() - k,
    {
        let p = &pkg.parts[k];
        let here: Option<u32> = if !p.deleted {
            match &p.dom {
                Some(d) => max_revision_id(d),
                None => None,
            }
        } else {
            None
        };
        best = max_of(best, here);
        k = k + 1;
    }
    best
}

/// The elements whose `w:id` a new revision id must stay above: the revision elements
/// (other than `w:trPrChange`) and the starts of move ranges.
pub open spec fn counts_toward_next(local: LocalName) -> bool {
    local == LocalName::Ins || local == LocalName::Del || local == LocalName::MoveFrom || local == LocalName::MoveTo
        || local == LocalName::RPrChange || local == LocalName::PPrChange || local == LocalName::SectPrChange
        || local == LocalName::TblPrChange || local == LocalName::TblGridChange || local == LocalName::TcPrChange
        || local == LocalName::TblPrExChange || local == LocalName::NumberingChange || local == LocalName::CellIns
        || local == LocalName::CellDel || local == LocalName::CellMerge || local == LocalName::MoveFromRangeStart
        || local == LocalName::MoveToRangeStart
}

fn counts_toward_next_id(local: LocalName) -> (r: bool)
    ensures
        r == counts_toward_next(local),
{
    match local {
        LocalName::Ins | LocalName::Del | LocalName::MoveFrom | LocalName::MoveTo | LocalName::RPrChange
        | LocalName::PPrChange | LocalName::SectPrChange | LocalName::TblPrChange | LocalName::TblGridChange
        | LocalName::TcPrChange | LocalName::TblPrExChange | LocalName::NumberingChange | LocalName::CellIns
        | LocalName::CellDel | LocalName::CellMerge | LocalName::MoveFromRangeStart | LocalName::MoveToRangeStart => true,
        _ => false,
    }
}

/// The value of a decimal `u32` with an optional `+` sign.
pub open spec fn u32_value(s: Seq<char>) -> Option<nat> {
    if s.len() > 0 && s[0] == '-' {
        None
    } else {
        match i64_value(s) {
            Some(v) => if v <= u32::MAX { Some(v as nat) } else { None },
            None => None,
        }
    }
}

/// The id a node holds that a new revision id must stay above: a live element of
/// [`counts_toward_next`] whose trimmed `w:id` is a `u32`.
pub open spec fn held_id(dom: Dom, n: NodeId) -> Option<nat> {
    if dom.live(n) && (dom.name_of(n) matches Some(q) && q.ns == NsId::W && counts_toward_next(q.local)) {
        match dom.spec_attr(n, QName { ns: NsId::W, local: LocalName::Id }) {
            Some(v) => u32_value(trim_spec(v)),
            None => None,
        }
    } else {
        None
    }
}

/// The largest id held by the nodes of `ns` (0 when none holds one).
pub open spec fn max_held(dom: Dom, ns: Seq<NodeId>) -> nat
    decreases ns.len(),
{
    if ns.len() == 0 {
        0
    } else {
        let m = max_held(dom, ns.drop_last());
        match held_id(dom, ns.last()) {
            Some(v) => if v > m { v } else { m },
            None => m,
        }
    }
}

/// Parses a trimmed decimal `u32`.
fn parse_trimmed_u32(s: &str) -> (r: Option<u32>)
    ensures
        opt_nat(r) == u32_value(trim_spec(s@)),
{
    let cs = trimmed_chars(s);
    if cs.len() > 0 && cs[0] == '-' {
        return None;
    }
    match parse_i64(&cs) {
        Some(v) => if 0 <= v && v <= u32::MAX as i64 {
            Some(v as u32)
        } else {
            None
        },
        None => None,
    }
}

impl MutationPlan {
    /// One more than the largest revision id under the root (deleted nodes left out; a `w:id`
    /// that is no `u32` is passed over).
    pub fn next_revision_id(dom: &Dom) -> (r: u32)
        requires
            dom.wf(),
            max_held(*dom, dom.spec_all_descendants(dom.root)) < u32::MAX,
        ensures
            r == max_held(*dom, dom.spec_all_descendants(dom.root)) + 1,
    {
        let all = dom.all_descendants(dom.root());
        let mut max: u32 = 0;
        for i in 0..all.len()
            invariant
                dom.wf(),
                all@ == dom.spec_all_descendants(dom.root),
                max == max_held(*dom, all@.take(i as int)),
        {
            proof {
                assert(all@.take(i + 1).drop_last() =~= all@.take(i as int));
                assert(all@.take(i + 1).last() == all@[i as int]);
            }
            let n = all[i];
            if dom.is_live(n) {
                if let Some(q) = dom.name(n) {
                    if q.ns == NsId::W && counts_toward_next_id(q.local) {
                        if let Some(v) = dom.attr(n, QName::w(LocalName::Id)) {
                            if let Some(id) = parse_trimmed_u32(v.as_str()) {
                                if id > max {
                                    max = id;
                                }
                            }
                        }
                    }
                }
            }
        }
        proof {
            assert(all@.take(all@.len() as int) =~= all@);
        }
        max + 1
    }
}

} // verus!
