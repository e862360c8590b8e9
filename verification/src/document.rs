use vstd::prelude::*;
use crate::diag::{DiagCode, Error, text};
use crate::dom::{Dom, NodeKind};
use crate::emit::wq;
use crate::ids::{NodeId, PartId};
use crate::locate::block_fits;
use crate::model::{Inline, Run, Segment, SegmentKind, TextBlock, inlines_len, inline_len, segs_len,
    lemma_inlines_len_mono, lemma_inline_len_nonneg, lemma_segs_len_mono};
use crate::track::select;
use crate::utf16::utf16_len_of;
use crate::xml::{LocalName, QName};
use crate::package::{Package, RelType, related_from};
use crate::chars::str_eq;

verus! {

/// How a paragraph child enters the coordinate stream.
#[derive(Debug, Clone, Copy, PartialEq, Eq, Structural)]
pub enum InlineKind {
    Run,
    Atom,
    Marker,
}

/// Range markers and proofing marks: zero width.
pub open spec fn is_marker_name(l: LocalName) -> bool {
    l == LocalName::BookmarkStart || l == LocalName::BookmarkEnd || l == LocalName::CommentRangeStart
        || l == LocalName::CommentRangeEnd || l == LocalName::ProofErr
}

/// The inline a paragraph child becomes: `w:pPr` and text nodes none, `w:r` a run, range
/// markers a marker, any other element an atom.
pub open spec fn inline_kind(dom: Dom, c: NodeId) -> Option<InlineKind> {
    match dom.name_of(c) {
        None => None,
        Some(q) => if q == wq(LocalName::PPr) {
            None
        } else if q == wq(LocalName::R) {
            Some(InlineKind::Run)
        } else if q.ns == crate::xml::NsId::W && is_marker_name(q.local) {
            Some(InlineKind::Marker)
        } else {
            Some(InlineKind::Atom)
        },
    }
}

/// The segment a run child becomes (`w:rPr` and text nodes none).
pub open spec fn seg_kind(dom: Dom, x: NodeId) -> Option<SegmentKind> {
    match dom.name_of(x) {
        None => None,
        Some(q) => if q == wq(LocalName::RPr) {
            None
        } else if q == wq(LocalName::T) {
            Some(SegmentKind::Text)
        } else if q == wq(LocalName::DelText) {
            Some(SegmentKind::DelText)
        } else if q == wq(LocalName::Tab) {
            Some(SegmentKind::Tab)
        } else if q == wq(LocalName::Br) {
            Some(SegmentKind::Break)
        } else if q == wq(LocalName::Cr) {
            Some(SegmentKind::Cr)
        } else if q == wq(LocalName::FldChar) {
            Some(SegmentKind::FldChar)
        } else if q == wq(LocalName::InstrText) {
            Some(SegmentKind::InstrText)
        } else if q == wq(LocalName::DelInstrText) {
            Some(SegmentKind::DelInstrText)
        } else {
            Some(SegmentKind::Other)
        },
    }
}

/// Segments that carry text.
pub open spec fn has_text(k: SegmentKind) -> bool {
    k == SegmentKind::Text || k == SegmentKind::DelText || k == SegmentKind::InstrText || k
        == SegmentKind::DelInstrText
}

/// The text of the live text nodes among `ks`, in order.
pub open spec fn text_in(dom: Dom, ks: Seq<NodeId>) -> Seq<char>
    decreases ks.len(),
{
    if ks.len() == 0 {
        seq![]
    } else {
        let last: Seq<char> = if dom.live(ks.last()) && dom.at(ks.last()).kind is Text {
            dom.at(ks.last()).kind->Text_0@
        } else {
            seq![]
        };
        text_in(dom, ks.drop_last()) + last
    }
}

/// Width of a segment: its UTF-16 length for visible text, nothing for field code and field
/// characters, one unit for anything else.
pub open spec fn seg_width(k: SegmentKind, t: Seq<char>) -> int {
    if k == SegmentKind::Text || k == SegmentKind::DelText {
        utf16_len_of(t)
    } else if k == SegmentKind::FldChar || k == SegmentKind::InstrText || k == SegmentKind::DelInstrText {
        0
    } else {
        1
    }
}

pub open spec fn seg_pred(dom: Dom) -> spec_fn(NodeId) -> bool {
    |x: NodeId| seg_kind(dom, x) is Some
}

pub open spec fn inline_pred(dom: Dom) -> spec_fn(NodeId) -> bool {
    |c: NodeId| inline_kind(dom, c) is Some
}

/// `s` is the segment of run child `x`.
pub open spec fn seg_matches(dom: Dom, x: NodeId, s: Segment) -> bool {
    &&& s.node == x
    &&& seg_kind(dom, x) == Some(s.kind)
    &&& s.text@ == (if has_text(s.kind) { text_in(dom, dom.kids(x)) } else { seq![] })
    &&& s.utf16_len == seg_width(s.kind, s.text@)
}

/// `r` is the projection of run `c`.
pub open spec fn run_matches(dom: Dom, c: NodeId, r: Run) -> bool {
    let ss = select(dom.spec_live_children(c), seg_pred(dom));
    &&& r.node == c
    &&& r.segments@.len() == ss.len()
    &&& forall|k: int| 0 <= k < ss.len() ==> seg_matches(dom, ss[k], #[trigger] r.segments@[k])
}

/// `inl` is the projection of paragraph child `c`.
pub open spec fn inline_matches(dom: Dom, c: NodeId, inl: Inline) -> bool {
    match inline_kind(dom, c) {
        Some(InlineKind::Run) => inl matches Inline::Run(r) && run_matches(dom, c, r),
        Some(InlineKind::Marker) => inl == Inline::Marker { node: c },
        Some(InlineKind::Atom) => inl == Inline::Atom { node: c, utf16_len: 1 },
        None => false,
    }
}

/// `tb` is the projection of paragraph `p`.
pub open spec fn projects(dom: Dom, p: NodeId, tb: TextBlock) -> bool {
    let cs = select(dom.spec_live_children(p), inline_pred(dom));
    &&& tb.node == p
    &&& tb.inlines@.len() == cs.len()
    &&& forall|i: int| 0 <= i < cs.len() ==> inline_matches(dom, cs[i], #[trigger] tb.inlines@[i])
}

/// The live `w:p` elements of the subtree at `n`, in document order (paragraphs are not
/// searched for nested paragraphs; at most `fuel` levels deep).
pub open spec fn paras(dom: Dom, n: NodeId, fuel: nat) -> Seq<NodeId>
    decreases fuel, 0int,
{
    if fuel == 0 || !dom.live(n) {
        seq![]
    } else if dom.named(n, wq(LocalName::P)) {
        seq![n]
    } else {
        kids_paras(dom, dom.kids(n), (fuel - 1) as nat)
    }
}

pub open spec fn kids_paras(dom: Dom, ks: Seq<NodeId>, fuel: nat) -> Seq<NodeId>
    decreases fuel, ks.len() + 1,
{
    if ks.len() == 0 {
        seq![]
    } else {
        kids_paras(dom, ks.drop_last(), fuel) + paras(dom, ks.last(), fuel)
    }
}

pub proof fn lemma_utf16_len_push(s: Seq<char>, c: char)
    ensures
        utf16_len_of(s.push(c)) == utf16_len_of(s) + crate::utf16::utf16_w(c),
    decreases s.len(),
{
    if s.len() == 0 {
        assert(s.push(c).drop_first() =~= Seq::<char>::empty());
        assert(s.push(c)[0] == c);
        assert(utf16_len_of(s.push(c).drop_first()) == 0);
    } else {
        lemma_utf16_len_push(s.drop_first(), c);
        assert(s.push(c).drop_first() =~= s.drop_first().push(c));
        assert(s.push(c)[0] == s[0]);
    }
}

pub proof fn lemma_utf16_len_concat(a: Seq<char>, b: Seq<char>)
    ensures
        utf16_len_of(a + b) == utf16_len_of(a) + utf16_len_of(b),
    decreases a.len(),
{
    if a.len() == 0 {
        assert(a + b =~= b);
    } else {
        lemma_utf16_len_concat(a.drop_first(), b);
        assert((a + b).drop_first() =~= a.drop_first() + b);
    }
}

/// The UTF-16 length of `s`, when it fits a `u32`.
fn utf16_count(s: &String) -> (r: Option<u32>)
    ensures
        r matches Some(n) ==> n == utf16_len_of(s@),
        r is None ==> utf16_len_of(s@) > u32::MAX,
{
    let mut n: u64 = 0;
    let ghost cs = s@;
    for c in it: s.as_str().chars()
        invariant
            it.seq() == cs,
            cs == s@,
            n == utf16_len_of(cs.take(it.index() as int)),
            n <= u32::MAX,
    {
        proof {
            assert(cs.take(it.index() + 1) =~= cs.take(it.index() as int).push(c));
            lemma_utf16_len_push(cs.take(it.index() as int), c);
            lemma_utf16_len_concat(cs.take(it.index() + 1), cs.skip(it.index() + 1));
            assert(cs.take(it.index() + 1) + cs.skip(it.index() + 1) =~= cs);
            lemma_utf16_nonneg(cs.skip(it.index() + 1));
        }
        n = n + if (c as u32) >= 0x10000 { 2 } else { 1 };
        if n > 0xFFFF_FFFF {
            return None;
        }
    }
    assert(cs.take(cs.len() as int) =~= cs);
    Some(n as u32)
}

pub proof fn lemma_utf16_nonneg(s: Seq<char>)
    ensures
        utf16_len_of(s) >= 0,
    decreases s.len(),
{
    if s.len() > 0 {
        lemma_utf16_nonneg(s.drop_first());
    }
}

/// The text of the live text children of `x`.
fn text_content(dom: &Dom, x: NodeId) -> (r: String)
    requires
        dom.wf(),
        dom.has(x),
    ensures
        r@ == text_in(*dom, dom.kids(x)),
{
    let kids = dom.children(x);
    let ghost ks = kids@;
    let mut out = String::new();
    proof {
        assert(ks.take(0) =~= Seq::<NodeId>::empty());
    }
    for i in 0..kids.len()
        invariant
            dom.wf(),
            ks == kids@,
            ks == dom.kids(x),
            out@ == text_in(*dom, ks.take(i as int)),
    {
        proof {
            assert(ks.take(i + 1).drop_last() =~= ks.take(i as int));
            assert(ks.take(i + 1).last() == ks[i as int]);
        }
        let k = kids[i];
        if dom.is_live(k) {
            if let Some(t) = dom.text_of(k) {
                out.append(t.as_str());
            }
        }
        proof {
            if !(dom.live(k) && dom.at(k).kind is Text) {
                assert(out@ =~= out@ + Seq::<char>::empty());
            }
        }
    }
    proof {
        assert(ks.take(ks.len() as int) =~= ks);
    }
    out
}

/// Every live child of `n` names a node of the arena.
pub proof fn lemma_live_kids_have(dom: Dom, n: NodeId)
    requires
        dom.wf(),
        dom.has(n),
    ensures
        forall|j: int| 0 <= j < dom.spec_live_children(n).len() ==> dom.has(#[trigger] dom.spec_live_children(n)[j]),
{
    let pr = |c: NodeId| dom.live(c);
    assert forall|j: int| 0 <= j < dom.spec_live_children(n).len() implies dom.has(#[trigger] dom.spec_live_children(n)[j]) by {
        let x = dom.spec_live_children(n)[j];
        assert(dom.kids(n).filter(pr).contains(x));
        dom.kids(n).lemma_filter_contains_rev(pr, x);
        let k = choose|k: int| 0 <= k < dom.kids(n).len() && dom.kids(n)[k] == x;
        assert(dom.nodes@[n.0 as int].children@[k] == x);
    }
}

/// The segment kind of a run child.
fn segment_kind(dom: &Dom, x: NodeId) -> (r: Option<SegmentKind>)
    ensures
        r == seg_kind(*dom, x),
{
    match dom.name(x) {
        None => None,
        Some(q) => if q == crate::xml::QName::w(LocalName::RPr) {
            None
        } else if q == crate::xml::QName::w(LocalName::T) {
            Some(SegmentKind::Text)
        } else if q == crate::xml::QName::w(LocalName::DelText) {
            Some(SegmentKind::DelText)
        } else if q == crate::xml::QName::w(LocalName::Tab) {
            Some(SegmentKind::Tab)
        } else if q == crate::xml::QName::w(LocalName::Br) {
            Some(SegmentKind::Break)
        } else if q == crate::xml::QName::w(LocalName::Cr) {
            Some(SegmentKind::Cr)
        } else if q == crate::xml::QName::w(LocalName::FldChar) {
            Some(SegmentKind::FldChar)
        } else if q == crate::xml::QName::w(LocalName::InstrText) {
            Some(SegmentKind::InstrText)
        } else if q == crate::xml::QName::w(LocalName::DelInstrText) {
            Some(SegmentKind::DelInstrText)
        } else {
            Some(SegmentKind::Other)
        },
    }
}

/// The width of run child `x` as a segment (0 when it is none).
pub open spec fn seg_w(dom: Dom, x: NodeId) -> int {
    match seg_kind(dom, x) {
        Some(k) => seg_width(k, if has_text(k) { text_in(dom, dom.kids(x)) } else { seq![] }),
        None => 0,
    }
}

/// Every segment among `ks` is at most `u32::MAX` units wide.
pub open spec fn segs_fit(dom: Dom, ks: Seq<NodeId>) -> bool
    decreases ks.len(),
{
    if ks.len() == 0 {
        true
    } else {
        segs_fit(dom, ks.drop_last()) && (seg_kind(dom, ks.last()) is Some ==> seg_w(dom, ks.last()) <= u32::MAX)
    }
}

/// Run `c` has a projection: each of its segments fits a `u32`.
pub open spec fn run_fits(dom: Dom, c: NodeId) -> bool {
    segs_fit(dom, dom.spec_live_children(c))
}

proof fn lemma_segs_fit_prefix(dom: Dom, ks: Seq<NodeId>, j: int)
    requires
        0 <= j <= ks.len(),
        segs_fit(dom, ks),
    ensures
        segs_fit(dom, ks.take(j)),
    decreases ks.len(),
{
    if j < ks.len() {
        assert(ks.drop_last().take(j) =~= ks.take(j));
        lemma_segs_fit_prefix(dom, ks.drop_last(), j);
    } else {
        assert(ks.take(j) =~= ks);
    }
}

/// The projection of run `c`; `None` when a segment is wider than `u32::MAX` units.
fn project_run(dom: &Dom, c: NodeId) -> (r: Option<Run>)
    requires
        dom.wf(),
        dom.has(c),
    ensures
        r matches Some(run) ==> run_matches(*dom, c, run),
        r is Some <==> run_fits(*dom, c),
{
    let kids = dom.live_children(c);
    let ghost ks = kids@;
    let ghost p = seg_pred(*dom);
    let mut segments: Vec<Segment> = Vec::new();
    proof {
        assert(ks.take(0) =~= Seq::<NodeId>::empty());
        lemma_live_kids_have(*dom, c);
    }
    for i in 0..kids.len()
        invariant
            dom.wf(),
            ks == kids@,
            ks == dom.spec_live_children(c),
            p == seg_pred(*dom),
            forall|j: int| 0 <= j < ks.len() ==> dom.has(#[trigger] ks[j]),
            segments@.len() == select(ks.take(i as int), p).len(),
            forall|k: int| 0 <= k < segments@.len() ==> seg_matches(*dom, select(ks.take(i as int), p)[k], #[trigger] segments@[k]),
            segs_fit(*dom, ks.take(i as int)),
    {
        proof {
            assert(ks.take(i + 1).drop_last() =~= ks.take(i as int));
            assert(ks.take(i + 1).last() == ks[i as int]);
        }
        let x = kids[i];
        match segment_kind(dom, x) {
            None => {},
            Some(kind) => {
                let (t, w) = match kind {
                    SegmentKind::Text | SegmentKind::DelText => {
                        let t = text_content(dom, x);
                        match utf16_count(&t) {
                            Some(w) => (t, w),
                            None => {
                                proof {
                                    assert(!segs_fit(*dom, ks.take(i + 1)));
                                    if segs_fit(*dom, ks) {
                                        lemma_segs_fit_prefix(*dom, ks, i + 1);
                                    }
                                }
                                return None;
                            },
                        }
                    },
                    SegmentKind::InstrText | SegmentKind::DelInstrText => (text_content(dom, x), 0u32),
                    SegmentKind::FldChar => (String::new(), 0u32),
                    _ => (String::new(), 1u32),
                };
                segments.push(Segment { node: x, kind, text: t, utf16_len: w });
            },
        }
    }
    proof {
        assert(ks.take(ks.len() as int) =~= ks);
    }
    Some(Run { node: c, segments })
}


/// The inline kind of a paragraph child.
fn kind_of_inline(dom: &Dom, c: NodeId) -> (r: Option<InlineKind>)
    ensures
        r == inline_kind(*dom, c),
{
    match dom.name(c) {
        None => None,
        Some(q) => if q == crate::xml::QName::w(LocalName::PPr) {
            None
        } else if q == crate::xml::QName::w(LocalName::R) {
            Some(InlineKind::Run)
        } else if q.ns == crate::xml::NsId::W && (q.local == LocalName::BookmarkStart || q.local
            == LocalName::BookmarkEnd || q.local == LocalName::CommentRangeStart || q.local
            == LocalName::CommentRangeEnd || q.local == LocalName::ProofErr) {
            Some(InlineKind::Marker)
        } else {
            Some(InlineKind::Atom)
        },
    }
}

/// The sum of the segment widths of `ss`.
pub open spec fn sel_w(dom: Dom, ss: Seq<NodeId>) -> int
    decreases ss.len(),
{
    if ss.len() == 0 { 0 } else { sel_w(dom, ss.drop_last()) + seg_w(dom, ss.last()) }
}

/// The width of run `c`: the sum of its segment widths.
pub open spec fn run_w(dom: Dom, c: NodeId) -> int {
    sel_w(dom, select(dom.spec_live_children(c), seg_pred(dom)))
}

/// The width of the paragraph children `ks` when each run projects, each has fewer than
/// 2^32 segments and every partial sum fits a `u32`; `None` otherwise.
pub open spec fn para_width(dom: Dom, ks: Seq<NodeId>) -> Option<int>
    decreases ks.len(),
{
    if ks.len() == 0 {
        Some(0)
    } else {
        match para_width(dom, ks.drop_last()) {
            None => None,
            Some(t) => {
                let c = ks.last();
                match inline_kind(dom, c) {
                    Some(InlineKind::Run) => if run_fits(dom, c) && select(dom.spec_live_children(c), seg_pred(dom)).len()
                        < 0x1_0000_0000 && t + run_w(dom, c) <= u32::MAX {
                        Some(t + run_w(dom, c))
                    } else {
                        None
                    },
                    Some(InlineKind::Atom) => if t + 1 <= u32::MAX { Some(t + 1) } else { None },
                    _ => Some(t),
                }
            },
        }
    }
}

proof fn lemma_para_width_prefix(dom: Dom, ks: Seq<NodeId>, j: int)
    requires
        0 <= j <= ks.len(),
        para_width(dom, ks.take(j)) is None,
    ensures
        para_width(dom, ks) is None,
    decreases ks.len(),
{
    if j < ks.len() {
        assert(ks.drop_last().take(j) =~= ks.take(j));
        lemma_para_width_prefix(dom, ks.drop_last(), j);
    } else {
        assert(ks.take(j) =~= ks);
    }
}

proof fn lemma_run_width(dom: Dom, c: NodeId, r: Run, k: int)
    requires
        run_matches(dom, c, r),
        0 <= k <= r.segments@.len(),
    ensures
        segs_len(r.segments@, k) == sel_w(dom, select(dom.spec_live_children(c), seg_pred(dom)).take(k)),
    decreases k,
{
    let ss = select(dom.spec_live_children(c), seg_pred(dom));
    if k > 0 {
        lemma_run_width(dom, c, r, k - 1);
        assert(ss.take(k).drop_last() =~= ss.take(k - 1));
        assert(seg_matches(dom, ss[k - 1], r.segments@[k - 1]));
    } else {
        assert(ss.take(0) =~= Seq::<NodeId>::empty());
    }
}

/// The projection of paragraph `p`; `None` when it is longer than `u32::MAX` units.
pub fn project_paragraph(dom: &Dom, p: NodeId) -> (r: Option<TextBlock>)
    requires
        dom.wf(),
        dom.has(p),
    ensures
        r matches Some(tb) ==> projects(*dom, p, tb) && block_fits(&tb),
        r is Some <==> para_width(*dom, dom.spec_live_children(p)) is Some,
{
    let kids = dom.live_children(p);
    let ghost ks = kids@;
    let ghost pr = inline_pred(*dom);
    let mut inlines: Vec<Inline> = Vec::new();
    let mut total: u64 = 0;
    proof {
        assert(ks.take(0) =~= Seq::<NodeId>::empty());
        lemma_live_kids_have(*dom, p);
    }
    for i in 0..kids.len()
        invariant
            dom.wf(),
            ks == kids@,
            ks == dom.spec_live_children(p),
            pr == inline_pred(*dom),
            forall|j: int| 0 <= j < ks.len() ==> dom.has(#[trigger] ks[j]),
            inlines@.len() == select(ks.take(i as int), pr).len(),
            forall|k: int| 0 <= k < inlines@.len() ==> inline_matches(*dom, select(ks.take(i as int), pr)[k], #[trigger] inlines@[k]),
            forall|k: int| 0 <= k < inlines@.len() ==> (#[trigger] inlines@[k] matches Inline::Run(r) ==> r.segments@.len() < 0x1_0000_0000),
            total == inlines_len(inlines@, inlines@.len() as int),
            total <= u32::MAX,
            para_width(*dom, ks.take(i as int)) == Some(total as int),
    {
        proof {
            assert(ks.take(i + 1).drop_last() =~= ks.take(i as int));
            assert(ks.take(i + 1).last() == ks[i as int]);
        }
        let c = kids[i];
        let ghost before = inlines@;
        match kind_of_inline(dom, c) {
            None => {},
            Some(InlineKind::Run) => {
                let run = match project_run(dom, c) {
                    Some(r) => r,
                    None => {
                        proof {
                            assert(ks.take(i + 1).last() == c);
                            assert(para_width(*dom, ks.take(i + 1)) is None);
                            lemma_para_width_prefix(*dom, ks, i + 1);
                        }
                        return None;
                    },
                };
                if run.segments.len() as u64 >= 0x1_0000_0000u64 {
                    proof {
                        assert(para_width(*dom, ks.take(i + 1)) is None);
                        lemma_para_width_prefix(*dom, ks, i + 1);
                    }
                    return None;
                }
                let w = run.utf16_len();
                proof {
                    lemma_run_width(*dom, c, run, run.segments@.len() as int);
                    assert(select(dom.spec_live_children(c), seg_pred(*dom)).take(run.segments@.len() as int)
                        =~= select(dom.spec_live_children(c), seg_pred(*dom)));
                    assert(w == run_w(*dom, c));
                }
                if w > 0xFFFF_FFFF - total {
                    proof {
                        assert(para_width(*dom, ks.take(i + 1)) is None);
                        lemma_para_width_prefix(*dom, ks, i + 1);
                    }
                    return None;
                }
                total = total + w;
                inlines.push(Inline::Run(run));
            },
            Some(InlineKind::Marker) => {
                inlines.push(Inline::Marker { node: c });
            },
            Some(InlineKind::Atom) => {
                if total + 1 > 0xFFFF_FFFF {
                    proof {
                        assert(para_width(*dom, ks.take(i + 1)) is None);
                        lemma_para_width_prefix(*dom, ks, i + 1);
                    }
                    return None;
                }
                total = total + 1;
                inlines.push(Inline::Atom { node: c, utf16_len: 1 });
            },
        }
        proof {
            if inlines@.len() > before.len() {
                assert(inlines@.drop_last() =~= before);
                assert forall|k: int| 0 <= k < before.len() implies inlines@[k] == before[k] by {}
                lemma_inlines_len_prefix(inlines@, before);
            }
        }
    }
    proof {
        assert(ks.take(ks.len() as int) =~= ks);
    }
    Some(TextBlock { node: p, inlines })
}

/// Pushing an inline adds its width.
pub proof fn lemma_inlines_len_prefix(a: Seq<Inline>, b: Seq<Inline>)
    requires
        a.len() == b.len() + 1,
        forall|k: int| 0 <= k < b.len() ==> a[k] == b[k],
    ensures
        inlines_len(a, a.len() as int) == inlines_len(b, b.len() as int) + inline_len(a.last()),
{
    lemma_inlines_len_same(a, b, b.len() as int);
}

pub proof fn lemma_inlines_len_same(a: Seq<Inline>, b: Seq<Inline>, k: int)
    requires
        0 <= k <= b.len(),
        k <= a.len(),
        forall|j: int| 0 <= j < k ==> a[j] == b[j],
    ensures
        inlines_len(a, k) == inlines_len(b, k),
    decreases k,
{
    if k > 0 {
        lemma_inlines_len_same(a, b, k - 1);
    }
}

/// Collects the live paragraphs of the subtree at `n`, in document order.
fn collect_paras(dom: &Dom, n: NodeId, fuel: usize, out: &mut Vec<NodeId>)
    requires
        dom.wf(),
    ensures
        final(out)@ == old(out)@ + paras(*dom, n, fuel as nat),
    decreases fuel,
{
    if fuel == 0 || !dom.contains(n) || !dom.is_live(n) {
        assert(final(out)@ =~= old(out)@ + Seq::<NodeId>::empty());
        return;
    }
    if dom.is(n, crate::xml::QName::w(LocalName::P)) {
        out.push(n);
        return;
    }
    let kids = dom.children(n);
    let ghost ks = kids@;
    let ghost o0 = out@;
    proof {
        assert(ks.take(0) =~= Seq::<NodeId>::empty());
        assert(o0 =~= o0 + kids_paras(*dom, ks.take(0), (fuel - 1) as nat));
    }
    for j in 0..kids.len()
        invariant
            dom.wf(),
            ks == kids@,
            fuel > 0,
            out@ == o0 + kids_paras(*dom, ks.take(j as int), (fuel - 1) as nat),
    {
        proof {
            assert(ks.take(j + 1).drop_last() =~= ks.take(j as int));
            assert(ks.take(j + 1).last() == ks[j as int]);
        }
        collect_paras(dom, kids[j], fuel - 1, out);
        proof {
            let a = kids_paras(*dom, ks.take(j as int), (fuel - 1) as nat);
            let b = paras(*dom, ks[j as int], (fuel - 1) as nat);
            assert(o0 + a + b =~= o0 + (a + b));
        }
    }
    proof {
        assert(ks.take(ks.len() as int) =~= ks);
    }
}

/// Every node `paras` yields names a node of the arena.
pub proof fn lemma_paras_have(dom: Dom, n: NodeId, fuel: nat)
    requires
        dom.wf(),
    ensures
        forall|j: int| 0 <= j < paras(dom, n, fuel).len() ==> dom.has(#[trigger] paras(dom, n, fuel)[j]),
    decreases fuel, 0int,
{
    if fuel == 0 || !dom.live(n) {
    } else if dom.named(n, wq(LocalName::P)) {
        assert(paras(dom, n, fuel) =~= seq![n]);
    } else {
        lemma_kids_paras_have(dom, dom.kids(n), (fuel - 1) as nat);
        assert(paras(dom, n, fuel) == kids_paras(dom, dom.kids(n), (fuel - 1) as nat));
    }
}

pub proof fn lemma_kids_paras_have(dom: Dom, ks: Seq<NodeId>, fuel: nat)
    requires
        dom.wf(),
    ensures
        forall|j: int| 0 <= j < kids_paras(dom, ks, fuel).len() ==> dom.has(#[trigger] kids_paras(dom, ks, fuel)[j]),
    decreases fuel, ks.len() + 1,
{
    if ks.len() > 0 {
        lemma_kids_paras_have(dom, ks.drop_last(), fuel);
        lemma_paras_have(dom, ks.last(), fuel);
        let a = kids_paras(dom, ks.drop_last(), fuel);
        let b = paras(dom, ks.last(), fuel);
        assert forall|j: int| 0 <= j < (a + b).len() implies dom.has(#[trigger] (a + b)[j]) by {
            if j < a.len() {
                assert((a + b)[j] == a[j]);
            } else {
                assert((a + b)[j] == b[j - a.len()]);
            }
        }
    }
}


/// The document settings the engine reads.
#[derive(Debug, Clone, Copy, PartialEq, Eq, Structural)]
pub struct Settings {
    /// `w:removePersonalInformation`.
    pub remove_personal_information: Option<bool>,
    /// `w:removeDateAndTime`.
    pub remove_date_and_time: Option<bool>,
}

/// The read-only projection of a package: the text paragraphs of the main part, the
/// settings, and the parts the main part relates to.
#[derive(Debug)]
pub struct Document {
    pub main: PartId,
    /// The text paragraphs of the main part, in document order (table cells included).
    pub blocks: Vec<TextBlock>,
    pub settings: Option<Settings>,
    pub comments_part: Option<PartId>,
    pub comments_extended_part: Option<PartId>,
    pub footnotes_part: Option<PartId>,
    pub endnotes_part: Option<PartId>,
}

/// An on/off property element: on unless `w:val` is `false`, `0` or `off`.
pub open spec fn on_off(dom: Dom, c: NodeId) -> bool {
    match dom.spec_attr(c, wq(LocalName::Val)) {
        None => true,
        Some(v) => !(v == "false"@ || v == "0"@ || v == "off"@),
    }
}

/// The value of the first live on/off child `q` of the root.
pub open spec fn flag_of(dom: Dom, q: QName) -> Option<bool> {
    let cs = dom.spec_live_children_named(dom.root, q);
    if cs.len() == 0 {
        None
    } else {
        Some(on_off(dom, cs[0]))
    }
}

/// The settings a package declares: the flags of the settings part the main part relates to.
pub open spec fn settings_of(pkg: Package) -> Option<Settings> {
    match related_from(pkg.parts@, pkg.at(pkg.main).rels@, RelType::Settings, 0) {
        Some(sp) => match pkg.at(sp).dom {
            Some(d) => Some(Settings {
                remove_personal_information: flag_of(d, wq(LocalName::RemovePersonalInformation)),
                remove_date_and_time: flag_of(d, wq(LocalName::RemoveDateAndTime)),
            }),
            None => None,
        },
        None => None,
    }
}

/// The part the main part relates to by `kind`.
pub open spec fn main_related(pkg: Package, kind: RelType) -> Option<PartId> {
    related_from(pkg.parts@, pkg.at(pkg.main).rels@, kind, 0)
}

/// `d` is the projection of `pkg`.
pub open spec fn doc_of(pkg: Package, d: Document) -> bool {
    let dom = pkg.at(pkg.main).dom->Some_0;
    let ps = paras(dom, dom.root, dom.len());
    &&& d.main == pkg.main
    &&& d.blocks@.len() == ps.len()
    &&& forall|i: int| 0 <= i < ps.len() ==> projects(dom, ps[i], #[trigger] d.blocks@[i]) && block_fits(&d.blocks@[i])
    &&& d.settings == settings_of(pkg)
    &&& d.comments_part == main_related(pkg, RelType::Comments)
    &&& d.comments_extended_part == main_related(pkg, RelType::CommentsExtended)
    &&& d.footnotes_part == main_related(pkg, RelType::Footnotes)
    &&& d.endnotes_part == main_related(pkg, RelType::Endnotes)
}

fn on_off_value(dom: &Dom, c: NodeId) -> (r: bool)
    ensures
        r == on_off(*dom, c),
{
    match dom.attr(c, QName::w(LocalName::Val)) {
        None => true,
        Some(v) => {
            proof {
                reveal_strlit("false");
                reveal_strlit("0");
                reveal_strlit("off");
            }
            !(str_eq(v.as_str(), "false") || str_eq(v.as_str(), "0") || str_eq(v.as_str(), "off"))
        },
    }
}

fn flag(dom: &Dom, q: QName) -> (r: Option<bool>)
    requires
        dom.wf(),
    ensures
        r == flag_of(*dom, q),
{
    let cs = dom.live_children_named(dom.root, q);
    if cs.len() == 0 {
        None
    } else {
        Some(on_off_value(dom, cs[0]))
    }
}

/// Every paragraph of the main part fits the offset type, so the package can be projected.
pub open spec fn projectable(pkg: Package) -> bool {
    pkg.at(pkg.main).dom matches Some(d) && forall|j: int|
        0 <= j < paras(d, d.root, d.len()).len() ==> #[trigger] para_width(
            d,
            d.spec_live_children(paras(d, d.root, d.len())[j]),
        ) is Some
}

impl Document {
    /// Projects the package: `EditUnsupported` when a paragraph of the main part is longer
    /// than the offset type can address.
    pub fn rebuild(pkg: &Package) -> (r: Result<Document, Error>)
        requires
            pkg.wf(),
        ensures
            r is Ok <==> projectable(*pkg),
            r matches Ok(d) ==> doc_of(*pkg, d),
            r matches Err(e) ==> e.has_code(DiagCode::EditUnsupported),
    {
        let main = pkg.main_part();
        let dom = match pkg.dom(main) {
            Some(d) => d,
            None => {
                proof {
                    assert(false);
                }
                return Err(Error::edit(DiagCode::EditUnsupported, text("主 part 没有 XML")));
            },
        };
        let mut ps: Vec<NodeId> = Vec::new();
        collect_paras(dom, dom.root(), dom.node_count(), &mut ps);
        assert(ps@ =~= paras(*dom, dom.root, dom.len()));
        proof {
            lemma_paras_have(*dom, dom.root, dom.len());
        }
        let mut blocks: Vec<TextBlock> = Vec::new();
        for i in 0..ps.len()
            invariant
                dom.wf(),
                ps@ == paras(*dom, dom.root, dom.len()),
                forall|j: int| 0 <= j < ps@.len() ==> dom.has(#[trigger] ps@[j]),
                blocks@.len() == i,
                forall|j: int| 0 <= j < i ==> projects(*dom, ps@[j], #[trigger] blocks@[j]) && block_fits(&blocks@[j]),
                *dom == pkg.at(pkg.main).dom->0,
                pkg.main == main,
                forall|j: int| 0 <= j < i ==> #[trigger] para_width(*dom, dom.spec_live_children(ps@[j])) is Some,
        {
            match project_paragraph(dom, ps[i]) {
                Some(tb) => blocks.push(tb),
                None => {
                    return Err(Error::edit(DiagCode::EditUnsupported, text("段落超出可寻址的长度")));
                },
            }
        }
        proof {
            assert(forall|i: int| 0 <= i < pkg.parts@.len() ==> (#[trigger] pkg.parts@[i].dom matches Some(d) ==> d.wf()));
        }
        let settings = match pkg.related(main, RelType::Settings) {
            Some(sp) => match pkg.dom(sp) {
                Some(d) => Some(Settings {
                    remove_personal_information: flag(d, QName::w(LocalName::RemovePersonalInformation)),
                    remove_date_and_time: flag(d, QName::w(LocalName::RemoveDateAndTime)),
                }),
                None => None,
            },
            None => None,
        };
        Ok(Document {
            main,
            blocks,
            settings,
            comments_part: pkg.related(main, RelType::Comments),
            comments_extended_part: pkg.related(main, RelType::CommentsExtended),
            footnotes_part: pkg.related(main, RelType::Footnotes),
            endnotes_part: pkg.related(main, RelType::Endnotes),
        })
    }

    /// The text paragraph `para` of the main part.
    pub fn text_block(&self, para: NodeId) -> (r: Option<&TextBlock>)
        ensures
            r matches Some(tb) ==> tb.node == para && exists|i: int| 0 <= i < self.blocks@.len() && self.blocks@[i] == *tb
                && forall|j: int| 0 <= j < i ==> (#[trigger] self.blocks@[j]).node != para,
            r is None ==> forall|i: int| 0 <= i < self.blocks@.len() ==> (#[trigger] self.blocks@[i]).node != para,
    {
        for i in 0..self.blocks.len()
            invariant
                forall|j: int| 0 <= j < i ==> (#[trigger] self.blocks@[j]).node != para,
        {
            if self.blocks[i].node == para {
                return Some(&self.blocks[i]);
            }
        }
        None
    }
}

} // verus!
