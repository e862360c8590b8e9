use vstd::prelude::*;
use crate::emit::{Piece, allowed, control_piece, flushed, is_control, kept, pieces, pieces_from, removed};
use crate::dom::{Dom, first_attr};
use crate::edit::{NodeEdit, Target, applied, attr_pairs, attr_pos, with_attr};
use crate::ids::{NodeId, PartId};
use crate::package::Package;
use crate::revisions::{rev_id, dom_max_rev, max_rev_upto, held_id, max_held};
use crate::image::{doc_pr_id, max_doc_pr, live_tree};
use crate::tables::{is_new_table, is_new_row, table_cols, table_widths};
use crate::twin::{TwinSite, sites_spec, site_of, add_sites, boxes_at, part_id};
use crate::xml::{NewElement, NewNode};
use crate::paths::{join_path, non_empty, pieces_from as path_pieces, spec_relative_target, split_path, ups,
    common_len};
use crate::plan::push_new;
use crate::utf16::{byte_offset, utf16_len_of, utf16_w, utf8_len_of, utf8_w};

verus! {

/// A UTF-16 offset that falls on a character boundary converts to the UTF-8 offset of the
/// same boundary: the offset of the first `i` characters, in UTF-16 units, becomes their
/// length in bytes.
pub proof fn law_byte_offset_at_char_boundary(s: Seq<char>, i: int)
    requires
        0 <= i <= s.len(),
    ensures
        byte_offset(s, utf16_len_of(s.take(i))) == Ok::<int, crate::diag::DiagCode>(utf8_len_of(s.take(i))),
    decreases i,
{
    if i == 0 {
        assert(s.take(0) =~= Seq::<char>::empty());
    } else {
        law_byte_offset_at_char_boundary(s.drop_first(), i - 1);
        assert(s.take(i).drop_first() =~= s.drop_first().take(i - 1));
        assert(s.take(i)[0] == s[0]);
        let u = utf16_len_of(s.drop_first().take(i - 1));
        lemma_utf16_len_nonneg(s.drop_first().take(i - 1));
        assert(utf16_len_of(s.take(i)) == utf16_w(s[0]) + u);
        assert(utf8_len_of(s.take(i)) == utf8_w(s[0]) + utf8_len_of(s.drop_first().take(i - 1)));
        assert(utf16_w(s[0]) + u > 0);
    }
}

proof fn lemma_utf16_len_nonneg(s: Seq<char>)
    ensures
        utf16_len_of(s) >= 0,
    decreases s.len(),
{
    if s.len() > 0 {
        lemma_utf16_len_nonneg(s.drop_first());
    }
}

/// The character a piece stands for when it is not text.
pub open spec fn piece_char(p: Piece) -> char {
    match p {
        Piece::Tab => '\t',
        Piece::Br => '\n',
        Piece::PageBreak => '\u{0C}',
        Piece::ColumnBreak => '\u{0B}',
        _ => '\r',
    }
}

/// The text that pieces stand for.
pub open spec fn unfold(ps: Seq<Piece>) -> Seq<char>
    decreases ps.len(),
{
    if ps.len() == 0 {
        seq![]
    } else {
        let head: Seq<char> = match ps[0] {
            Piece::Text(t) => t,
            p => seq![piece_char(p)],
        };
        head + unfold(ps.drop_first())
    }
}

proof fn lemma_unfold_concat(a: Seq<Piece>, b: Seq<Piece>)
    ensures
        unfold(a + b) == unfold(a) + unfold(b),
    decreases a.len(),
{
    if a.len() == 0 {
        assert(a + b =~= b);
        assert(unfold(a) + unfold(b) =~= unfold(b));
    } else {
        lemma_unfold_concat(a.drop_first(), b);
        assert((a + b).drop_first() =~= a.drop_first() + b);
        assert((a + b)[0] == a[0]);
    }
}

proof fn lemma_pieces_from_unfold(cs: Seq<char>, buf: Seq<char>)
    ensures
        unfold(pieces_from(cs, buf)) == buf + cs,
    decreases cs.len(),
{
    if cs.len() == 0 {
        if buf.len() == 0 {
            assert(buf + cs =~= Seq::<char>::empty());
        } else {
            let ps = seq![Piece::Text(buf)];
            assert(ps.drop_first() =~= Seq::<Piece>::empty());
            assert(unfold(ps) =~= buf + unfold(Seq::<Piece>::empty()));
            assert(buf + cs =~= buf);
        }
    } else if is_control(cs[0]) {
        lemma_pieces_from_unfold(cs.drop_first(), seq![]);
        let f = flushed(buf);
        let c = seq![control_piece(cs[0])];
        lemma_unfold_concat(f + c, pieces_from(cs.drop_first(), seq![]));
        lemma_unfold_concat(f, c);
        if buf.len() == 0 {
            assert(unfold(f) =~= Seq::<char>::empty());
        } else {
            assert(seq![Piece::Text(buf)].drop_first() =~= Seq::<Piece>::empty());
            assert(unfold(f) =~= buf + unfold(Seq::<Piece>::empty()));
        }
        assert(c.drop_first() =~= Seq::<Piece>::empty());
        assert(piece_char(control_piece(cs[0])) == cs[0]);
        assert(unfold(c) =~= seq![cs[0]] + unfold(Seq::<Piece>::empty()));
        assert(buf + cs =~= buf + seq![cs[0]] + (seq![] + cs.drop_first()));
    } else {
        lemma_pieces_from_unfold(cs.drop_first(), buf.push(cs[0]));
        assert(buf.push(cs[0]) + cs.drop_first() =~= buf + cs);
    }
}

/// Folding the control characters of a run's text into elements loses nothing: the text
/// pieces, with each element read back as its character, spell the original text.
pub proof fn law_text_pieces_spell_the_text(s: Seq<char>)
    ensures
        unfold(pieces(s)) == s,
{
    lemma_pieces_from_unfold(s, seq![]);
    assert(Seq::<char>::empty() + s =~= s);
}

/// Sanitizing is idempotent: sanitized text has nothing left to remove, so sanitizing it again
/// changes nothing and raises no diagnostic.
pub proof fn law_sanitize_idempotent(s: Seq<char>)
    ensures
        kept(kept(s)) == kept(s),
        removed(kept(s)) == 0,
    decreases s.len(),
{
    if s.len() > 0 {
        law_sanitize_idempotent(s.drop_last());
        if allowed(s.last()) {
            let k = kept(s.drop_last()).push(s.last());
            assert(k.drop_last() =~= kept(s.drop_last()));
            assert(k.last() == s.last());
        }
    }
}

proof fn lemma_join_pieces(cs: Seq<char>, cur: Seq<char>)
    ensures
        join_path(path_pieces(cs, cur)) == cur + cs,
        path_pieces(cs, cur).len() >= 1,
    decreases cs.len(),
{
    if cs.len() == 0 {
        assert(seq![cur].len() == 1);
        assert(cur + cs =~= cur);
    } else if cs[0] == '/' {
        lemma_join_pieces(cs.drop_first(), seq![]);
        let rest = path_pieces(cs.drop_first(), seq![]);
        lemma_join_prepend(cur, rest);
        assert(seq![] + cs.drop_first() =~= cs.drop_first());
        assert(cur + seq!['/'] + cs.drop_first() =~= cur + cs);
    } else {
        lemma_join_pieces(cs.drop_first(), cur.push(cs[0]));
        assert(cur.push(cs[0]) + cs.drop_first() =~= cur + cs);
    }
}

proof fn lemma_join_prepend(p: Seq<char>, rest: Seq<Seq<char>>)
    requires
        rest.len() >= 1,
    ensures
        join_path(seq![p] + rest) == p + seq!['/'] + join_path(rest),
    decreases rest.len(),
{
    let all = seq![p] + rest;
    if rest.len() == 1 {
        assert(all.drop_last() =~= seq![p]);
        assert(all.last() == rest[0]);
        assert(join_path(rest) == rest[0]);
        assert(join_path(seq![p]) == p);
        assert(all.len() == 2);
        assert(join_path(all) == join_path(all.drop_last()) + seq!['/'] + all.last());
    } else {
        lemma_join_prepend(p, rest.drop_last());
        assert(all.drop_last() =~= seq![p] + rest.drop_last());
        assert(all.last() == rest.last());
        assert(join_path(all) == join_path(all.drop_last()) + seq!['/'] + all.last());
        assert(join_path(rest) == join_path(rest.drop_last()) + seq!['/'] + rest.last());
        assert(p + seq!['/'] + join_path(rest.drop_last()) + seq!['/'] + rest.last() =~= p + seq!['/'] + (join_path(rest.drop_last()) + seq!['/'] + rest.last()));
    }
}

/// Splitting a path at `/` and joining the pieces with `/` gives the path back.
pub proof fn law_join_split(s: Seq<char>)
    ensures
        join_path(split_path(s)) == s,
{
    lemma_join_pieces(s, seq![]);
    assert(Seq::<char>::empty() + s =~= s);
}

/// A part at the package root reaches any part by its entry name unchanged.
pub proof fn law_relative_target_from_root(uri: Seq<char>)
    ensures
        spec_relative_target(seq![], uri) == uri,
{
    let sp = split_path(seq![]);
    assert(sp =~= seq![Seq::<char>::empty()]);
    assert(sp.drop_last() =~= Seq::<Seq<char>>::empty());
    assert(sp.last() =~= Seq::<char>::empty());
    assert(non_empty(Seq::<Seq<char>>::empty()) =~= Seq::<Seq<char>>::empty());
    assert(non_empty(sp) =~= Seq::<Seq<char>>::empty());
    let to = split_path(uri);
    assert(common_len(non_empty(sp), to, 0) == 0);
    assert(to.subrange(0, to.len() as int) =~= to);
    law_join_split(uri);
    assert(ups(0) =~= Seq::<char>::empty());
    assert(Seq::<char>::empty() + uri =~= uri);
}

/// Marking the same blocks twice marks them once: merging a result whose blocks are already
/// all recorded leaves the block list unchanged.
pub proof fn law_push_new_idempotent(acc: Seq<NodeId>, items: Seq<NodeId>)
    ensures
        push_new(push_new(acc, items), items) == push_new(acc, items),
{
    lemma_push_new_contains(acc, items);
    lemma_push_new_noop(push_new(acc, items), items);
}

proof fn lemma_push_new_contains(acc: Seq<NodeId>, items: Seq<NodeId>)
    ensures
        forall|i: int| 0 <= i < items.len() ==> push_new(acc, items).contains(#[trigger] items[i]),
        forall|x: NodeId| acc.contains(x) ==> push_new(acc, items).contains(x),
    decreases items.len(),
{
    if items.len() > 0 {
        lemma_push_new_contains(acc, items.drop_last());
        let prev = push_new(acc, items.drop_last());
        assert forall|i: int| 0 <= i < items.len() implies push_new(acc, items).contains(#[trigger] items[i]) by {
            if i < items.len() - 1 {
                assert(items.drop_last()[i] == items[i]);
                assert(prev.contains(items[i]));
                if !prev.contains(items.last()) {
                    let j = choose|j: int| 0 <= j < prev.len() && prev[j] == items[i];
                    assert(prev.push(items.last())[j] == items[i]);
                }
            } else {
                if !prev.contains(items.last()) {
                    assert(prev.push(items.last())[prev.len() as int] == items.last());
                }
            }
        }
        assert forall|x: NodeId| acc.contains(x) implies push_new(acc, items).contains(x) by {
            if !prev.contains(items.last()) {
                let j = choose|j: int| 0 <= j < prev.len() && prev[j] == x;
                assert(prev.push(items.last())[j] == x);
            }
        }
    }
}

proof fn lemma_push_new_noop(acc: Seq<NodeId>, items: Seq<NodeId>)
    requires
        forall|i: int| 0 <= i < items.len() ==> acc.contains(#[trigger] items[i]),
    ensures
        push_new(acc, items) == acc,
    decreases items.len(),
{
    if items.len() > 0 {
        assert forall|i: int| 0 <= i < items.drop_last().len() implies acc.contains(#[trigger] items.drop_last()[i]) by {
            assert(items.drop_last()[i] == items[i]);
        }
        lemma_push_new_noop(acc, items.drop_last());
        assert(acc.contains(items[items.len() - 1]));
    }
}


/// Every revision id in a tree is at most the tree's largest revision id, so the ids a
/// tracker hands out from one past it are new.
pub proof fn law_max_revision_bounds_every_id(dom: Dom, k: nat)
    requires
        k < dom.len(),
    ensures
        rev_id(dom, NodeId(k as u32)) matches Some(v) ==> (dom_max_rev(dom) matches Some(m) && v <= m),
{
    lemma_max_rev_upto_bounds(dom, dom.len(), k);
}

proof fn lemma_max_rev_upto_bounds(dom: Dom, n: nat, k: nat)
    requires
        k < n,
    ensures
        rev_id(dom, NodeId(k as u32)) matches Some(v) ==> (max_rev_upto(dom, n) matches Some(m) && v <= m),
    decreases n,
{
    if k < n - 1 {
        lemma_max_rev_upto_bounds(dom, (n - 1) as nat, k);
    }
}

/// The content twins of a list of targets are listed without repetition.
pub proof fn law_sites_listed_once(pkg: Package, ts: Seq<(Option<PartId>, NodeId)>, k: nat)
    ensures
        sites_spec(pkg, ts, k) matches Ok(v) ==> forall|i: int, j: int| 0 <= i < j < v.len() ==> v[i] != v[j],
    decreases k,
{
    if k > 0 {
        law_sites_listed_once(pkg, ts, (k - 1) as nat);
        if let Ok(acc) = sites_spec(pkg, ts, (k - 1) as nat) {
            let tgt = ts[k - 1];
            let id = part_id(pkg, tgt.0);
            if let Some(d) = pkg.at(id).dom {
                lemma_add_sites_once(acc, d, tgt.0, boxes_at(d, tgt.1));
            }
        }
    }
}

proof fn lemma_add_sites_once(acc: Seq<TwinSite>, dom: Dom, part: Option<PartId>, ts: Seq<NodeId>)
    requires
        forall|i: int, j: int| 0 <= i < j < acc.len() ==> acc[i] != acc[j],
    ensures
        forall|i: int, j: int| 0 <= i < j < add_sites(acc, dom, part, ts).len() ==> add_sites(acc, dom, part, ts)[i]
            != add_sites(acc, dom, part, ts)[j],
    decreases ts.len(),
{
    if ts.len() > 0 {
        lemma_add_sites_once(acc, dom, part, ts.drop_last());
        let prev = add_sites(acc, dom, part, ts.drop_last());
        if let Some(s) = site_of(dom, part, ts.last()) {
            if !prev.contains(s) {
                assert forall|i: int, j: int| 0 <= i < j < prev.push(s).len() implies prev.push(s)[i] != prev.push(s)[j] by {
                    if j == prev.len() {
                        assert(prev[i] == prev.push(s)[i]);
                        if prev[i] == s {
                            assert(prev.contains(s));
                        }
                    }
                }
            }
        }
    }
}

/// A new table is rectangular: its grid has one column per width and every row has one
/// cell per grid column.
pub proof fn law_new_table_rectangular(e: NewElement, rows: u32, cols: u32, widths: Option<Seq<i32>>,
    style: Option<Seq<char>>, header: bool)
    requires
        is_new_table(e, rows, cols, widths, style, header),
    ensures
        e.children@[1] matches NewNode::Element(grid) && grid.children@.len() == table_cols(cols)
            && forall|r: int| 2 <= r < e.children@.len() ==> (#[trigger] e.children@[r] matches NewNode::Element(tr)
                && tr.children@.len() == (if header && r == 2 { 1int } else { 0int }) + table_cols(cols)),
{
    let ws = table_widths(cols, widths);
    assert(ws.len() == table_cols(cols));
    assert forall|r: int| 2 <= r < e.children@.len() implies (#[trigger] e.children@[r] matches NewNode::Element(tr)
        && tr.children@.len() == (if header && r == 2 { 1int } else { 0int }) + table_cols(cols)) by {
        assert(is_new_row(e.children@[2 + (r - 2)], ws, header && r - 2 == 0));
    }
}

/// A fresh revision id is new: every id held under the root is below the id that
/// `MutationPlan::next_revision_id` hands out.
pub proof fn law_next_revision_id_is_fresh(dom: Dom, i: int)
    requires
        0 <= i < dom.spec_all_descendants(dom.root).len(),
    ensures
        held_id(dom, dom.spec_all_descendants(dom.root)[i]) matches Some(v) ==> v < max_held(dom, dom.spec_all_descendants(dom.root)) + 1,
{
    lemma_max_held_bounds(dom, dom.spec_all_descendants(dom.root), i);
}

proof fn lemma_max_held_bounds(dom: Dom, ns: Seq<NodeId>, i: int)
    requires
        0 <= i < ns.len(),
    ensures
        held_id(dom, ns[i]) matches Some(v) ==> v <= max_held(dom, ns),
    decreases ns.len(),
{
    if i < ns.len() - 1 {
        lemma_max_held_bounds(dom, ns.drop_last(), i);
        assert(ns.drop_last()[i] == ns[i]);
    }
}

/// A fresh drawing id is new and positive: every `wp:docPr` id of the live tree is below
/// the id that `EditSession::media_ops_next_doc_pr_id` hands out, and that id is at least 1.
pub proof fn law_next_doc_pr_id_is_fresh(dom: Dom, i: int)
    requires
        0 <= i < live_tree(dom).len(),
    ensures
        doc_pr_id(dom, live_tree(dom)[i]) matches Some(v) ==> v < max_doc_pr(dom, live_tree(dom)) + 1,
        max_doc_pr(dom, live_tree(dom)) + 1 >= 1,
{
    lemma_max_doc_pr_bounds(dom, live_tree(dom), i);
}

proof fn lemma_max_doc_pr_bounds(dom: Dom, ns: Seq<NodeId>, i: int)
    requires
        0 <= i <= ns.len(),
    ensures
        i < ns.len() ==> (doc_pr_id(dom, ns[i]) matches Some(v) ==> v <= max_doc_pr(dom, ns)),
        max_doc_pr(dom, ns) >= 0,
    decreases ns.len(),
{
    if ns.len() > 0 {
        if i < ns.len() - 1 {
            lemma_max_doc_pr_bounds(dom, ns.drop_last(), i);
            assert(ns.drop_last()[i] == ns[i]);
        } else {
            lemma_max_doc_pr_bounds(dom, ns.drop_last(), 0);
        }
    }
}

/// Reading an attribute by name finds the first attribute of that name.
proof fn lemma_first_attr_pairs(a: Seq<crate::dom::Attr>, q: crate::xml::QName, j: int)
    requires
        0 <= j,
    ensures
        first_attr(a, q, j) == match attr_pos(attr_pairs(a), q, j) {
            Some(k) => Some(attr_pairs(a)[k].1),
            None => None,
        },
    decreases a.len() - j,
{
    if j < a.len() {
        lemma_first_attr_pairs(a, q, j + 1);
    }
}

/// The first pair named `q` at or after `j` lies in the list and carries that name.
proof fn lemma_attr_pos_range(ps: Seq<(crate::xml::QName, Seq<char>)>, q: crate::xml::QName, j: int)
    requires
        0 <= j,
    ensures
        attr_pos(ps, q, j) matches Some(k) ==> j <= k < ps.len() && ps[k].0 == q,
    decreases ps.len() - j,
{
    if j < ps.len() && ps[j].0 != q {
        lemma_attr_pos_range(ps, q, j + 1);
    }
}

/// In a list with `(q, v)` put in, `q` is first found where it was put.
proof fn lemma_with_attr_pos(ps: Seq<(crate::xml::QName, Seq<char>)>, q: crate::xml::QName, v: Seq<char>, j: int)
    requires
        0 <= j <= ps.len(),
    ensures
        match attr_pos(ps, q, j) {
            Some(k) => attr_pos(ps.update(k, (q, v)), q, j) == Some(k),
            None => attr_pos(ps.push((q, v)), q, j) == Some(ps.len() as int),
        },
    decreases ps.len() - j,
{
    lemma_attr_pos_range(ps, q, j);
    if j < ps.len() && ps[j].0 != q {
        lemma_with_attr_pos(ps, q, v, j + 1);
        lemma_attr_pos_range(ps, q, j + 1);
        match attr_pos(ps, q, j) {
            Some(k) => {
                assert(ps.update(k, (q, v))[j] == ps[j]);
            },
            None => {
                assert(ps.push((q, v))[j] == ps[j]);
            },
        }
    } else if j < ps.len() {
        assert(ps.update(j, (q, v))[j] == (q, v));
    } else {
        assert(ps.push((q, v))[j] == (q, v));
    }
}

/// A committed plan that sets attribute `q` of element `n` to `v`: reading `q` of `n` gives
/// `v` afterwards.
pub proof fn law_set_attr_reads_back(d0: Dom, n: NodeId, q: crate::xml::QName, v: String, created: Seq<Option<NodeId>>, d1: Dom)
    requires
        d0.is_element(n),
        applied(d0, seq![NodeEdit::SetAttr { node: Target::Node(n), name: q, value: v }], created, d1),
    ensures
        d1.spec_attr(n, q) == Some(v@),
{
    let edits = seq![NodeEdit::SetAttr { node: Target::Node(n), name: q, value: v }];
    let tr = choose|tr: Seq<Dom>| crate::edit::applied_through(d0, edits, created, tr, d1);
    assert(edits[0] == NodeEdit::SetAttr { node: Target::Node(n), name: q, value: v });
    assert(tr[0] == d0 && tr[1] == d1);
    let e = d0.at(n).kind->Element_0;
    let ps = attr_pairs(e.attrs@);
    let e1 = d1.at(n).kind->Element_0;
    assert(attr_pairs(e1.attrs@) == with_attr(ps, q, v@));
    lemma_with_attr_pos(ps, q, v@, 0);
    lemma_attr_pos_range(ps, q, 0);
    lemma_first_attr_pairs(e1.attrs@, q, 0);
    match attr_pos(ps, q, 0) {
        Some(k) => {
            assert(attr_pairs(e1.attrs@)[k] == (q, v@));
        },
        None => {
            assert(attr_pairs(e1.attrs@)[ps.len() as int] == (q, v@));
        },
    }
}

/// A committed plan that replaces the text of text node `n`: `n` holds the new text
/// afterwards, under the same parent.
pub proof fn law_set_text_reads_back(d0: Dom, n: NodeId, t: String, created: Seq<Option<NodeId>>, d1: Dom)
    requires
        d0.is_text(n),
        applied(d0, seq![NodeEdit::SetText { node: n, text: t }], created, d1),
    ensures
        d1.at(n).kind == crate::dom::NodeKind::Text(t),
        d1.at(n).parent == d0.at(n).parent,
{
    let edits = seq![NodeEdit::SetText { node: n, text: t }];
    let tr = choose|tr: Seq<Dom>| crate::edit::applied_through(d0, edits, created, tr, d1);
    assert(edits[0] == NodeEdit::SetText { node: n, text: t });
    assert(tr[0] == d0 && tr[1] == d1);
}

/// A committed plan that deletes node `n`: `n` is no longer live, and every other node is as
/// it was.
pub proof fn law_delete_ends_life(d0: Dom, n: NodeId, created: Seq<Option<NodeId>>, d1: Dom)
    requires
        d0.has(n),
        applied(d0, seq![NodeEdit::Delete(n)], created, d1),
    ensures
        !d1.live(n),
        forall|k: int| 0 <= k < d0.nodes@.len() && k != n.0 as int ==> #[trigger] d1.nodes@[k] == d0.nodes@[k],
{
    let edits = seq![NodeEdit::Delete(n)];
    let tr = choose|tr: Seq<Dom>| crate::edit::applied_through(d0, edits, created, tr, d1);
    assert(edits[0] == NodeEdit::Delete(n));
    assert(tr[0] == d0 && tr[1] == d1);
}

/// Offsets count UTF-16 units: text (inserted or deleted) is as wide as its UTF-16 length,
/// field characters and instructions take no room, and every other run segment (a tab, a
/// break, a carriage return, anything else) counts as one.
pub proof fn law_segments_count_utf16_units(k: crate::model::SegmentKind, t: Seq<char>)
    ensures
        (k == crate::model::SegmentKind::Text || k == crate::model::SegmentKind::DelText)
            ==> crate::document::seg_width(k, t) == utf16_len_of(t),
        (k == crate::model::SegmentKind::FldChar || k == crate::model::SegmentKind::InstrText
            || k == crate::model::SegmentKind::DelInstrText) ==> crate::document::seg_width(k, t) == 0,
        (k == crate::model::SegmentKind::Tab || k == crate::model::SegmentKind::Break || k == crate::model::SegmentKind::Cr
            || k == crate::model::SegmentKind::Other) ==> crate::document::seg_width(k, t) == 1,
{
}

/// An atom (a drawing, an object, a note reference and the like) counts as one unit of the
/// paragraph's offsets.
pub proof fn law_atom_counts_one(dom: Dom, ks: Seq<NodeId>, c: NodeId, t: int)
    requires
        crate::document::inline_kind(dom, c) == Some(crate::document::InlineKind::Atom),
        crate::document::para_width(dom, ks) == Some(t),
        t + 1 <= u32::MAX,
    ensures
        crate::document::para_width(dom, ks.push(c)) == Some(t + 1),
{
    assert(ks.push(c).drop_last() =~= ks);
}

/// A medium recorded by `add_media` is found again: looking up the same bytes of the same
/// type in the session's media table after the new entry was appended gives the new id.
pub proof fn law_recorded_media_hit(media: Seq<(Seq<char>, Seq<u8>, Seq<char>)>, mime: Seq<char>, bytes: Seq<u8>,
    rid: Seq<char>)
    requires
        crate::session::media_hit(media, mime, bytes, 0) is None,
    ensures
        crate::session::media_hit(media.push((mime, bytes, rid)), mime, bytes, 0) == Some(rid),
{
    lemma_hit_after_push(media, mime, bytes, rid, 0);
}

proof fn lemma_hit_after_push(media: Seq<(Seq<char>, Seq<u8>, Seq<char>)>, mime: Seq<char>, bytes: Seq<u8>, rid: Seq<char>,
    k: int)
    requires
        0 <= k <= media.len(),
        crate::session::media_hit(media, mime, bytes, k) is None,
    ensures
        crate::session::media_hit(media.push((mime, bytes, rid)), mime, bytes, k) == Some(rid),
    decreases media.len() - k,
{
    let m2 = media.push((mime, bytes, rid));
    if k < media.len() {
        assert(m2[k] == media[k]);
        lemma_hit_after_push(media, mime, bytes, rid, k + 1);
    } else {
        assert(m2[k] == (mime, bytes, rid));
    }
}

/// Adding the same bytes of the same type twice: the second call gives the id of the first
/// and changes nothing.
pub proof fn law_add_media_twice(s0: crate::session::EditSession, s1: crate::session::EditSession,
    s2: crate::session::EditSession, bytes: Seq<u8>, mime: Seq<char>, rid: String, r2: Result<String, crate::diag::Error>)
    requires
        crate::session::media_done(s0, s1, bytes, mime, Ok(rid)),
        crate::session::media_done(s1, s2, bytes, mime, r2),
    ensures
        r2 matches Ok(rid2) && rid2@ == rid@,
        s2 == s1,
{
    if crate::session::media_hit(s0.spec_media(), mime, bytes, 0) is None {
        law_recorded_media_hit(s0.spec_media(), mime, bytes, rid@);
    }
}

/// Asking twice for the `.rels` part of a part: the second call hands back the part the
/// first gave and leaves the package alone.
pub proof fn law_rels_part_reused(s0: crate::session::EditSession, s1: crate::session::EditSession,
    s2: crate::session::EditSession, part: PartId, p: PartId, r2: Result<PartId, crate::diag::Error>)
    requires
        crate::session::rels_part_done(s0, s1, part, Ok(p)),
        crate::session::rels_part_done(s1, s2, part, r2),
    ensures
        r2 == Ok::<PartId, crate::diag::Error>(p),
        s2.spec_pkg() == s1.spec_pkg(),
{
}

/// After a z-order change of an anchored drawing, the anchor's `relativeHeight` is the
/// decimal text of 251658240 + z, or of 0 when that sum is negative (so z = -1 gives
/// 251658239, and a larger z gives a larger height).
pub proof fn law_z_order_relative_height(s0: crate::session::EditSession, s1: crate::session::EditSession, drawing: NodeId,
    z: i64, res: crate::plan::MutationResult)
    requires
        s0.wf(),
        crate::drawing::z_order_done(s0, s1, drawing, z, Ok(res)),
    ensures
        s0.spec_pkg().at(s0.spec_pkg().main).dom matches Some(d) && crate::drawing::shell_of(d, drawing) matches Some(sh)
            && s1.spec_pkg().at(s1.spec_pkg().main).dom matches Some(d1)
            && d1.spec_attr(sh, crate::xml::QName { ns: crate::xml::NsId::NoNamespace, local: crate::xml::LocalName::RelativeHeight })
                == Some(crate::text::spec_decimal(if 251658240 + z < 0 { 0nat } else { (251658240 + z) as nat })),
{
    let p0 = s0.spec_pkg();
    let d = p0.at(p0.main).dom->0;
    let sh = crate::drawing::shell_of(d, drawing)->0;
    let q = crate::xml::QName { ns: crate::xml::NsId::NoNamespace, local: crate::xml::LocalName::RelativeHeight };
    let v = crate::drawing::relative_height(z as int);
    assert(d.wf());
    let lc = d.spec_live_children(drawing);
    crate::image::lemma_find_first_in(lc, |c: NodeId| d.named(c, crate::drawing::wpq(crate::xml::LocalName::Inline))
        || d.named(c, crate::drawing::wpq(crate::xml::LocalName::Anchor)));
    d.kids(drawing).lemma_filter_contains_rev(|x: NodeId| d.live(x), sh);
    let j = choose|j: int| 0 <= j < d.kids(drawing).len() && d.kids(drawing)[j] == sh;
    if d.has(drawing) {
        assert(d.nodes@[drawing.0 as int].children@[j] == sh);
    }
    assert(d.has(sh));
    let d1 = s1.spec_pkg().at(s1.spec_pkg().main).dom->0;
    let e = d.at(sh).kind->Element_0;
    let ps = attr_pairs(e.attrs@);
    let e1 = d1.at(sh).kind->Element_0;
    assert(attr_pairs(e1.attrs@) == with_attr(ps, q, v));
    lemma_with_attr_pos(ps, q, v, 0);
    lemma_attr_pos_range(ps, q, 0);
    lemma_first_attr_pairs(e1.attrs@, q, 0);
    match attr_pos(ps, q, 0) {
        Some(k) => {
            assert(attr_pairs(e1.attrs@)[k] == (q, v));
        },
        None => {
            assert(attr_pairs(e1.attrs@)[ps.len() as int] == (q, v));
        },
    }
    assert(d1.spec_attr(sh, q) == Some(v));
}

/// A hexadecimal digit letter in lower case (other characters unchanged).
pub open spec fn hex_lower(c: char) -> char {
    if c == 'A' { 'a' } else if c == 'B' { 'b' } else if c == 'C' { 'c' } else if c == 'D' { 'd' }
    else if c == 'E' { 'e' } else if c == 'F' { 'f' } else { c }
}

proof fn lemma_hex_digits_case(ds: Seq<char>)
    ensures
        crate::parse::num_value(ds, true) == crate::parse::num_value(ds.map_values(|c: char| hex_lower(c)), true),
    decreases ds.len(),
{
    if ds.len() > 0 {
        let f = |c: char| hex_lower(c);
        let lo = ds.map_values(f);
        assert(lo.drop_last() =~= ds.drop_last().map_values(f));
        assert(lo.last() == hex_lower(ds.last()));
        lemma_hex_digits_case(ds.drop_last());
        let c = ds.last();
        assert(crate::parse::digit_of(hex_lower(c), true) == crate::parse::digit_of(c, true));
    }
}

/// A hexadecimal character reference names the same code point whichever case its digit
/// letters are written in: `&#x4E2D;` and `&#x4e2d;` are the same character.
pub proof fn law_hex_reference_case_blind(ds: Seq<char>)
    ensures
        crate::parse::ref_code(seq!['x'] + ds) == crate::parse::ref_code(seq!['x'] + ds.map_values(|c: char| hex_lower(c))),
{
    let f = |c: char| hex_lower(c);
    assert((seq!['x'] + ds).drop_first() =~= ds);
    assert((seq!['x'] + ds.map_values(f)).drop_first() =~= ds.map_values(f));
    assert((seq!['x'] + ds)[0] == 'x');
    assert((seq!['x'] + ds.map_values(f))[0] == 'x');
    lemma_hex_digits_case(ds);
}

/// `n` lies in the live subtree at `root`: it is `root`, or lies under one of its children,
/// and every node on the way is live (at most `fuel` levels down).
pub open spec fn live_reach(d: Dom, root: NodeId, n: NodeId, fuel: nat) -> bool
    decreases fuel, 0int,
{
    if fuel == 0 || !d.live(root) {
        false
    } else {
        root == n || reach_kids(d, d.kids(root), n, (fuel - 1) as nat)
    }
}

/// `n` lies in the live subtree at one of `ks`.
pub open spec fn reach_kids(d: Dom, ks: Seq<NodeId>, n: NodeId, fuel: nat) -> bool
    decreases fuel, ks.len() + 1,
{
    if ks.len() == 0 {
        false
    } else {
        reach_kids(d, ks.drop_last(), n, fuel) || live_reach(d, ks.last(), n, fuel)
    }
}

proof fn lemma_renames_reach(d: Dom, root: NodeId, n: NodeId, fuel: nat, to_deleted: bool, t: crate::xml::LocalName)
    requires
        d.wf(),
        live_reach(d, root, n, fuel),
        d.name_of(n) matches Some(q) && q.ns == crate::xml::NsId::W && crate::track::renamed(q.local, to_deleted) == Some(t),
    ensures
        crate::track::renames(d, root, fuel, to_deleted).contains(NodeEdit::Rename { node: n, name: crate::emit::wq(t) }),
    decreases fuel, 0int,
{
    let x = NodeEdit::Rename { node: n, name: crate::emit::wq(t) };
    let r = crate::track::renames(d, root, fuel, to_deleted);
    let kr = crate::track::kids_renames(d, d.kids(root), (fuel - 1) as nat, to_deleted);
    match d.at(root).kind {
        crate::dom::NodeKind::Element(e) => {
            let own: Seq<NodeEdit> = if e.name.ns == crate::xml::NsId::W && crate::track::renamed(e.name.local, to_deleted) is Some {
                seq![NodeEdit::Rename { node: root, name: crate::emit::wq(crate::track::renamed(e.name.local, to_deleted)->Some_0) }]
            } else {
                seq![]
            };
            assert(r == own + kr);
            if root == n {
                assert(own[0] == x);
                assert(r[0] == x);
            } else {
                lemma_kids_reach(d, d.kids(root), n, (fuel - 1) as nat, to_deleted, t);
                let k = choose|k: int| 0 <= k < kr.len() && kr[k] == x;
                assert((own + kr)[own.len() + k] == x);
            }
        },
        crate::dom::NodeKind::Text(_) => {
            assert(d.name_of(root) is None);
            assert(root != n);
            assert(d.kids(root).len() == 0);
        },
    }
}

proof fn lemma_kids_reach(d: Dom, ks: Seq<NodeId>, n: NodeId, fuel: nat, to_deleted: bool, t: crate::xml::LocalName)
    requires
        d.wf(),
        reach_kids(d, ks, n, fuel),
        d.name_of(n) matches Some(q) && q.ns == crate::xml::NsId::W && crate::track::renamed(q.local, to_deleted) == Some(t),
    ensures
        crate::track::kids_renames(d, ks, fuel, to_deleted).contains(NodeEdit::Rename { node: n, name: crate::emit::wq(t) }),
    decreases fuel, ks.len() + 1,
{
    let x = NodeEdit::Rename { node: n, name: crate::emit::wq(t) };
    let prev = crate::track::kids_renames(d, ks.drop_last(), fuel, to_deleted);
    let last = crate::track::renames(d, ks.last(), fuel, to_deleted);
    assert(crate::track::kids_renames(d, ks, fuel, to_deleted) == prev + last);
    if reach_kids(d, ks.drop_last(), n, fuel) {
        lemma_kids_reach(d, ks.drop_last(), n, fuel, to_deleted, t);
        let k = choose|k: int| 0 <= k < prev.len() && prev[k] == x;
        assert((prev + last)[k] == x);
    } else {
        lemma_renames_reach(d, ks.last(), n, fuel, to_deleted, t);
        let k = choose|k: int| 0 <= k < last.len() && last[k] == x;
        assert((prev + last)[prev.len() + k] == x);
    }
}

/// Moving a run into a deletion renames its text: every live `w:t` in the subtree becomes
/// `w:delText` and every live `w:instrText` becomes `w:delInstrText`; taking it back out
/// renames `w:delText` to `w:t` and `w:delInstrText` to `w:instrText`. (These are the edits
/// `Tracker::rename_to_deleted` and `Tracker::rename_to_live` add to a plan.)
pub proof fn law_deleted_text_renames(d: Dom, root: NodeId, n: NodeId)
    requires
        d.wf(),
        live_reach(d, root, n, d.len()),
    ensures
        d.named(n, crate::emit::wq(crate::xml::LocalName::T)) ==> crate::track::renames(d, root, d.len(), true).contains(
            NodeEdit::Rename { node: n, name: crate::emit::wq(crate::xml::LocalName::DelText) }),
        d.named(n, crate::emit::wq(crate::xml::LocalName::InstrText)) ==> crate::track::renames(d, root, d.len(), true).contains(
            NodeEdit::Rename { node: n, name: crate::emit::wq(crate::xml::LocalName::DelInstrText) }),
        d.named(n, crate::emit::wq(crate::xml::LocalName::DelText)) ==> crate::track::renames(d, root, d.len(), false).contains(
            NodeEdit::Rename { node: n, name: crate::emit::wq(crate::xml::LocalName::T) }),
        d.named(n, crate::emit::wq(crate::xml::LocalName::DelInstrText)) ==> crate::track::renames(d, root, d.len(), false).contains(
            NodeEdit::Rename { node: n, name: crate::emit::wq(crate::xml::LocalName::InstrText) }),
{
    if d.named(n, crate::emit::wq(crate::xml::LocalName::T)) {
        lemma_renames_reach(d, root, n, d.len(), true, crate::xml::LocalName::DelText);
    }
    if d.named(n, crate::emit::wq(crate::xml::LocalName::InstrText)) {
        lemma_renames_reach(d, root, n, d.len(), true, crate::xml::LocalName::DelInstrText);
    }
    if d.named(n, crate::emit::wq(crate::xml::LocalName::DelText)) {
        lemma_renames_reach(d, root, n, d.len(), false, crate::xml::LocalName::T);
    }
    if d.named(n, crate::emit::wq(crate::xml::LocalName::DelInstrText)) {
        lemma_renames_reach(d, root, n, d.len(), false, crate::xml::LocalName::InstrText);
    }
}


/// A new hyperlink to a bookmark carries the bookmark as `w:anchor` and no relationship id;
/// one to a relationship carries its id as `r:id` and no anchor.
pub proof fn law_link_target_attribute(e: NewElement, target: crate::emit::NewLinkTarget, tooltip: Option<String>)
    requires
        crate::emit::link_rendered(e, target, tooltip),
    ensures
        e.attrs@.len() >= 1,
        target matches crate::emit::NewLinkTarget::Anchor(a) ==> e.attrs@[0].0 == (crate::xml::QName {
            ns: crate::xml::NsId::W, local: crate::xml::LocalName::Anchor }) && e.attrs@[0].1@ == a@
            && forall|k: int| 0 <= k < e.attrs@.len() ==> (#[trigger] e.attrs@[k]).0.ns != crate::xml::NsId::R,
        target matches crate::emit::NewLinkTarget::Rel(rid) ==> e.attrs@[0].0 == (crate::xml::QName {
            ns: crate::xml::NsId::R, local: crate::xml::LocalName::Id }) && e.attrs@[0].1@ == rid@
            && forall|k: int| 0 <= k < e.attrs@.len() ==> (#[trigger] e.attrs@[k]).0.local != crate::xml::LocalName::Anchor,
        e.attrs@.len() == (if tooltip is Some { 2int } else { 1int }),
{
    let views = e.attrs@.map_values(|x: (crate::xml::QName, String)| (x.0, x.1@));
    assert(views.len() == e.attrs@.len());
    assert forall|k: int| 0 <= k < e.attrs@.len() implies (#[trigger] e.attrs@[k]).0 == views[k].0 && e.attrs@[k].1@ == views[k].1 by {}
}

} // verus!
