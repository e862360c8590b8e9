use vstd::prelude::*;
use crate::chars::chars_of;
use crate::diag::text;
use crate::emit::{Emitter, NewRun, run_renders};
use crate::plan::MutationPlan;
use crate::tables::{is_leaf, wn};
use crate::text::push_char;
use crate::xml::{LocalName, NewElement, NewNode, NsId, QName, element_same};

verus! {

/// `w:rPr` holding only the character style `style`.
pub open spec fn styled_rpr(e: NewElement, style: Seq<char>) -> bool {
    &&& e.name == wn(LocalName::RPr)
    &&& e.attrs@.len() == 0
    &&& e.children@.len() == 1
    &&& is_leaf(e.children@[0], wn(LocalName::RStyle), seq![(wn(LocalName::Val), style)])
}

/// A `w:r` in the `CommentReference` character style holding the mark `mark`.
pub open spec fn reference_run(r: NewElement, mark: NewNode) -> bool {
    &&& r.name == wn(LocalName::R)
    &&& r.attrs@.len() == 0
    &&& r.children@.len() == 2
    &&& r.children@[0] matches NewNode::Element(p) && styled_rpr(p, "CommentReference"@)
    &&& r.children@[1] == mark
}

fn comment_style_rpr() -> (e: NewElement)
    ensures
        styled_rpr(e, "CommentReference"@),
{
    NewElement::new(QName::w(LocalName::RPr)).with_child(
        NewElement::new(QName::w(LocalName::RStyle)).with_attr(QName::w(LocalName::Val), text("CommentReference")),
    )
}

/// The pieces of `cs` between line feeds, the current one starting with `cur`.
pub open spec fn lines_from(cs: Seq<char>, cur: Seq<char>) -> Seq<Seq<char>>
    decreases cs.len(),
{
    if cs.len() == 0 {
        seq![cur]
    } else if cs[0] == '\n' {
        seq![cur] + lines_from(cs.drop_first(), seq![])
    } else {
        lines_from(cs.drop_first(), cur.push(cs[0]))
    }
}

/// The lines of a text: split at every line feed (an empty text is one empty line).
pub open spec fn entry_lines(s: Seq<char>) -> Seq<Seq<char>> {
    lines_from(s, seq![])
}

/// The optional element behind an optional reference.
pub open spec fn opt_elem(o: Option<&NewElement>) -> Option<NewElement> {
    match o {
        Some(e) => Some(*e),
        None => None,
    }
}

/// `r` carries a copy of `rpr` (none when `rpr` is none).
pub open spec fn props_copied(r: NewRun, rpr: Option<NewElement>) -> bool {
    match rpr {
        Some(p) => r.props matches Some(q) && element_same(p, q),
        None => r.props is None,
    }
}

fn copy_props(rpr: Option<&NewElement>) -> (r: Option<NewElement>)
    ensures
        match rpr {
            Some(p) => r matches Some(q) && element_same(*p, q),
            None => r is None,
        },
{
    match rpr {
        Some(p) => Some(p.copy()),
        None => None,
    }
}

impl MutationPlan {
    /// A `w:commentReference` run in the `CommentReference` character style.
    pub fn comment_reference_run(id: &str) -> (r: NewElement)
        ensures
            r.children@.len() == 2 && is_leaf(r.children@[1], wn(LocalName::CommentReference), seq![(wn(LocalName::Id), id@)]),
            reference_run(r, r.children@[1]),
    {
        NewElement::new(QName::w(LocalName::R)).with_child(comment_style_rpr()).with_child(
            NewElement::new(QName::w(LocalName::CommentReference)).with_attr(QName::w(LocalName::Id), text(id)),
        )
    }

    /// The leading run of a comment's first paragraph: `w:annotationRef` in the
    /// `CommentReference` character style.
    pub fn annotation_ref_run() -> (r: NewElement)
        ensures
            r.children@.len() == 2 && is_leaf(r.children@[1], wn(LocalName::AnnotationRef), seq![]),
            reference_run(r, r.children@[1]),
    {
        NewElement::new(QName::w(LocalName::R)).with_child(comment_style_rpr()).with_child(
            NewElement::new(QName::w(LocalName::AnnotationRef)),
        )
    }

    /// Plain text as entry paragraphs: one paragraph per line, each a single run carrying a
    /// copy of `rpr`.
    pub fn text_entry_paras(s: &str, rpr: Option<&NewElement>) -> (r: Vec<Vec<NewRun>>)
        ensures
            r@.len() == entry_lines(s@).len(),
            forall|i: int| 0 <= i < r@.len() ==> (#[trigger] r@[i])@.len() == 1 && r@[i]@[0].text@ == entry_lines(s@)[i]
                && props_copied(r@[i]@[0], opt_elem(rpr)),
    {
        let cs = chars_of(s);
        let mut out: Vec<Vec<NewRun>> = Vec::new();
        let mut cur = String::new();
        let ghost mut g: Seq<Seq<char>> = seq![];
        let mut i: usize = 0;
        proof {
            assert(cs@.skip(0) =~= cs@);
        }
        while i < cs.len()
            invariant
                cs@ == s@,
                i <= cs@.len(),
                out@.len() == g.len(),
                forall|j: int| 0 <= j < g.len() ==> (#[trigger] out@[j])@.len() == 1 && out@[j]@[0].text@ == g[j]
                    && props_copied(out@[j]@[0], opt_elem(rpr)),
                g + lines_from(cs@.skip(i as int), cur@) == entry_lines(s@),
            decreases cs@.len() - i,
        {
            let c = cs[i];
            proof {
                assert(cs@.skip(i as int)[0] == c);
                assert(cs@.skip(i as int).drop_first() =~= cs@.skip(i + 1));
            }
            if c == '\n' {
                let line = NewRun { text: cur, props: copy_props(rpr) };
                let mut one: Vec<NewRun> = Vec::new();
                one.push(line);
                proof {
                    assert(g.push(line.text@) + lines_from(cs@.skip(i + 1), seq![]) =~= g + lines_from(cs@.skip(i as int), line.text@));
                    g = g.push(line.text@);
                }
                out.push(one);
                cur = String::new();
            } else {
                push_char(&mut cur, c);
            }
            i = i + 1;
        }
        proof {
            assert(cs@.skip(i as int).len() == 0);
            assert(g.push(cur@) =~= g + lines_from(cs@.skip(i as int), cur@));
        }
        let line = NewRun { text: cur, props: copy_props(rpr) };
        let mut one: Vec<NewRun> = Vec::new();
        one.push(line);
        out.push(one);
        proof {
            g = g.push(line.text@);
        }
        out
    }

    /// A run of an entry: its `w:rPr`, then its text with the control characters as elements.
    pub fn entry_run(r: &NewRun) -> (e: NewElement)
        ensures
            run_renders(e, r.text@, r.props, false),
    {
        let props = match &r.props {
            Some(p) => Some(p),
            None => None,
        };
        Emitter::new_run(r.text.as_str(), props, false)
    }
}

/// A paragraph of an entry: `w:p` with `w14:paraId` when it is the last one and an id is
/// given, a copy of `lead` first when it is the first one and a lead is given, then its runs.
pub open spec fn entry_paragraph(p: NewElement, runs: Seq<NewRun>, last: bool, first: bool, para_id: Option<Seq<char>>, lead: Option<NewElement>) -> bool {
    let off: int = if first && lead is Some { 1 } else { 0 };
    &&& p.name == wn(LocalName::P)
    &&& (if last && para_id is Some {
        p.attrs@.len() == 1 && p.attrs@[0].0 == (QName { ns: NsId::W14, local: LocalName::ParaId }) && p.attrs@[0].1@ == para_id.unwrap()
    } else {
        p.attrs@.len() == 0
    })
    &&& p.children@.len() == off + runs.len()
    &&& (off == 1 ==> (p.children@[0] matches NewNode::Element(x) && element_same(lead.unwrap(), x)))
    &&& forall|j: int| 0 <= j < runs.len() ==> (#[trigger] p.children@[off + j] matches NewNode::Element(x)
        && run_renders(x, runs[j].text@, runs[j].props, false))
}

impl MutationPlan {
    /// The paragraphs of a comment or note entry.
    pub fn entry_paragraphs(paras: &Vec<Vec<NewRun>>, para_id: Option<&str>, lead: Option<NewElement>) -> (r: Vec<NewElement>)
        ensures
            r@.len() == paras@.len(),
            forall|i: int| 0 <= i < r@.len() ==> entry_paragraph(#[trigger] r@[i], paras@[i]@, i == paras@.len() - 1, i == 0,
                match para_id { Some(s) => Some(s@), None => None }, lead),
    {
        let last: usize = if paras.len() > 0 { paras.len() - 1 } else { 0 };
        let ghost pid = match para_id { Some(s) => Some(s@), None => None::<Seq<char>> };
        let mut out: Vec<NewElement> = Vec::new();
        for i in 0..paras.len()
            invariant
                last == (if paras@.len() > 0 { paras@.len() - 1 } else { 0 }),
                pid == (match para_id { Some(s) => Some(s@), None => None::<Seq<char>> }),
                out@.len() == i,
                forall|k: int| 0 <= k < i ==> entry_paragraph(#[trigger] out@[k], paras@[k]@, k == paras@.len() - 1, k == 0, pid, lead),
        {
            let mut p = NewElement::new(QName::w(LocalName::P));
            if i == last {
                if let Some(id) = para_id {
                    p.push_attr(QName::new(NsId::W14, LocalName::ParaId), text(id));
                }
            }
            let ghost off: int = if i == 0 && lead is Some { 1 } else { 0 };
            if i == 0 {
                if let Some(l) = &lead {
                    p.push_child(l.copy());
                }
            }
            let ghost p0 = p;
            let runs = &paras[i];
            for j in 0..runs.len()
                invariant
                    p.name == wn(LocalName::P),
                    off == (if i == 0 && lead is Some { 1int } else { 0int }),
                    p.attrs@ == p0.attrs@,
                    p.children@.len() == off + j,
                    forall|k: int| 0 <= k < off ==> p.children@[k] == p0.children@[k],
                    forall|k: int| 0 <= k < j ==> (#[trigger] p.children@[off + k] matches NewNode::Element(x)
                        && run_renders(x, runs@[k].text@, runs@[k].props, false)),
            {
                let e = Self::entry_run(&runs[j]);
                let ghost before = p.children@;
                p.push_child(e);
                proof {
                    assert(p.children@ == before.push(NewNode::Element(e)));
                    assert(p.children@[off + j] == NewNode::Element(e));
                    assert forall|k: int| 0 <= k < j + 1 implies (#[trigger] p.children@[off + k] matches NewNode::Element(x)
                        && run_renders(x, runs@[k].text@, runs@[k].props, false)) by {
                        if k < j {
                            assert(before.push(NewNode::Element(e))[off + k] == before[off + k]);
                        }
                    }
                }
            }
            out.push(p);
        }
        out
    }
}

} // verus!
