use rsword::blocks::{drop_empty_containers, empty_paragraph, keep_cell_paragraph, row_revision_marks};
use rsword::content::{hex4_text, NewAtom};
use rsword::diag::DiagCode;
use rsword::dom::Dom;
use rsword::edit::{NodeEdit, Target};
use rsword::ids::{NodeId, PartId};
use rsword::model::BreakKind;
use rsword::package::Package;
use rsword::plan::MutationPlan;
use rsword::position::BlockAt;
use rsword::revert::RevisionKeep;
use rsword::diag::Error;
use rsword::sections::{ensure_hf_part, link_header_footer, require_sect_pr, HfKind, HfVariant};
use rsword::session::EditSession;
use rsword::track::{EditContext, RevisionAuthor, Tracker};
use rsword::xml::{LocalName, NewElement, NewNode, NsId, QName};

const W: &str = "http://schemas.openxmlformats.org/wordprocessingml/2006/main";

fn document(body: &str) -> String {
    format!(r#"<w:document xmlns:w="{W}"><w:body>{body}</w:body></w:document>"#)
}

fn dom(body: &str) -> Dom {
    Dom::parse(PartId(0), document(body).as_bytes()).unwrap()
}

fn session(body: &str) -> EditSession {
    EditSession::from_package(Package::new("word/document.xml", &document(body)).unwrap()).unwrap()
}

fn tracker() -> Tracker {
    let ctx = EditContext { track_changes: Some(RevisionAuthor { author: "Ann".to_string(), date: None }), ..Default::default() };
    Tracker::new(Some(4), &ctx).unwrap()
}

fn el(n: &NewNode) -> &NewElement {
    match n {
        NewNode::Element(e) => e,
        NewNode::Text(_) => panic!("expected an element"),
    }
}

fn w_attr<'a>(e: &'a NewElement, l: LocalName) -> Option<&'a str> {
    e.attrs.iter().find(|(n, _)| *n == QName::w(l)).map(|(_, v)| v.as_str())
}

#[test]
fn atoms_break_symbol_and_note_reference() {
    let page = NewAtom::break_element(BreakKind::Page, Some("all"));
    assert_eq!(page.attrs, vec![(QName::w(LocalName::Type), "page".to_string())]);
    let wrap = NewAtom::break_element(BreakKind::TextWrapping, Some("all"));
    assert_eq!(wrap.attrs, vec![(QName::w(LocalName::Clear), "all".to_string())]);
    assert!(NewAtom::break_element(BreakKind::TextWrapping, None).attrs.is_empty());
    let sym = NewAtom::symbol_element("Wingdings", 0xF04A);
    assert_eq!(w_attr(&sym, LocalName::Char), Some("F04A"));
    assert_eq!(w_attr(&sym, LocalName::Font), Some("Wingdings"));
    assert_eq!(hex4_text(0x1_002B), "002B");
    let note = NewAtom::note_ref_element(true, "3");
    assert_eq!(note.name, QName::w(LocalName::EndnoteReference));
    assert_eq!(w_attr(&note, LocalName::Id), Some("3"));
}

#[test]
fn sections_must_be_live_with_live_ancestors() {
    let mut d = dom("<w:p><w:pPr><w:sectPr/></w:pPr></w:p><w:sectPr/>");
    assert!(require_sect_pr(&d, NodeId(4)).is_ok());
    assert!(require_sect_pr(&d, NodeId(5)).is_ok());
    assert_eq!(require_sect_pr(&d, NodeId(2)).unwrap_err().code(), DiagCode::EditBadPosition);
    d.delete(NodeId(2));
    assert_eq!(require_sect_pr(&d, NodeId(4)).unwrap_err().code(), DiagCode::EditBadPosition);
}

#[test]
fn linking_a_header_adds_a_reference_once() {
    let mut s = session("<w:p/><w:sectPr><w:pgSz/></w:sectPr><w:p/>");
    let header = ensure_hf_part(&mut s, NodeId(3), HfKind::Header, HfVariant::Default).unwrap();
    let mut s2 = s;
    let r = link_header_footer(&mut s2, NodeId(3), HfKind::Header, HfVariant::Even, header).unwrap();
    assert_eq!(r.created.len(), 1);
    assert_eq!(r.affected_blocks, vec![NodeId(3)]);
    let again = link_header_footer(&mut s2, NodeId(3), HfKind::Header, HfVariant::Even, header).unwrap();
    assert!(again.created.is_empty());
    let err = link_header_footer(&mut s2, NodeId(2), HfKind::Header, HfVariant::First, header).unwrap_err();
    assert_eq!(err.code(), DiagCode::EditBadPosition);
    let main = s2.main_part();
    let err = link_header_footer(&mut s2, NodeId(3), HfKind::Header, HfVariant::First, main).unwrap_err();
    assert_eq!(err.code(), DiagCode::EditPlanInvalid);
}

#[test]
fn page_colour_is_added_changed_and_removed() {
    let mut s = session("<w:p/>");
    s.set_page_color(Some("FF0000".to_string())).unwrap();
    let bg = s.dom().live_children(s.dom().root())[0];
    assert!(s.dom().is(bg, QName::w(LocalName::Background)));
    assert_eq!(s.dom().attr(bg, QName::w(LocalName::Color)).map(|v| v.as_str()), Some("FF0000"));
    s.set_page_color(Some("00FF00".to_string())).unwrap();
    assert_eq!(s.dom().attr(bg, QName::w(LocalName::Color)).map(|v| v.as_str()), Some("00FF00"));
    s.set_page_color(None).unwrap();
    assert!(!s.dom().is_live(bg));
    s.set_page_color(None).unwrap();
}

#[test]
fn emptied_property_containers_go_up_to_the_first_that_keeps_something() {
    let d = dom("<w:p><w:pPr><w:rPr><w:ins/></w:rPr></w:pPr><w:r/></w:p>");
    let mut plan = MutationPlan::new(PartId(0));
    drop_empty_containers(&mut plan, &d, NodeId(5));
    assert_eq!(plan.node_edits.len(), 2);
    assert!(matches!(plan.node_edits[0], NodeEdit::Delete(n) if n == NodeId(4)));
    assert!(matches!(plan.node_edits[1], NodeEdit::Delete(n) if n == NodeId(3)));
    let d = dom("<w:p><w:pPr><w:jc/><w:rPr><w:ins/></w:rPr></w:pPr></w:p>");
    let mut plan = MutationPlan::new(PartId(0));
    drop_empty_containers(&mut plan, &d, NodeId(6));
    assert_eq!(plan.node_edits.len(), 1);
}

#[test]
fn empty_paragraphs_and_cells_that_must_end_with_one() {
    let d = dom("<w:tbl><w:tr><w:tc><w:p><w:pPr><w:jc/></w:pPr></w:p><w:tbl/></w:tc></w:tr></w:tbl>");
    let mut plan = MutationPlan::new(PartId(0));
    empty_paragraph(&d, &mut plan, Target::Node(NodeId(4)), Some(NodeId(5)));
    assert_eq!(plan.node_edits.len(), 2);
    assert!(matches!(plan.node_edits[1], NodeEdit::InsertClone { parent: Target::New(0), source, .. } if source == NodeId(6)));
    let mut plan = MutationPlan::new(PartId(0));
    keep_cell_paragraph(&d, NodeId(4), None, &mut plan);
    assert!(plan.structure_changed);
    assert_eq!(plan.node_edits.len(), 1);
    let mut plan = MutationPlan::new(PartId(0));
    keep_cell_paragraph(&d, NodeId(4), Some(NodeId(8)), &mut plan);
    assert!(plan.node_edits.is_empty());
    keep_cell_paragraph(&d, NodeId(2), None, &mut plan);
    assert!(plan.node_edits.is_empty());
}

#[test]
fn appended_edits_are_renumbered() {
    let mut plan = MutationPlan::new(PartId(0));
    plan.node_edits.push(NodeEdit::Delete(NodeId(1)));
    plan.append_edits(vec![
        NodeEdit::Insert { parent: Target::Node(NodeId(2)), before: None, node: NewElement::new(QName::w(LocalName::P)) },
        NodeEdit::Insert { parent: Target::New(0), before: None, node: NewElement::new(QName::w(LocalName::R)) },
        NodeEdit::SetAttr { node: Target::New(1), name: QName::w(LocalName::Val), value: "x".to_string() },
    ]);
    assert!(matches!(plan.node_edits[1], NodeEdit::Insert { parent: Target::Node(n), .. } if n == NodeId(2)));
    assert!(matches!(plan.node_edits[2], NodeEdit::Insert { parent: Target::New(1), .. }));
    assert!(matches!(plan.node_edits[3], NodeEdit::SetAttr { node: Target::New(2), .. }));
}

#[test]
fn row_properties_are_copied_without_revision_marks() {
    let d = dom(r#"<w:tbl><w:tr><w:trPr><w:cantSplit/><w:ins w:id="1"/><w:tblHeader/></w:trPr></w:tr></w:tbl>"#);
    assert_eq!(row_revision_marks(&d, NodeId(4)), vec![NodeId(6)]);
    let mut plan = MutationPlan::new(PartId(0));
    plan.clone_row_props_without_revisions(&d, 7, NodeId(4));
    assert_eq!(plan.node_edits.len(), 3);
    assert!(matches!(plan.node_edits[0], NodeEdit::Insert { parent: Target::New(7), .. }));
    assert!(matches!(plan.node_edits[1], NodeEdit::InsertClone { parent: Target::New(0), source, .. } if source == NodeId(5)));
    assert!(matches!(plan.node_edits[2], NodeEdit::InsertClone { parent: Target::New(0), source, .. } if source == NodeId(7)));
}

#[test]
fn new_rows_and_paragraph_marks_carry_insertions() {
    let mut t = tracker();
    let row = NewElement::new(QName::w(LocalName::Tr))
        .with_child(NewElement::new(QName::w(LocalName::TblPrEx)))
        .with_child(NewElement::new(QName::w(LocalName::Tc)));
    let out = t.with_row_mark(row, LocalName::Ins);
    assert_eq!(out.children.len(), 3);
    let tr_pr = el(&out.children[1]);
    assert_eq!(tr_pr.name, QName::w(LocalName::TrPr));
    assert_eq!(w_attr(el(&tr_pr.children[0]), LocalName::Id), Some("5"));
    let ppr = NewElement::new(QName::w(LocalName::PPr))
        .with_child(NewElement::new(QName::w(LocalName::Unknown)))
        .with_child(NewElement::new(QName::w(LocalName::SectPr)));
    let out = t.with_para_mark(ppr);
    assert_eq!(out.children.len(), 3);
    let rpr = el(&out.children[1]);
    assert_eq!(rpr.name, QName::w(LocalName::RPr));
    assert_eq!(w_attr(el(&rpr.children[0]), LocalName::Id), Some("6"));
}

#[test]
fn new_blocks_are_marked_inserted() {
    let mut t = tracker();
    let p = NewElement::new(QName::w(LocalName::P))
        .with_child(NewElement::new(QName::w(LocalName::R)))
        .with_child(NewElement::new(QName::w(LocalName::R)));
    let out = t.mark_new_block_inserted(p, false);
    assert_eq!(out.children.len(), 2);
    assert_eq!(el(&out.children[0]).name, QName::w(LocalName::PPr));
    let ins = el(&out.children[1]);
    assert_eq!(ins.name, QName::w(LocalName::Ins));
    assert_eq!(ins.children.len(), 2);
    let tbl = NewElement::new(QName::w(LocalName::Tbl))
        .with_child(NewElement::new(QName::w(LocalName::TblPr)))
        .with_child(NewElement::new(QName::w(LocalName::Tr)));
    let out = t.mark_new_block_inserted(tbl, false);
    assert_eq!(el(&out.children[0]).children.len(), 0);
    assert_eq!(el(&el(&out.children[1]).children[0]).name, QName::w(LocalName::TrPr));
    let raw = t.mark_new_block_inserted(NewElement::new(QName::w(LocalName::P)), true);
    assert_eq!(raw.name, QName::w(LocalName::Ins));
    assert_eq!(raw.children.len(), 1);
}

#[test]
fn run_property_snapshots() {
    let d = dom(r#"<w:p><w:r><w:t>x</w:t></w:r><w:r><w:rPr><w:b/></w:rPr></w:r></w:p>"#);
    let mut t = tracker();
    let mut plan = MutationPlan::new(PartId(0));
    t.snapshot_run_props(&mut plan, &d, NodeId(3));
    assert_eq!(plan.node_edits.len(), 2);
    assert!(matches!(&plan.node_edits[0], NodeEdit::Insert { parent: Target::Node(n), before: Some(b), .. } if *n == NodeId(3) && *b == NodeId(4)));
    assert!(matches!(&plan.node_edits[1], NodeEdit::Insert { parent: Target::New(0), node, .. } if node.name == QName::w(LocalName::RPrChange)));
    let mut plan = MutationPlan::new(PartId(0));
    t.snapshot_run_props(&mut plan, &d, NodeId(6));
    assert!(matches!(&plan.node_edits[0], NodeEdit::Insert { parent: Target::Node(n), .. } if *n == NodeId(7)));
    let _ = NsId::W;
}

fn first_named(d: &Dom, l: LocalName) -> NodeId {
    d.descendants(d.root()).into_iter().find(|&n| d.name(n) == Some(QName::w(l))).unwrap()
}

fn bad_position<T: std::fmt::Debug>(r: Result<T, Error>) -> bool {
    matches!(r, Err(Error::Edit { code: DiagCode::EditBadPosition, .. }))
}

#[test]
fn block_sites_follow_the_anchor() {
    let d = dom("<w:p/><w:tbl/><w:sectPr/>");
    let body = first_named(&d, LocalName::Body);
    let (p, tbl, sect) = (first_named(&d, LocalName::P), first_named(&d, LocalName::Tbl), first_named(&d, LocalName::SectPr));
    assert_eq!(MutationPlan::block_site(&d, BlockAt::Start(body)).unwrap(), (body, Some(p)));
    assert_eq!(MutationPlan::block_site(&d, BlockAt::Before(tbl)).unwrap(), (body, Some(tbl)));
    assert_eq!(MutationPlan::block_site(&d, BlockAt::After(p)).unwrap(), (body, Some(tbl)));
    assert_eq!(MutationPlan::block_site(&d, BlockAt::After(sect)).unwrap(), (body, None));
    assert_eq!(MutationPlan::block_site(&d, BlockAt::End(body)).unwrap(), (body, Some(sect)));
    assert_eq!(MutationPlan::block_site(&d, BlockAt::End(p)).unwrap(), (p, None));
    assert!(bad_position(MutationPlan::block_site(&d, BlockAt::Start(NodeId(999)))));
    assert!(bad_position(MutationPlan::block_site(&d, BlockAt::Before(d.root()))));
}

#[test]
fn property_sites_and_paragraph_checks() {
    let d = dom("<w:tbl><w:tr><w:tblPrEx/><w:tc><w:p/></w:tc></w:tr></w:tbl>");
    let (tr, tc, p) = (first_named(&d, LocalName::Tr), first_named(&d, LocalName::Tc), first_named(&d, LocalName::P));
    assert_eq!(MutationPlan::props_site(&d, tr, LocalName::TrPr), (None, Some(tc)));
    assert_eq!(MutationPlan::props_site(&d, tc, LocalName::TcPr), (None, Some(p)));
    let d2 = dom("<w:tbl><w:tr><w:tblPrEx/><w:trPr/><w:tc><w:p/></w:tc></w:tr></w:tbl>");
    let tr2 = first_named(&d2, LocalName::Tr);
    let tr_pr = first_named(&d2, LocalName::TrPr);
    assert_eq!(MutationPlan::props_site(&d2, tr2, LocalName::TrPr), (Some(tr_pr), Some(tr_pr)));
    assert!(MutationPlan::require_paragraph(&d, p).is_ok());
    assert!(bad_position(MutationPlan::require_paragraph(&d, tc)));
    match MutationPlan::require_paragraph(&d, NodeId(999)) {
        Err(Error::Edit { message, .. }) => assert_eq!(message, "节点 999 不是活的 w:p"),
        other => panic!("unexpected {other:?}"),
    }
}

#[test]
fn next_revision_id_stays_above_every_revision() {
    assert_eq!(MutationPlan::next_revision_id(&dom("<w:p/>")), 1);
    let d = dom(r#"<w:p><w:ins w:id=" 7 "/><w:del w:id="x"/><w:moveFromRangeStart w:id="12"/><w:trPrChange w:id="40"/><w:bookmarkStart w:id="90"/></w:p>"#);
    assert_eq!(MutationPlan::next_revision_id(&d), 13);
}

#[test]
fn next_drawing_id_scans_every_doc_pr() {
    let wp = "http://schemas.openxmlformats.org/drawingml/2006/wordprocessingDrawing";
    let doc = |body: &str| {
        format!(r#"<w:document xmlns:w="{W}" xmlns:wp="{wp}"><w:body>{body}</w:body></w:document>"#)
    };
    let d = Dom::parse(PartId(0), doc(r#"<w:p><wp:docPr id=" 9 "/><wp:docPr id="4"/></w:p>"#).as_bytes()).unwrap();
    assert_eq!(EditSession::media_ops_next_doc_pr_id(&d), 10);
    let e = Dom::parse(PartId(0), doc(r#"<w:p><wp:docPr id="-3"/></w:p>"#).as_bytes()).unwrap();
    assert_eq!(EditSession::media_ops_next_doc_pr_id(&e), 1);
}

#[test]
fn tracked_insertion_sites() {
    let d = dom(r#"<w:p><w:ins w:id="1" w:author="Bob"><w:r><w:t>a</w:t></w:r><w:r><w:t>b</w:t></w:r></w:ins></w:p><w:p><w:ins w:id="2" w:author="Ann"><w:r/></w:ins><w:del w:id="3" w:author="Ann"><w:r/></w:del></w:p>"#);
    let all: Vec<NodeId> = d.descendants(d.root());
    let named = |l: LocalName| -> Vec<NodeId> { all.iter().copied().filter(|&n| d.name(n) == Some(QName::w(l))).collect() };
    let (paras, inss, runs, dels) = (named(LocalName::P), named(LocalName::Ins), named(LocalName::R), named(LocalName::Del));
    let (p, bob) = (paras[0], inss[0]);

    // cut another author's insertion in two
    let mut plan = MutationPlan::new(PartId(0));
    let mut t = tracker();
    let r = plan.plan_ins_site(&d, &mut t, p, bob, Some(runs[1])).unwrap();
    assert_eq!(r, (Target::New(0), None));
    assert_eq!(plan.node_edits.len(), 3);
    match &plan.node_edits[0] {
        NodeEdit::Insert { parent, before, node } => {
            assert_eq!((*parent, *before), (Target::Node(p), None));
            assert_eq!(w_attr(node, LocalName::Id), Some("5"));
            assert_eq!(w_attr(node, LocalName::Author), Some("Ann"));
        }
        other => panic!("unexpected {other:?}"),
    }
    match &plan.node_edits[1] {
        NodeEdit::Insert { node, .. } => {
            assert_eq!(w_attr(node, LocalName::Id), Some("6"));
            assert_eq!(w_attr(node, LocalName::Author), Some("Bob"));
        }
        other => panic!("unexpected {other:?}"),
    }
    assert!(matches!(&plan.node_edits[2], NodeEdit::Move { node, parent: Target::New(1), before: None } if *node == runs[1]));

    // at the start of it: a new insertion in front of it
    let mut plan = MutationPlan::new(PartId(0));
    plan.plan_ins_site(&d, &mut tracker(), p, bob, Some(runs[0])).unwrap();
    assert!(matches!(&plan.node_edits[0], NodeEdit::Insert { parent, before, .. } if *parent == Target::Node(p) && *before == Some(bob)));
    assert_eq!(plan.node_edits.len(), 1);

    // a clean spot: wrap in place
    let mut plan = MutationPlan::new(PartId(0));
    assert_eq!(plan.plan_ins_site(&d, &mut tracker(), p, p, Some(bob)).unwrap(), (Target::New(0), None));

    // own insertion: type straight into it; deleted text: refused
    let mut plan = MutationPlan::new(PartId(0));
    assert_eq!(plan.plan_ins_site(&d, &mut tracker(), paras[1], inss[1], None).unwrap(), (Target::Node(inss[1]), None));
    assert!(plan.node_edits.is_empty());
    let refused = plan.plan_ins_site(&d, &mut tracker(), paras[1], dels[0], None);
    assert!(matches!(refused, Err(rsword::diag::Error::Edit { code: DiagCode::EditInDeleted, .. })));
}

#[test]
fn property_snapshots_are_restored() {
    let d = dom(r#"<w:p><w:pPr><w:spacing w:after="5"/><w:rPr><w:b/></w:rPr><w:pPrChange w:id="1" w:author="A"><w:pPr><w:b/></w:pPr></w:pPrChange></w:pPr></w:p>"#);
    let all: Vec<NodeId> = d.descendants(d.root());
    let named = |l: LocalName| -> Vec<NodeId> { all.iter().copied().filter(|&n| d.name(n) == Some(QName::w(l))).collect() };
    let (ppr, change) = (named(LocalName::PPr)[0], named(LocalName::PPrChange)[0]);
    let spacing = d.live_children(ppr)[0];
    let inner_b = named(LocalName::B)[1];
    let order = [QName::w(LocalName::B), QName::w(LocalName::Unknown), QName::w(LocalName::RPr)];
    let mut plan = MutationPlan::new(PartId(0));
    plan.restore(&d, ppr, change, LocalName::PPr, RevisionKeep::Paragraph, Some(&order));
    assert_eq!(plan.node_edits.len(), 3);
    assert!(matches!(&plan.node_edits[0], NodeEdit::Delete(n) if *n == spacing));
    assert!(matches!(&plan.node_edits[1], NodeEdit::InsertClone { parent, before, source }
        if *parent == Target::Node(ppr) && *before == Some(spacing) && *source == inner_b));
    assert!(matches!(&plan.node_edits[2], NodeEdit::Delete(n) if *n == change));

    let d = dom(r#"<w:p><w:r><w:rPr><w:b/><w:rPrChange w:id="2" w:author="A"><w:rPr/></w:rPrChange></w:rPr></w:r></w:p>"#);
    let all: Vec<NodeId> = d.descendants(d.root());
    let rpr = all.iter().copied().find(|&n| d.name(n) == Some(QName::w(LocalName::RPr))).unwrap();
    let change = all.iter().copied().find(|&n| d.name(n) == Some(QName::w(LocalName::RPrChange))).unwrap();
    let mut plan = MutationPlan::new(PartId(0));
    plan.restore(&d, rpr, change, LocalName::RPr, RevisionKeep::Nothing, None);
    assert_eq!(plan.node_edits.len(), 3);
    assert!(matches!(&plan.node_edits[2], NodeEdit::Delete(n) if *n == rpr));
}
