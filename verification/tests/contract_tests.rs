use rsword::diag::{DiagCode, Error};
use rsword::dom::Dom;
use rsword::edit::{NodeEdit, Target};
use rsword::emit::{Emitter, NewInline, NewRevision, NewRun};
use rsword::ids::PartId;
use rsword::package::{Package, RelType};
use rsword::ops::EditOp;
use rsword::plan::MutationPlan;
use rsword::track::EditContext;
use rsword::position::Utf16Offset;
use rsword::utf16::Utf16TextOffset;
use rsword::session::EditSession;
use rsword::xml::{LocalName, NewElement, NewNode, NsId, QName};

const W: &str = "http://schemas.openxmlformats.org/wordprocessingml/2006/main";

fn session(body: &str) -> EditSession {
    let xml = format!(r#"<w:document xmlns:w="{W}"><w:body>{body}</w:body></w:document>"#);
    let pkg = Package::new("word/document.xml", &xml).unwrap();
    EditSession::from_package(pkg).unwrap()
}

fn element(n: &NewNode) -> &NewElement {
    match n {
        NewNode::Element(e) => e,
        NewNode::Text(_) => panic!("expected an element"),
    }
}

fn is_edit(r: &Result<(), Error>, code: DiagCode) -> bool {
    matches!(r, Err(Error::Edit { code: c, .. }) if *c == code)
}

#[test]
fn validate_refuses_deleting_a_node_that_is_already_deleted() {
    let mut dom = Dom::parse(PartId(0), b"<root><a/><b/></root>").unwrap();
    let a = dom.children(dom.root())[0];
    let mut plan = MutationPlan::new(PartId(0));
    plan.push(NodeEdit::Delete(a));
    assert!(plan.validate(&dom).is_ok());
    plan.commit(&mut dom);
    let mut again = MutationPlan::new(PartId(0));
    again.push(NodeEdit::Delete(a));
    assert!(is_edit(&again.validate(&dom), DiagCode::EditPlanInvalid));
}

#[test]
fn commit_writes_each_edit_of_the_plan() {
    let mut dom = Dom::parse(PartId(0), b"<root><a x=\"1\"/>t</root>").unwrap();
    let a = dom.children(dom.root())[0];
    let t = dom.children(dom.root())[1];
    let x = QName::new(NsId::NoNamespace, LocalName::UId);
    let mut plan = MutationPlan::new(PartId(0));
    plan.push(NodeEdit::SetAttr { node: Target::Node(a), name: x, value: "2".to_string() });
    plan.push(NodeEdit::SetText { node: t, text: "u".to_string() });
    plan.push(NodeEdit::Insert { parent: Target::Node(a), before: None, node: NewElement::new(QName::w(LocalName::P)) });
    assert!(plan.validate(&dom).is_ok());
    let res = plan.commit(&mut dom);
    assert_eq!(res.created.len(), 3);
    assert!(res.created[0].is_none() && res.created[1].is_none());
    let n = res.created[2].unwrap();
    assert_eq!(dom.attr(a, x).map(|v| v.to_string()), Some("2".to_string()));
    assert_eq!(dom.text_of(t).map(|v| v.to_string()), Some("u".to_string()));
    assert_eq!(dom.parent(n), Some(a));
    assert!(dom.is(n, QName::w(LocalName::P)));
}

#[test]
fn parse_gives_a_root_without_parent_and_refuses_bad_utf8() {
    let dom = Dom::parse(PartId(3), b"<?xml version=\"1.0\"?><!-- c --><r a=\"v\"/>").unwrap();
    assert_eq!(dom.parent(dom.root()), None);
    assert!(dom.element(dom.root()).is_some());
    let bad = Dom::parse(PartId(0), &[b'<', 0xFF, b'/', b'>']);
    assert!(matches!(bad, Err(Error::Edit { code: DiagCode::XmlNotWellFormed, .. })));
}

#[test]
fn ins_wrapper_carries_a_counted_id_and_the_author() {
    let mut e = Emitter::new(5);
    let mut out = Vec::new();
    let i = NewInline::Ins {
        rev: NewRevision { id: None, author: "A".to_string(), date: None },
        inlines: vec![NewInline::Run(NewRun::text("x"))],
    };
    e.emit(&i, false, &mut out);
    assert_eq!(e.next_revision_id, 6);
    assert_eq!(out.len(), 1);
    assert_eq!(out[0].name, QName::w(LocalName::Ins));
    assert_eq!(out[0].attrs, vec![(QName::w(LocalName::Id), "5".to_string()), (QName::w(LocalName::Author), "A".to_string())]);
    let run = element(&out[0].children[0]);
    assert_eq!(run.name, QName::w(LocalName::R));
    let t = element(&run.children[0]);
    assert_eq!(t.name, QName::w(LocalName::T));
    assert_eq!(t.children, vec![NewNode::Text("x".to_string())]);
}

#[test]
fn del_wrapper_keeps_a_given_id_and_writes_deleted_text_split_at_tabs() {
    let mut e = Emitter::new(7);
    let mut out = Vec::new();
    let i = NewInline::Del {
        rev: NewRevision { id: Some("42".to_string()), author: "B".to_string(), date: Some("D".to_string()) },
        inlines: vec![NewInline::Run(NewRun::text("x\ty"))],
    };
    e.emit(&i, false, &mut out);
    assert_eq!(e.next_revision_id, 7);
    assert_eq!(out[0].name, QName::w(LocalName::Del));
    assert_eq!(
        out[0].attrs,
        vec![
            (QName::w(LocalName::Id), "42".to_string()),
            (QName::w(LocalName::Author), "B".to_string()),
            (QName::w(LocalName::Date), "D".to_string()),
        ]
    );
    let run = element(&out[0].children[0]);
    let names: Vec<QName> = run.children.iter().map(|c| element(c).name).collect();
    assert_eq!(names, vec![QName::w(LocalName::DelText), QName::w(LocalName::Tab), QName::w(LocalName::DelText)]);
    assert_eq!(element(&run.children[0]).children, vec![NewNode::Text("x".to_string())]);
    assert_eq!(element(&run.children[2]).children, vec![NewNode::Text("y".to_string())]);
}

#[test]
fn external_relationship_needs_an_existing_rels_part() {
    let mut s = session("<w:p/>");
    let main = s.main_part();
    let before = s.package().part(main).rels.len();
    let r = s.add_external_relationship(main, RelType::Hyperlink, "https://example.com/");
    assert!(matches!(r, Err(Error::Edit { code: DiagCode::EditUnsupported, .. })));
    assert_eq!(s.package().part(main).rels.len(), before);
    assert!(s.package().part(main).rels_part.is_none());
}

#[test]
fn relationship_ids_are_fresh_and_the_rels_tree_gains_the_element() {
    let mut s = session("<w:p/>");
    let main = s.main_part();
    s.ensure_rels_part(main).unwrap();
    let a = s.add_external_relationship(main, RelType::Hyperlink, "https://a/").unwrap();
    let b = s.add_external_relationship(main, RelType::Hyperlink, "https://b/").unwrap();
    assert_eq!(a, "rId1");
    assert_eq!(b, "rId2");
    let rels_part = s.package().part(main).rels_part.unwrap();
    let dom = s.package().dom(rels_part).unwrap();
    let kids = dom.children(dom.root());
    assert_eq!(kids.len(), 2);
    let last = kids[1];
    assert_eq!(dom.attr(last, QName::new(NsId::NoNamespace, LocalName::UId)).map(|v| v.to_string()), Some("rId2".to_string()));
    assert_eq!(dom.attr(last, QName::new(NsId::NoNamespace, LocalName::Target)).map(|v| v.to_string()), Some("https://b/".to_string()));
    assert_eq!(
        dom.attr(last, QName::new(NsId::NoNamespace, LocalName::TargetMode)).map(|v| v.to_string()),
        Some("External".to_string())
    );
}

#[test]
fn equal_media_share_one_part_unless_dedup_is_off() {
    let mut s = session("<w:p/>");
    let a = s.add_media(vec![1, 2, 3], "image/png").unwrap();
    let parts = s.package().parts.len();
    let b = s.add_media(vec![1, 2, 3], "image/png").unwrap();
    assert_eq!(a, b);
    assert_eq!(s.package().parts.len(), parts);
    let c = s.add_media(vec![1, 2, 4], "image/png").unwrap();
    assert_ne!(a, c);
    let d = s.add_media_with(vec![1, 2, 3], "image/png", false).unwrap();
    assert_ne!(a, d);
    let main = s.main_part();
    let uris: Vec<String> = s.package().parts.iter().map(|p| p.uri.clone()).collect();
    assert!(uris.contains(&"word/media/image1.png".to_string()));
    assert!(uris.contains(&"word/media/image2.png".to_string()));
    assert!(uris.contains(&"word/media/image3.png".to_string()));
    assert_eq!(s.package().part(main).rels.len(), 3);
}

#[test]
fn utf16_offsets_convert_to_byte_offsets_through_try_from() {
    let text = "a\u{1F600}b";
    let at = |n: u32| usize::try_from(Utf16TextOffset { text, offset: Utf16Offset(n) });
    assert_eq!(at(1).unwrap(), 1);
    assert_eq!(at(3).unwrap(), 5);
    assert!(matches!(at(2), Err(Error::Edit { code: DiagCode::EditSplitSurrogate, .. })));
    assert!(matches!(at(9), Err(Error::Edit { code: DiagCode::EditBadPosition, .. })));
}

#[test]
fn a_second_comments_part_request_returns_the_first() {
    let mut s = session("<w:p/>");
    let main = s.main_part();
    s.ensure_rels_part(main).unwrap();
    let p = s.ensure_comments_part().unwrap();
    assert_eq!(s.document().comments_part, Some(p));
    let parts = s.package().parts.len();
    let q = s.ensure_comments_part().unwrap();
    assert_eq!(p, q);
    assert_eq!(s.package().parts.len(), parts);
}

#[test]
fn a_missing_part_is_refused_without_change() {
    let mut s = session("<w:p/>");
    let parts = s.package().parts.len();
    let r = s.replace_part_xml(PartId(9), "<x/>");
    assert!(is_edit(&r, DiagCode::EditTargetMissing));
    let r = s.replace_part_xml(PartId(0), "<x");
    assert!(is_edit(&r, DiagCode::XmlNotWellFormed));
    assert_eq!(s.package().parts.len(), parts);
}

#[test]
fn dispatch_runs_the_handler_of_the_operation() {
    let mut s = session("<w:p/>");
    let ctx = EditContext::default();
    s.dispatch(EditOp::SetPageColor { color: Some("FF0000".to_string()) }, &ctx).unwrap();
    let dom = s.package().dom(s.main_part()).unwrap();
    let first = dom.children(dom.root())[0];
    assert!(dom.is(first, QName::w(LocalName::Background)));
    assert_eq!(dom.attr(first, QName::w(LocalName::Color)).map(|v| v.to_string()), Some("FF0000".to_string()));
    let r = s.dispatch(EditOp::ReplacePartBytes { part: PartId(0), bytes: vec![1] }, &ctx);
    assert!(matches!(r, Err(Error::Edit { code: DiagCode::EditUnsupported, .. })));
}
