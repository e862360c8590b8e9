use rsword::diag::DiagCode;
use rsword::dom::Dom;
use rsword::edit::{NodeEdit, Target};
use rsword::ids::{NodeId, PartId};
use rsword::image::image_swap_plan;
use rsword::package::Package;
use rsword::revisions::{max_revision_id, package_max_revision_id, parse_id};
use rsword::sections::{ensure_hf_part, HfKind, HfVariant};
use rsword::session::EditSession;
use rsword::tables::new_table;
use rsword::track::{EditContext, RevisionAuthor, Tracker};
use rsword::twin::{sites, sync, TwinSite};
use rsword::xml::{LocalName, NewElement, NewNode, NsId, QName};

const W: &str = "http://schemas.openxmlformats.org/wordprocessingml/2006/main";
const A: &str = "http://schemas.openxmlformats.org/drawingml/2006/main";
const R: &str = "http://schemas.openxmlformats.org/officeDocument/2006/relationships";
const MC: &str = "http://schemas.openxmlformats.org/markup-compatibility/2006";

fn document(body: &str) -> String {
    format!(
        r#"<w:document xmlns:w="{W}" xmlns:a="{A}" xmlns:r="{R}" xmlns:mc="{MC}"><w:body>{body}</w:body></w:document>"#
    )
}

fn session(body: &str) -> EditSession {
    let pkg = Package::new("word/document.xml", &document(body)).unwrap();
    EditSession::from_package(pkg).unwrap()
}

fn element(n: &NewNode) -> &NewElement {
    match n {
        NewNode::Element(e) => e,
        NewNode::Text(_) => panic!("expected an element"),
    }
}

fn attr<'a>(e: &'a NewElement, q: QName) -> Option<&'a str> {
    e.attrs.iter().find(|(n, _)| *n == q).map(|(_, v)| v.as_str())
}

fn tracking() -> EditContext {
    EditContext {
        track_changes: Some(RevisionAuthor { author: "Ann".to_string(), date: None }),
        ..Default::default()
    }
}

const PICTURE: &str = r#"<w:p><w:r><w:drawing><a:graphic><a:blip r:link="rIdOld"><a:extLst><a:ext uri="svg"><a:svgBlip/></a:ext><a:ext uri="other"/></a:extLst></a:blip><a:srcRect l="1"/><a:fillRect l="5" t="6"/></a:graphic></w:drawing></w:r></w:p>"#;

#[test]
fn new_table_default_widths_share_the_body_width() {
    let t = new_table(2, 3, None, None, false);
    assert_eq!(t.name, QName::w(LocalName::Tbl));
    assert_eq!(t.children.len(), 4);
    let tbl_pr = element(&t.children[0]);
    assert_eq!(tbl_pr.children.len(), 2);
    let tbl_w = element(&tbl_pr.children[0]);
    assert_eq!(attr(tbl_w, QName::w(LocalName::W)), Some("0"));
    assert_eq!(attr(tbl_w, QName::w(LocalName::Type)), Some("auto"));
    let look = element(&tbl_pr.children[1]);
    assert_eq!(attr(look, QName::w(LocalName::Val)), Some("04A0"));
    assert_eq!(attr(look, QName::w(LocalName::NoVBand)), Some("1"));
    let grid = element(&t.children[1]);
    assert_eq!(grid.children.len(), 3);
    for c in &grid.children {
        assert_eq!(attr(element(c), QName::w(LocalName::W)), Some("3120"));
    }
    for r in &t.children[2..] {
        let tr = element(r);
        assert_eq!(tr.children.len(), 3);
        let tc = element(&tr.children[0]);
        let tc_w = element(&element(&tc.children[0]).children[0]);
        assert_eq!(attr(tc_w, QName::w(LocalName::W)), Some("3120"));
        assert_eq!(attr(tc_w, QName::w(LocalName::Type)), Some("dxa"));
        assert_eq!(element(&tc.children[1]).name, QName::w(LocalName::P));
    }
}

#[test]
fn new_table_given_widths_style_and_header_row() {
    let t = new_table(0, 2, Some(vec![100, -5]), Some("Grid".to_string()), true);
    assert_eq!(t.children.len(), 3);
    let tbl_pr = element(&t.children[0]);
    assert_eq!(tbl_pr.children.len(), 3);
    assert_eq!(attr(element(&tbl_pr.children[0]), QName::w(LocalName::Val)), Some("Grid"));
    let grid = element(&t.children[1]);
    assert_eq!(attr(element(&grid.children[0]), QName::w(LocalName::W)), Some("100"));
    assert_eq!(attr(element(&grid.children[1]), QName::w(LocalName::W)), Some("1"));
    let tr = element(&t.children[2]);
    assert_eq!(tr.children.len(), 3);
    let tr_pr = element(&tr.children[0]);
    assert_eq!(tr_pr.name, QName::w(LocalName::TrPr));
    assert_eq!(element(&tr_pr.children[0]).name, QName::w(LocalName::TblHeader));
}

#[test]
fn new_table_widths_of_the_wrong_count_are_ignored_and_zero_columns_mean_one() {
    let t = new_table(1, 0, Some(vec![1, 2, 3]), None, false);
    let grid = element(&t.children[1]);
    assert_eq!(grid.children.len(), 1);
    assert_eq!(attr(element(&grid.children[0]), QName::w(LocalName::W)), Some("9360"));
    let many = new_table(1, 10000, None, None, false);
    assert_eq!(attr(element(&element(&many.children[1]).children[0]), QName::w(LocalName::W)), Some("1"));
}

#[test]
fn descendants_are_in_document_order_and_skip_deleted_subtrees() {
    let xml = document("<w:p><w:r><w:t>a</w:t></w:r><w:r/></w:p>");
    let mut dom = Dom::parse(PartId(0), xml.as_bytes()).unwrap();
    let ids: Vec<u32> = dom.descendants(NodeId(1)).iter().map(|n| n.0).collect();
    assert_eq!(ids, vec![2, 3, 4, 5, 6]);
    dom.delete(NodeId(3));
    let ids: Vec<u32> = dom.descendants(NodeId(1)).iter().map(|n| n.0).collect();
    assert_eq!(ids, vec![2, 6]);
    assert_eq!(dom.closest_named(NodeId(5), QName::w(LocalName::P)), Some(NodeId(2)));
    assert_eq!(dom.closest_named(NodeId(2), QName::w(LocalName::P)), Some(NodeId(2)));
    assert_eq!(dom.closest_named(NodeId(5), QName::w(LocalName::Tbl)), None);
    let chain: Vec<u32> = dom.self_and_ancestors(NodeId(5)).iter().map(|n| n.0).collect();
    assert_eq!(chain, vec![5, 4, 3, 2, 1, 0]);
}

#[test]
fn revision_ids_parse_and_their_maximum_is_found() {
    assert_eq!(parse_id("12"), Some(12));
    assert_eq!(parse_id("4294967295"), Some(u32::MAX));
    assert_eq!(parse_id("4294967296"), None);
    assert_eq!(parse_id(""), None);
    assert_eq!(parse_id("1a"), None);
    let xml = document(r#"<w:p w:id="100"><w:ins w:id="5" w:author="x"><w:r/></w:ins><w:del w:id="9" w:author="x"><w:r/></w:del><w:ins w:id="x1"/></w:p>"#);
    let dom = Dom::parse(PartId(0), xml.as_bytes()).unwrap();
    assert_eq!(max_revision_id(&dom), Some(9));
    let s = session("<w:p/>");
    assert_eq!(package_max_revision_id(s.package()), None);
}

#[test]
fn tracker_numbers_revisions_after_the_largest_id() {
    let mut t = Tracker::new(Some(9), &tracking()).unwrap();
    let m = t.marker(LocalName::Ins);
    assert_eq!(m.name, QName::w(LocalName::Ins));
    assert_eq!(attr(&m, QName::w(LocalName::Id)), Some("10"));
    assert_eq!(attr(&m, QName::w(LocalName::Author)), Some("Ann"));
    let m2 = t.marker(LocalName::Del);
    assert_eq!(attr(&m2, QName::w(LocalName::Id)), Some("11"));
    assert!(Tracker::new(Some(9), &EditContext::default()).is_none());
}

#[test]
fn image_swap_plan_points_the_blip_at_the_new_media_and_drops_stale_windows() {
    let xml = document(PICTURE);
    let dom = Dom::parse(PartId(0), xml.as_bytes()).unwrap();
    let (drawing, blip) = (NodeId(4), NodeId(6));
    assert!(dom.is(drawing, QName::w(LocalName::Drawing)));
    assert!(dom.is(blip, QName::new(NsId::A, LocalName::Blip)));
    let plan = image_swap_plan(&dom, PartId(0), drawing, blip, "rId9".to_string());
    let e = &plan.node_edits;
    assert_eq!(e.len(), 6);
    assert!(matches!(&e[0], NodeEdit::SetAttr { node: Target::Node(n), name, value }
        if *n == blip && *name == QName::new(NsId::R, LocalName::Embed) && value == "rId9"));
    assert!(matches!(&e[1], NodeEdit::RemoveAttr { node: Target::Node(n), name }
        if *n == blip && *name == QName::new(NsId::R, LocalName::Link)));
    assert!(matches!(&e[2], NodeEdit::Delete(n) if *n == NodeId(11)));
    assert!(matches!(&e[3], NodeEdit::RemoveAttr { node: Target::Node(n), name }
        if *n == NodeId(12) && *name == QName::new(NsId::NoNamespace, LocalName::L)));
    assert!(matches!(&e[4], NodeEdit::RemoveAttr { node: Target::Node(n), name }
        if *n == NodeId(12) && *name == QName::new(NsId::NoNamespace, LocalName::T)));
    assert!(matches!(&e[5], NodeEdit::Delete(n) if *n == NodeId(8)));
    assert_eq!(plan.affected_blocks, vec![NodeId(2)]);
}

#[test]
fn image_swap_plan_deletes_an_extension_list_left_empty() {
    let xml = document(r#"<w:p><w:r><w:drawing><a:blip><a:extLst><a:ext><a:svgBlip/></a:ext></a:extLst></a:blip></w:drawing></w:r></w:p>"#);
    let dom = Dom::parse(PartId(0), xml.as_bytes()).unwrap();
    let plan = image_swap_plan(&dom, PartId(0), NodeId(4), NodeId(5), "rId1".to_string());
    let e = &plan.node_edits;
    assert_eq!(e.len(), 3);
    assert!(matches!(&e[1], NodeEdit::Delete(n) if *n == NodeId(7)));
    assert!(matches!(&e[2], NodeEdit::Delete(n) if *n == NodeId(6)));
}

#[test]
fn replace_image_media_embeds_a_new_media_part() {
    let mut s = session(PICTURE);
    let r = s.replace_image_media(NodeId(4), vec![1, 2, 3], "image/png", &EditContext::default()).unwrap();
    assert_eq!(r.affected_blocks, vec![NodeId(2)]);
    let media = s.package().find("word/media/image1.png").expect("media part");
    assert_eq!(s.package().part(media).bytes, vec![1, 2, 3]);
    let rid = s.dom().attr(NodeId(6), QName::new(NsId::R, LocalName::Embed)).cloned().expect("r:embed");
    assert_eq!(rid, "rId1");
    assert!(s.dom().attr(NodeId(6), QName::new(NsId::R, LocalName::Link)).is_none());
    assert!(!s.dom().is_live(NodeId(11)));
}

#[test]
fn replace_image_media_without_blip_changes_nothing_and_reports() {
    let mut s = session("<w:p><w:r><w:drawing/></w:r></w:p>");
    let r = s.replace_image_media(NodeId(4), vec![1], "image/png", &EditContext::default()).unwrap();
    assert!(r.created.is_empty());
    assert_eq!(s.package().parts.len(), 1);
    let d = s.diagnostics().last().expect("diagnostic");
    assert_eq!(d.code, DiagCode::EditUnsupported);
}

#[test]
fn replace_image_media_refuses_bad_positions() {
    let mut s = session(PICTURE);
    let err = s.replace_image_media(NodeId(999), vec![1], "image/png", &EditContext::default()).unwrap_err();
    assert_eq!(err.code(), DiagCode::EditBadPosition);
    let err = s.replace_image_media(NodeId(1), vec![1], "image/png", &tracking()).unwrap_err();
    assert_eq!(err.code(), DiagCode::EditBadPosition);
    assert_eq!(s.package().parts.len(), 1);
}

#[test]
fn replace_image_media_tracked_keeps_the_old_run_deleted_and_inserts_a_copy() {
    let mut s = session(PICTURE);
    s.replace_image_media(NodeId(4), vec![7], "image/png", &tracking()).unwrap();
    let dom = s.dom();
    let run = NodeId(3);
    let del = dom.parent(run).expect("wrapped");
    assert!(dom.is(del, QName::w(LocalName::Del)));
    let ins = dom.next_live_element_sibling(del).expect("insertion");
    assert!(dom.is(ins, QName::w(LocalName::Ins)));
    assert_eq!(dom.attr(ins, QName::w(LocalName::Id)).map(|v| v.as_str()), Some("1"));
    assert_eq!(dom.attr(del, QName::w(LocalName::Id)).map(|v| v.as_str()), Some("2"));
    let copy = dom.live_children(ins)[0];
    let blip = dom.descendants(copy).into_iter().find(|&n| dom.is(n, QName::new(NsId::A, LocalName::Blip))).unwrap();
    assert!(dom.attr(blip, QName::new(NsId::R, LocalName::Embed)).is_some());
    assert!(dom.attr(NodeId(6), QName::new(NsId::R, LocalName::Embed)).is_none());
}

const TWIN: &str = r#"<w:p><w:r><mc:AlternateContent><mc:Choice Requires="wps"><w:txbxContent><w:p><w:r><w:t>new</w:t></w:r></w:p></w:txbxContent></mc:Choice><mc:Fallback><w:txbxContent><w:p><w:r><w:t>old</w:t></w:r></w:p></w:txbxContent></mc:Fallback></mc:AlternateContent></w:r></w:p>"#;

#[test]
fn sites_find_the_twin_of_an_edit_in_a_text_box_once() {
    let s = session(TWIN);
    let found = sites(&s, &vec![(None, NodeId(7)), (None, NodeId(9))]).unwrap();
    assert_eq!(found, vec![TwinSite { part: None, ac: NodeId(4), idx: 0 }]);
    let around = sites(&s, &vec![(None, NodeId(2))]).unwrap();
    assert_eq!(around, vec![TwinSite { part: None, ac: NodeId(4), idx: 0 }]);
    assert!(sites(&s, &vec![(None, NodeId(999))]).unwrap().is_empty());
    let err = sites(&s, &vec![(None, NodeId(13))]).unwrap_err();
    assert_eq!(err.code(), DiagCode::EditTargetFallback);
}

#[test]
fn sync_makes_the_fallback_a_copy_of_the_choice() {
    let mut s = session(TWIN);
    let site = TwinSite { part: None, ac: NodeId(4), idx: 0 };
    let r = sync(&mut s, &vec![site]).unwrap();
    assert_eq!(r.affected_blocks, vec![NodeId(2)]);
    let dom = s.dom();
    assert!(!dom.is_live(NodeId(13)));
    let kids = dom.live_children(NodeId(12));
    assert_eq!(kids.len(), 1);
    let texts: Vec<String> = dom.descendants(kids[0]).into_iter().filter_map(|n| dom.text_of(n).cloned()).collect();
    assert_eq!(texts, vec!["new".to_string()]);
    let none = sync(&mut s, &vec![TwinSite { part: None, ac: NodeId(4), idx: 3 }]).unwrap();
    assert!(none.created.is_empty());
}

#[test]
fn ensure_hf_part_creates_a_header_once_and_then_reuses_it() {
    let mut s = session("<w:p/><w:sectPr><w:pgSz/></w:sectPr>");
    let sect = NodeId(3);
    let part = ensure_hf_part(&mut s, sect, HfKind::Header, HfVariant::Default).unwrap();
    assert_eq!(s.package().part(part).uri, "word/header1.xml");
    let dom = s.dom();
    let first = dom.live_element_children(sect)[0];
    assert!(dom.is(first, QName::w(LocalName::HeaderReference)));
    assert_eq!(dom.attr(first, QName::w(LocalName::Type)).map(|v| v.as_str()), Some("default"));
    let rid = dom.attr(first, QName::new(NsId::R, LocalName::Id)).cloned().unwrap();
    assert_eq!(s.relationship_id(s.main_part(), part), Some(rid));
    let again = ensure_hf_part(&mut s, sect, HfKind::Header, HfVariant::Default).unwrap();
    assert_eq!(again, part);
    let first_page = ensure_hf_part(&mut s, sect, HfKind::Header, HfVariant::First).unwrap();
    assert_ne!(first_page, part);
    assert_eq!(s.package().part(first_page).uri, "word/header2.xml");
    let footer = ensure_hf_part(&mut s, sect, HfKind::Footer, HfVariant::Even).unwrap();
    assert_eq!(s.package().part(footer).uri, "word/footer1.xml");
}

#[test]
fn tracked_replace_image_media_deletes_the_old_run_and_inserts_a_copy() {
    let mut s = session(PICTURE);
    s.replace_image_media(NodeId(4), vec![7, 8], "image/png", &tracking()).unwrap();
    let dom = s.dom();
    let para = NodeId(2);
    let kids: Vec<NodeId> = dom.children(para).iter().copied().filter(|&k| dom.is_live(k)).collect();
    assert_eq!(kids.len(), 2);
    assert_eq!(dom.name(kids[0]), Some(QName::w(LocalName::Del)));
    assert_eq!(dom.name(kids[1]), Some(QName::w(LocalName::Ins)));
    let old_run = dom.children(kids[0])[0];
    assert_eq!(old_run, NodeId(3));
    assert_eq!(dom.attr(NodeId(6), QName::new(NsId::R, LocalName::Link)).map(|v| v.as_str()), Some("rIdOld"));
    let copy = dom.children(kids[1])[0];
    assert_eq!(dom.name(copy), Some(QName::w(LocalName::R)));
}

#[test]
fn replacing_with_the_same_bytes_twice_reuses_the_media_part() {
    let mut s = session(PICTURE);
    s.replace_image_media(NodeId(4), vec![1, 2, 3], "image/png", &EditContext::default()).unwrap();
    let parts = s.package().parts.len();
    s.replace_image_media(NodeId(4), vec![1, 2, 3], "image/png", &EditContext::default()).unwrap();
    assert_eq!(s.package().parts.len(), parts);
    let rid = s.dom().attr(NodeId(6), QName::new(NsId::R, LocalName::Embed)).cloned().expect("r:embed");
    assert_eq!(rid, "rId1");
}
