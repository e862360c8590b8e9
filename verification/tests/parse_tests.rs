use rsword::diag::{DiagCode, Error};
use rsword::dom::Dom;
use rsword::ids::PartId;
use rsword::package::{Package, RelTarget, RelType};
use rsword::session::EditSession;
use rsword::xml::{LocalName, NsId};

const W: &str = "http://schemas.openxmlformats.org/wordprocessingml/2006/main";

fn is_xml_error<T>(r: &Result<T, Error>) -> bool {
    matches!(r, Err(Error::Edit { code: DiagCode::XmlNotWellFormed, .. }))
}

#[test]
fn parse_builds_every_node_in_document_order() {
    let dom = Dom::parse(PartId(3), b"<?xml version=\"1.0\"?><a x=\"1\"><b/>hi &amp; bye<![CDATA[<c>]]><!--k--><?p q?><p><t/></p></a>").unwrap();
    assert_eq!(dom.node_count(), 6);
    let root = dom.root();
    assert_eq!(root.0, 0);
    assert_eq!(dom.parent(root), None);
    let kids = dom.children(root).clone();
    assert_eq!(kids.len(), 4);
    assert_eq!(dom.name(kids[0]).unwrap().local, LocalName::B);
    assert_eq!(dom.text_of(kids[1]).unwrap().as_str(), "hi & bye");
    assert_eq!(dom.text_of(kids[2]).unwrap().as_str(), "<c>");
    assert_eq!(dom.name(kids[3]).unwrap().local, LocalName::P);
    let inner = dom.children(kids[3]).clone();
    assert_eq!(inner.len(), 1);
    assert_eq!(dom.parent(inner[0]), Some(kids[3]));
    assert_eq!(dom.name(inner[0]).unwrap().local, LocalName::T);
    assert_eq!(dom.element(root).unwrap().attrs.len(), 1);
}

#[test]
fn parse_resolves_namespaces_per_element() {
    let xml = format!(r#"<w:document xmlns:w="{W}"><w:body/></w:document>"#);
    let dom = Dom::parse(PartId(0), xml.as_bytes()).unwrap();
    let root = dom.root();
    assert_eq!(dom.name(root).unwrap().ns, NsId::W);
    let body = dom.children(root)[0];
    assert_eq!(dom.name(body).unwrap().ns, NsId::W);
    assert_eq!(dom.name(body).unwrap().local, LocalName::Body);
}

#[test]
fn parse_refuses_what_is_not_well_formed() {
    assert!(is_xml_error(&Dom::parse(PartId(0), b"<a></b>")));
    assert!(is_xml_error(&Dom::parse(PartId(0), b"<a>")));
    assert!(is_xml_error(&Dom::parse(PartId(0), b"<a/><b/>")));
    assert!(is_xml_error(&Dom::parse(PartId(0), b"<p:a/>")));
    assert!(is_xml_error(&Dom::parse(PartId(0), b"<a>&bogus;</a>")));
    assert!(is_xml_error(&Dom::parse(PartId(0), &[0x3c, 0xff, 0x3e])));
    assert!(Dom::parse(PartId(0), b"  <a/>  <!-- tail -->").is_ok());
}

#[test]
fn replace_part_xml_reports_a_text_that_does_not_parse() {
    let xml = format!(r#"<w:document xmlns:w="{W}"><w:body/></w:document>"#);
    let pkg = Package::new("word/document.xml", &xml).unwrap();
    let mut s = EditSession::from_package(pkg).unwrap();
    let r = s.replace_part_xml(PartId(0), "<w:document");
    assert!(is_xml_error(&r));
    let good = format!(r#"<w:document xmlns:w="{W}"><w:body><w:p/></w:body></w:document>"#);
    assert!(s.replace_part_xml(PartId(0), &good).is_ok());
    let dom = s.dom();
    let body = dom.children(dom.root())[0];
    assert_eq!(dom.children(body).len(), 1);
}

#[test]
fn override_without_content_types_part_only_records_a_diagnostic() {
    let xml = format!(r#"<w:document xmlns:w="{W}"><w:body/></w:document>"#);
    let pkg = Package::new("word/document.xml", &xml).unwrap();
    let mut s = EditSession::from_package(pkg).unwrap();
    let parts = s.package().parts.len();
    let before = s.diagnostics().len();
    assert!(s.add_content_type_override("word/x.xml", "application/xml").is_ok());
    assert_eq!(s.package().parts.len(), parts);
    assert_eq!(s.diagnostics().len(), before + 1);
    assert_eq!(s.diagnostics()[before].code, DiagCode::EditUnsupported);
}

#[test]
fn relationship_added_to_an_existing_rels_part_succeeds() {
    let xml = format!(r#"<w:document xmlns:w="{W}"><w:body/></w:document>"#);
    let pkg = Package::new("word/document.xml", &xml).unwrap();
    let mut s = EditSession::from_package(pkg).unwrap();
    let main = s.main_part();
    assert!(s.ensure_rels_part(main).is_ok());
    let id = s.add_relationship(main, RelType::Hyperlink, "https://example.com/", RelTarget::External("https://example.com/".to_string())).unwrap();
    assert_eq!(id.as_str(), "rId1");
    let id2 = s.add_external_relationship(main, RelType::Hyperlink, "https://example.org/").unwrap();
    assert_eq!(id2.as_str(), "rId2");
    assert_eq!(s.package().part(main).rels.len(), 2);
}

#[test]
fn new_parts_are_added_and_related_when_the_main_part_has_a_rels_part() {
    let xml = format!(r#"<w:document xmlns:w="{W}"><w:body/></w:document>"#);
    let pkg = Package::new("word/document.xml", &xml).unwrap();
    let mut s = EditSession::from_package(pkg).unwrap();
    let main = s.main_part();
    s.ensure_rels_part(main).unwrap();
    let parts = s.package().parts.len();
    let (id, rid) = s.add_part(main, RelType::Settings, "word/settings.xml", "application/xml", "<s/>").unwrap();
    assert_eq!(s.package().parts.len(), parts + 1);
    assert_eq!(s.package().part(id).uri.as_str(), "word/settings.xml");
    assert_eq!(rid.as_str(), "rId1");
    let err = s.add_part(main, RelType::Settings, "word/settings.xml", "application/xml", "<s/>");
    assert!(matches!(err, Err(Error::Edit { code: DiagCode::EditPlanInvalid, .. })));
    let bad = s.add_part(main, RelType::Footer, "word/footer9.xml", "application/xml", "<f>");
    assert!(is_xml_error(&bad));
    let (bin, rid2) = s.add_binary_part(main, RelType::Image, "word/media/pic.png", "image/png", vec![9, 9]).unwrap();
    assert_eq!(s.package().part(bin).bytes, vec![9, 9]);
    assert_eq!(rid2.as_str(), "rId2");
}

#[test]
fn the_same_media_added_twice_is_one_part() {
    let xml = format!(r#"<w:document xmlns:w="{W}"><w:body/></w:document>"#);
    let pkg = Package::new("word/document.xml", &xml).unwrap();
    let mut s = EditSession::from_package(pkg).unwrap();
    let main = s.main_part();
    s.ensure_rels_part(main).unwrap();
    let parts = s.package().parts.len();
    let a = s.add_media(vec![1, 2], "image/png").unwrap();
    assert_eq!(s.package().parts.len(), parts + 1);
    let b = s.add_media(vec![1, 2], "image/png").unwrap();
    assert_eq!(a, b);
    assert_eq!(s.package().parts.len(), parts + 1);
    let c = s.add_media(vec![1, 2], "image/jpeg").unwrap();
    assert_ne!(a, c);
    assert!(s.package().find("word/media/image2.jpg").is_some());
}

#[test]
fn ensure_rels_part_twice_gives_the_same_part() {
    let xml = format!(r#"<w:document xmlns:w="{W}"><w:body/></w:document>"#);
    let pkg = Package::new("word/document.xml", &xml).unwrap();
    let mut s = EditSession::from_package(pkg).unwrap();
    let main = s.main_part();
    let p = s.ensure_rels_part(main).unwrap();
    assert_eq!(s.package().part(p).uri.as_str(), "word/_rels/document.xml.rels");
    let dom = s.package().part(p).dom.as_ref().unwrap();
    assert_eq!(dom.node_count(), 1);
    assert_eq!(dom.name(dom.root()).unwrap().local, LocalName::Relationships);
    let parts = s.package().parts.len();
    let q = s.ensure_rels_part(main).unwrap();
    assert_eq!(p, q);
    assert_eq!(s.package().parts.len(), parts);
}
