use rsword::content::{AnchorAxis, AnchorPos, AxisPos, DrawingGeometry, ImageWrap, SrcRect};
use rsword::diag::DiagCode;
use rsword::dom::Dom;
use rsword::drawing::{current_rot, fill_element, parse_i64, position_element, rect_polygon, shell_element, signed_decimal,
    wrap_element, Z_BASE};
use rsword::ids::{NodeId, PartId};
use rsword::package::Package;
use rsword::session::EditSession;
use rsword::xml::{LocalName, NewElement, NewNode, NsId, QName};

const W: &str = "http://schemas.openxmlformats.org/wordprocessingml/2006/main";
const A: &str = "http://schemas.openxmlformats.org/drawingml/2006/main";
const WP: &str = "http://schemas.openxmlformats.org/drawingml/2006/wordprocessingDrawing";
const WPS: &str = "http://schemas.microsoft.com/office/word/2010/wordprocessingShape";

fn document(body: &str) -> String {
    format!(r#"<w:document xmlns:w="{W}" xmlns:a="{A}" xmlns:wp="{WP}" xmlns:wps="{WPS}"><w:body>{body}</w:body></w:document>"#)
}

fn session(body: &str) -> EditSession {
    EditSession::from_package(Package::new("word/document.xml", &document(body)).unwrap()).unwrap()
}

fn element(n: &NewNode) -> &NewElement {
    match n {
        NewNode::Element(e) => e,
        NewNode::Text(_) => panic!("expected an element"),
    }
}

fn text(n: &NewNode) -> &str {
    match n {
        NewNode::Text(t) => t.as_str(),
        NewNode::Element(_) => panic!("expected text"),
    }
}

fn attr<'a>(e: &'a NewElement, l: LocalName) -> Option<&'a str> {
    e.attrs.iter().find(|(n, _)| *n == QName::new(NsId::NoNamespace, l)).map(|(_, v)| v.as_str())
}

fn wp(l: LocalName) -> QName {
    QName::new(NsId::Wp, l)
}

fn dom_attr(s: &EditSession, n: NodeId, l: LocalName) -> Option<String> {
    s.dom().attr(n, QName::new(NsId::NoNamespace, l)).cloned()
}

#[test]
fn fills_drop_leading_hashes_and_no_fill_is_empty() {
    let f = fill_element(Some("##FF0000"));
    assert_eq!(f.name, QName::new(NsId::A, LocalName::SolidFill));
    let clr = element(&f.children[0]);
    assert_eq!(clr.name, QName::new(NsId::A, LocalName::SrgbClr));
    assert_eq!(attr(clr, LocalName::Val), Some("FF0000"));
    let none = fill_element(None);
    assert_eq!(none.name, QName::new(NsId::A, LocalName::NoFill));
    assert!(none.children.is_empty());
}

#[test]
fn wrap_elements_and_the_rectangle_polygon() {
    let p = rect_polygon();
    assert_eq!(p.children.len(), 5);
    assert_eq!(attr(&p, LocalName::Edited), Some("0"));
    let last = element(&p.children[2]);
    assert_eq!(last.name, wp(LocalName::LineTo));
    assert_eq!((attr(last, LocalName::X), attr(last, LocalName::Y)), (Some("21600"), Some("21600")));
    let tight = wrap_element(ImageWrap::TightLeft, true);
    assert_eq!(tight.name, wp(LocalName::WrapTight));
    assert_eq!(attr(&tight, LocalName::WrapText), Some("bothSides"));
    assert_eq!(tight.children.len(), 1);
    assert!(wrap_element(ImageWrap::ThroughRight, false).children.is_empty());
    let square = wrap_element(ImageWrap::SquareRight, true);
    assert_eq!(square.name, wp(LocalName::WrapSquare));
    assert!(square.children.is_empty());
    let front = wrap_element(ImageWrap::Front, true);
    assert_eq!(front.name, wp(LocalName::WrapNone));
    assert!(front.attrs.is_empty());
}

#[test]
fn positions_and_shells() {
    let h = position_element(LocalName::PositionH, &AnchorAxis { relative_from: "page".to_string(), pos: AxisPos::Offset(-5) });
    assert_eq!(attr(&h, LocalName::RelativeFrom), Some("page"));
    let off = element(&h.children[0]);
    assert_eq!(off.name, wp(LocalName::PosOffset));
    assert_eq!(text(&off.children[0]), "-5");
    let inline = shell_element(None, None, None);
    assert_eq!(inline.name, wp(LocalName::Inline));
    assert_eq!(inline.attrs.len(), 4);
    let anchor = shell_element(Some(ImageWrap::Behind), None, Some(3));
    assert_eq!(anchor.name, wp(LocalName::Anchor));
    assert_eq!(attr(&anchor, LocalName::RelativeHeight), Some("251658243"));
    assert_eq!(attr(&anchor, LocalName::BehindDoc), Some("1"));
    assert_eq!(attr(&anchor, LocalName::DistL), Some("114300"));
    let ph = element(&anchor.children[1]);
    assert_eq!(attr(ph, LocalName::RelativeFrom), Some("column"));
    assert_eq!(text(&element(&ph.children[0]).children[0]), "left");
    let pv = element(&anchor.children[2]);
    assert_eq!(attr(pv, LocalName::RelativeFrom), Some("paragraph"));
    assert_eq!(text(&element(&pv.children[0]).children[0]), "0");
    let right = shell_element(Some(ImageWrap::SquareRight), None, Some(-300_000_000));
    assert_eq!(attr(&right, LocalName::RelativeHeight), Some("0"));
    assert_eq!(text(&element(&element(&right.children[1]).children[0]).children[0]), "right");
    assert_eq!(Z_BASE, 251_658_240);
}

#[test]
fn signed_numbers_parse_and_print() {
    let p = |s: &str| parse_i64(&s.chars().collect());
    assert_eq!(p("+12"), Some(12));
    assert_eq!(p("-9223372036854775808"), Some(i64::MIN));
    assert_eq!(p("9223372036854775808"), None);
    assert_eq!(p("00000000000000000000000001"), Some(1));
    assert_eq!(p(""), None);
    assert_eq!(p("-"), None);
    assert_eq!(p("1 2"), None);
    assert_eq!(signed_decimal(i64::MIN), "-9223372036854775808");
    assert_eq!(signed_decimal(0), "0");
}

const PICTURE: &str = r#"<w:p><w:r><w:drawing><wp:anchor behindDoc="0" relativeHeight="5"><wp:simplePos x="0" y="0"/><wp:positionH relativeFrom="column"><wp:align>left</wp:align></wp:positionH><wp:positionV relativeFrom="paragraph"><wp:posOffset>0</wp:posOffset></wp:positionV><wp:extent cx="10" cy="20"/><wp:effectExtent l="0" t="0" r="0" b="0"/><wp:wrapSquare wrapText="bothSides"/><wp:docPr id="1" name="p"/><a:graphic><a:blipFill><a:blip/><a:stretch/></a:blipFill><a:xfrm rot=" -5400000 "><a:ext cx="10" cy="20"/></a:xfrm></a:graphic></wp:anchor></w:drawing></w:r></w:p>"#;

#[test]
fn rotation_after_a_change_reads_the_transform() {
    let xml = document(PICTURE);
    let dom = Dom::parse(PartId(0), xml.as_bytes()).unwrap();
    let drawing = NodeId(4);
    assert!(dom.is(drawing, QName::w(LocalName::Drawing)));
    assert_eq!(current_rot(&dom, drawing, &DrawingGeometry::default()), -90);
    let g = DrawingGeometry { rot_deg: Some(Some(30)), ..Default::default() };
    assert_eq!(current_rot(&dom, drawing, &g), 30);
    let g = DrawingGeometry { rot_deg: Some(None), ..Default::default() };
    assert_eq!(current_rot(&dom, drawing, &g), 0);
}

fn find(s: &EditSession, q: QName) -> Option<NodeId> {
    let dom = s.dom();
    dom.descendants(dom.root()).into_iter().find(|&n| dom.is(n, q))
}

#[test]
fn z_order_applies_to_anchored_drawings_only() {
    let mut s = session(PICTURE);
    s.set_z_order(NodeId(4), 7).unwrap();
    assert_eq!(dom_attr(&s, NodeId(5), LocalName::RelativeHeight), Some("251658247".to_string()));
    let err = s.set_z_order(NodeId(3), 7).unwrap_err();
    assert_eq!(err.code(), DiagCode::EditBadPosition);
    let mut inline = session(r#"<w:p><w:r><w:drawing><wp:inline/></w:drawing></w:r></w:p>"#);
    let err = inline.set_z_order(NodeId(4), 1).unwrap_err();
    assert_eq!(err.code(), DiagCode::EditUnsupported);
    let mut bare = session(r#"<w:p><w:r><w:drawing/></w:r></w:p>"#);
    assert_eq!(bare.set_z_order(NodeId(4), 1).unwrap_err().code(), DiagCode::EditBadPosition);
}

#[test]
fn wrap_change_in_place_replaces_the_wrap_and_follows_the_side() {
    let mut s = session(PICTURE);
    s.set_wrap(NodeId(4), Some(ImageWrap::TightRight), None, None).unwrap();
    let dom = s.dom();
    assert!(find(&s, wp(LocalName::WrapSquare)).is_none());
    let tight = find(&s, wp(LocalName::WrapTight)).expect("tight wrap");
    assert_eq!(dom.parent(tight), Some(NodeId(5)));
    assert!(find(&s, wp(LocalName::WrapPolygon)).is_some());
    let align = find(&s, wp(LocalName::Align)).unwrap();
    let t = dom.live_children(align)[0];
    assert_eq!(dom.text_of(t).map(|v| v.as_str()), Some("right"));
    assert_eq!(dom_attr(&s, NodeId(5), LocalName::BehindDoc), Some("0".to_string()));
}

#[test]
fn wrap_change_to_inline_rebuilds_the_shell() {
    let mut s = session(PICTURE);
    s.set_wrap(NodeId(4), None, None, None).unwrap();
    let dom = s.dom();
    assert!(!dom.is_live(NodeId(5)));
    let shell = dom.live_children(NodeId(4))[0];
    assert!(dom.is(shell, wp(LocalName::Inline)));
    let kids: Vec<QName> = dom.live_children(shell).into_iter().filter_map(|n| dom.name(n)).collect();
    assert_eq!(kids, vec![wp(LocalName::Extent), wp(LocalName::EffectExtent), wp(LocalName::DocPr), QName::new(NsId::A, LocalName::Graphic)]);
}

#[test]
fn shape_style_replaces_fill_and_adds_an_outline() {
    let mut s = session(r#"<w:p><w:r><wps:wsp><wps:spPr><a:prstGeom/><a:solidFill><a:srgbClr val="000000"/></a:solidFill></wps:spPr></wps:wsp></w:r></w:p>"#);
    let shape = NodeId(4);
    s.set_shape_style(shape, Some(Some("#00FF00".to_string())), Some(None)).unwrap();
    let dom = s.dom();
    let sp_pr = NodeId(5);
    let kids: Vec<QName> = dom.live_children(sp_pr).into_iter().filter_map(|n| dom.name(n)).collect();
    assert_eq!(kids, vec![QName::new(NsId::A, LocalName::Unknown), QName::new(NsId::A, LocalName::SolidFill), QName::new(NsId::A, LocalName::Ln)]);
}

#[test]
fn geometry_change_sets_size_rotation_and_crop() {
    let mut s = session(PICTURE);
    let g = DrawingGeometry {
        extent_emu: Some((100, 0)),
        pos_offset_emu: Some((7, -8)),
        rot_deg: Some(Some(90)),
        flip_h: Some(true),
        flip_v: Some(false),
        crop: Some(Some(SrcRect { l: 1000, t: 0, r: 0, b: 0 })),
    };
    s.set_geometry(NodeId(4), &g, (-3, 4)).unwrap();
    let ext = find(&s, wp(LocalName::Extent)).unwrap();
    assert_eq!(dom_attr(&s, ext, LocalName::Cx), Some("100".to_string()));
    assert_eq!(dom_attr(&s, ext, LocalName::Cy), Some("1".to_string()));
    let ee = find(&s, wp(LocalName::EffectExtent)).unwrap();
    assert_eq!(dom_attr(&s, ee, LocalName::L), Some("0".to_string()));
    assert_eq!(dom_attr(&s, ee, LocalName::T), Some("4".to_string()));
    let xfrm = find(&s, QName::new(NsId::A, LocalName::Xfrm)).unwrap();
    assert_eq!(dom_attr(&s, xfrm, LocalName::Rot), Some("5400000".to_string()));
    assert_eq!(dom_attr(&s, xfrm, LocalName::FlipH), Some("1".to_string()));
    let a_ext = s.dom().live_children(xfrm)[0];
    assert_eq!(dom_attr(&s, a_ext, LocalName::Cy), Some("1".to_string()));
    let src = find(&s, QName::new(NsId::A, LocalName::SrcRect)).unwrap();
    assert_eq!(dom_attr(&s, src, LocalName::L), Some("1000".to_string()));
    assert_eq!(dom_attr(&s, src, LocalName::T), None);
    let dom = s.dom();
    let offs: Vec<String> = dom.descendants(dom.root()).into_iter()
        .filter(|&n| dom.is(n, wp(LocalName::PosOffset)))
        .filter_map(|n| dom.live_children(n).first().and_then(|&t| dom.text_of(t).cloned()))
        .collect();
    assert_eq!(offs, vec!["7".to_string(), "-8".to_string()]);
    let pos_h = find(&s, wp(LocalName::PositionH)).unwrap();
    let inserted = s.dom().live_children(pos_h);
    assert_eq!(inserted.len(), 2);
}
