use rsword::content::{ImageWrap, LineKind, NewImage, PosOffset, ShapeLook};
use rsword::emit::NewRun;
use rsword::edit::{NodeEdit, Target};
use rsword::package::PartFlavor;
use rsword::plan::MutationPlan;
use rsword::shapes::{anchor_open, sp_pr, wrap_paragraph};
use rsword::watermark::escape_quoted;
use rsword::xml::{LocalName, NewElement, NewNode, NsId, QName};

const HEAD: &str = r#"<wp:anchor distT="0" distB="0" distL="114300" distR="114300" simplePos="0" relativeHeight=""#;
const FLAGS: &str = r#"" locked="0" layoutInCell="1" allowOverlap="1">"#;

#[test]
fn shape_anchor_with_a_page_position_behind_the_text() {
    let look = ShapeLook {
        pos_offset_emu: Some(PosOffset { x: 5, y: -6, page: true }),
        wrap: Some(ImageWrap::Behind),
        z_order: Some(3),
        ..Default::default()
    };
    let expected = [
        HEAD,
        "251658243\" behindDoc=\"1",
        FLAGS,
        r#"<wp:simplePos x="0" y="0"/>"#,
        r#"<wp:positionH relativeFrom="page"><wp:posOffset>5</wp:posOffset></wp:positionH>"#,
        r#"<wp:positionV relativeFrom="page"><wp:posOffset>-6</wp:posOffset></wp:positionV>"#,
        r#"<wp:extent cx="100" cy="200"/><wp:effectExtent l="0" t="0" r="0" b="0"/><wp:wrapNone/>"#,
        r#"<wp:docPr id="7" name="Shape 7"/>"#,
    ]
    .concat();
    assert_eq!(anchor_open("wp", 100, 200, &look, 7, "Shape"), expected);
}

#[test]
fn shape_anchor_defaults_to_a_centred_square_wrap() {
    let head = HEAD.replace("wp:", "x:");
    let expected = [
        head.as_str(),
        "251658240\" behindDoc=\"0",
        FLAGS,
        r#"<x:simplePos x="0" y="0"/>"#,
        r#"<x:positionH relativeFrom="column"><x:align>center</x:align></x:positionH>"#,
        r#"<x:positionV relativeFrom="paragraph"><x:posOffset>0</x:posOffset></x:positionV>"#,
        r#"<x:extent cx="1" cy="2"/><x:effectExtent l="0" t="0" r="0" b="0"/>"#,
        r#"<x:wrapSquare wrapText="bothSides"/><x:docPr id="1" name="TextBox 1"/>"#,
    ]
    .concat();
    assert_eq!(anchor_open("x", 1, 2, &ShapeLook::default(), 1, "TextBox"), expected);
}

#[test]
fn shape_properties_fill_and_outline() {
    let look = ShapeLook { fill: Some("##ff0000".to_string()), ..Default::default() };
    assert_eq!(
        sp_pr("rect", 10, 20, &look),
        [
            r#"<wps:spPr><a:xfrm><a:off x="0" y="0"/><a:ext cx="10" cy="20"/></a:xfrm>"#,
            r#"<a:prstGeom prst="rect"><a:avLst/></a:prstGeom>"#,
            r#"<a:solidFill><a:srgbClr val="ff0000"/></a:solidFill><a:ln><a:noFill/></a:ln></wps:spPr>"#
        ].concat()
    );
    let look = ShapeLook { outline: Some("00FF00".to_string()), ..Default::default() };
    assert!(sp_pr("ellipse", 1, 1, &look).ends_with(
        r#"<a:noFill/><a:ln><a:solidFill><a:srgbClr val="00FF00"/></a:solidFill></a:ln></wps:spPr>"#
    ));
}

#[test]
fn shape_paragraphs_with_and_without_a_twin() {
    let drawing = [
        r#"<w:drawing xmlns:wp="u"><HEAD/><a:graphic xmlns:a="http://schemas.openxmlformats.org/drawingml/2006/main">"#,
        r#"<a:graphicData uri="http://schemas.microsoft.com/office/word/2010/wordprocessingShape"><WSP/>"#,
        r#"</a:graphicData></a:graphic></wp:anchor></w:drawing>"#
    ].concat();
    let plain = format!("<w:p><w:r>{drawing}</w:r></w:p>");
    assert_eq!(wrap_paragraph(PartFlavor::Strict, "wp", r#" xmlns:wp="u""#, "<HEAD/>", "<WSP/>", Some("<VML/>")), plain);
    assert_eq!(wrap_paragraph(PartFlavor::Transitional, "wp", r#" xmlns:wp="u""#, "<HEAD/>", "<WSP/>", None), plain);
    let twin = wrap_paragraph(PartFlavor::Transitional, "wp", r#" xmlns:wp="u""#, "<HEAD/>", "<WSP/>", Some("<VML/>"));
    let expected = [
        r#"<w:p><w:r><mc:AlternateContent xmlns:mc="http://schemas.openxmlformats.org/markup-compatibility/2006" "#,
        r#"xmlns:wps="http://schemas.microsoft.com/office/word/2010/wordprocessingShape">"#,
        r#"<mc:Choice Requires="wps">"#,
        drawing.as_str(),
        r#"</mc:Choice><mc:Fallback><w:pict><VML/></w:pict></mc:Fallback>"#,
        r#"</mc:AlternateContent></w:r></w:p>"#,
    ]
    .concat();
    assert_eq!(twin, expected);
}

#[test]
fn image_anchor_parts_align_by_wrap() {
    let (open, middle, close) = NewImage::anchor_parts("wp", ImageWrap::SquareRight, None, Some(-40));
    assert_eq!(open, format!("{HEAD}251658200\" behindDoc=\"0{FLAGS}"));
    assert_eq!(
        middle,
        [
            r#"<wp:simplePos x="0" y="0"/><wp:positionH relativeFrom="column"><wp:align>right</wp:align></wp:positionH>"#,
            r#"<wp:positionV relativeFrom="paragraph"><wp:posOffset>0</wp:posOffset></wp:positionV>"#,
            "\u{0}",
            r#"<wp:wrapSquare wrapText="bothSides"/>"#
        ].concat()
    );
    assert_eq!(close, "</wp:anchor>");
    let (_, middle, _) =
        NewImage::anchor_parts("wp", ImageWrap::TopBottom, Some(PosOffset { x: 1, y: 2, page: false }), None);
    assert_eq!(
        middle,
        [
            r#"<wp:simplePos x="0" y="0"/><wp:positionH relativeFrom="column"><wp:posOffset>1</wp:posOffset></wp:positionH>"#,
            r#"<wp:positionV relativeFrom="paragraph"><wp:posOffset>2</wp:posOffset></wp:positionV>"#,
            "\u{0}<wp:wrapTopAndBottom/>"
        ].concat()
    );
}

#[test]
fn line_kinds_round_trip_their_spelling() {
    for k in [LineKind::Line, LineKind::LineArrow, LineKind::LineArrowDouble, LineKind::LineBent, LineKind::LineCurved] {
        assert_eq!(LineKind::parse(k.as_str()).unwrap(), k);
    }
    assert!(LineKind::parse("zigzag").is_err());
}

#[test]
fn watermark_text_is_escaped_into_the_text_path() {
    assert_eq!(escape_quoted(r#"A&B<"x">"#), "A&amp;B&lt;&quot;x&quot;&gt;");
    let xml = MutationPlan::watermark_paragraph_xml("DRAFT & <co>");
    assert!(xml.starts_with(r#"<w:p xmlns:w="http://schemas.openxmlformats.org/wordprocessingml/2006/main""#));
    assert!(xml.contains(r#"<v:shapetype id="_x0000_t136" coordsize="21600,21600" o:spt="136" adj="10800""#));
    assert!(xml.ends_with(r#"string="DRAFT &amp; &lt;co&gt;"/></v:shape></w:pict></w:r></w:p>"#));
}

fn el(n: &NewNode) -> &NewElement {
    match n {
        NewNode::Element(e) => e,
        NewNode::Text(_) => panic!("expected an element"),
    }
}

#[test]
fn comment_entry_runs_and_paragraphs() {
    let r = MutationPlan::comment_reference_run("5");
    assert_eq!(r.name, QName::w(LocalName::R));
    let rpr = el(&r.children[0]);
    assert_eq!(el(&rpr.children[0]).attrs, vec![(QName::w(LocalName::Val), "CommentReference".to_string())]);
    assert_eq!(el(&r.children[1]).attrs, vec![(QName::w(LocalName::Id), "5".to_string())]);
    let lead = MutationPlan::annotation_ref_run();
    assert_eq!(el(&lead.children[1]).name, QName::w(LocalName::AnnotationRef));

    let bold = NewElement::new(QName::w(LocalName::RPr));
    let paras = MutationPlan::text_entry_paras("one\ntwo\tthree", Some(&bold));
    assert_eq!(paras.len(), 2);
    assert_eq!(paras[0][0].text, "one");
    assert_eq!(paras[1][0].text, "two\tthree");
    assert!(paras[1][0].props.is_some());
    let empty = MutationPlan::text_entry_paras("", None);
    assert_eq!(empty.len(), 1);
    assert_eq!(empty[0][0].text, "");

    let ps = MutationPlan::entry_paragraphs(&paras, Some("00AB12CD"), Some(lead));
    assert_eq!(ps.len(), 2);
    assert!(ps[0].attrs.is_empty());
    assert_eq!(el(&ps[0].children[0]).children.len(), 2);
    assert_eq!(ps[0].children.len(), 2);
    assert_eq!(ps[1].attrs, vec![(QName::new(NsId::W14, LocalName::ParaId), "00AB12CD".to_string())]);
    // rPr, "two", tab, "three"
    assert_eq!(el(&ps[1].children[0]).children.len(), 4);
    let run = MutationPlan::entry_run(&NewRun { text: "a\nb".to_string(), props: None });
    assert_eq!(run.children.len(), 3);
}

const C_NS: &str = "http://schemas.openxmlformats.org/drawingml/2006/chart";
const A_NS: &str = "http://schemas.openxmlformats.org/drawingml/2006/main";

fn chart_dom(inner: &str) -> rsword::dom::Dom {
    let xml = format!(r#"<c:chartSpace xmlns:c="{C_NS}" xmlns:a="{A_NS}"><c:chart>{inner}</c:chart></c:chartSpace>"#);
    rsword::dom::Dom::parse(rsword::ids::PartId(3), xml.as_bytes()).unwrap()
}

fn find_c(d: &rsword::dom::Dom, ns: NsId, l: LocalName) -> rsword::ids::NodeId {
    d.descendants(d.root()).into_iter().find(|&n| d.name(n) == Some(QName::new(ns, l))).unwrap()
}

fn text_of_run(run: &NewElement) -> String {
    match &el(&run.children[0]).children[0] {
        NewNode::Text(t) => t.clone(),
        NewNode::Element(_) => panic!("expected text"),
    }
}

#[test]
fn a_chart_without_a_title_gets_one_first() {
    let d = chart_dom(r#"<c:autoTitleDeleted val="0"/>"#);
    let chart = find_c(&d, NsId::C, LocalName::Chart);
    let first = d.live_children(chart)[0];
    let mut plan = MutationPlan::new(rsword::ids::PartId(3));
    MutationPlan::new_title(&d, d.root(), "Sales", &mut plan);
    assert_eq!(plan.node_edits.len(), 1);
    match &plan.node_edits[0] {
        NodeEdit::Insert { parent, before, node } => {
            assert_eq!(*parent, Target::Node(chart));
            assert_eq!(*before, Some(first));
            assert_eq!(node.name, QName::new(NsId::C, LocalName::Title));
            let tx = el(&node.children[0]);
            let rich = el(&tx.children[0]);
            let p = el(&rich.children[2]);
            assert_eq!(text_of_run(el(&p.children[0])), "Sales");
            assert_eq!(el(&node.children[1]).attrs, vec![(QName::new(NsId::NoNamespace, LocalName::Val), "0".to_string())]);
        }
        other => panic!("unexpected {other:?}"),
    }
    let mut untouched = MutationPlan::new(rsword::ids::PartId(3));
    let plain = rsword::dom::Dom::parse(rsword::ids::PartId(3), format!(r#"<c:chartSpace xmlns:c="{C_NS}"/>"#).as_bytes()).unwrap();
    MutationPlan::new_title(&plain, plain.root(), "Sales", &mut untouched);
    assert!(untouched.node_edits.is_empty());
}

#[test]
fn an_empty_title_gets_its_text() {
    let d = chart_dom(r#"<c:title><c:tx><c:rich><a:bodyPr/><a:p><a:endParaRPr/></a:p></c:rich></c:tx></c:title>"#);
    let title = find_c(&d, NsId::C, LocalName::Title);
    let p = find_c(&d, NsId::A, LocalName::P);
    let end = find_c(&d, NsId::A, LocalName::EndParaRPr);
    let mut plan = MutationPlan::new(rsword::ids::PartId(3));
    MutationPlan::inject_title(&d, title, "Q1", &mut plan);
    match &plan.node_edits[0] {
        NodeEdit::Insert { parent, before, node } => {
            assert_eq!(*parent, Target::Node(p));
            assert_eq!(*before, Some(end));
            assert_eq!(text_of_run(node), "Q1");
        }
        other => panic!("unexpected {other:?}"),
    }
    let d = chart_dom(r#"<c:title><c:tx><c:strRef><c:f>Sheet1!$A$1</c:f></c:strRef></c:tx><c:overlay val="0"/></c:title>"#);
    let title = find_c(&d, NsId::C, LocalName::Title);
    let tx = find_c(&d, NsId::C, LocalName::Tx);
    let mut plan = MutationPlan::new(rsword::ids::PartId(3));
    MutationPlan::inject_title(&d, title, "Q1", &mut plan);
    assert!(matches!(&plan.node_edits[0], NodeEdit::Replace { old, node } if *old == tx && node.name == QName::new(NsId::C, LocalName::Tx)));
    let d = chart_dom(r#"<c:title><c:overlay val="0"/></c:title>"#);
    let title = find_c(&d, NsId::C, LocalName::Title);
    let overlay = find_c(&d, NsId::C, LocalName::Overlay);
    let mut plan = MutationPlan::new(rsword::ids::PartId(3));
    MutationPlan::inject_title(&d, title, "Q1", &mut plan);
    assert!(matches!(&plan.node_edits[0], NodeEdit::Insert { parent, before, .. } if *parent == Target::Node(title) && *before == Some(overlay)));
}

#[test]
fn text_boxes_are_filled_everywhere() {
    let txbx = || NewElement::new(QName::w(LocalName::TxbxContent));
    let mut run = NewElement::new(QName::w(LocalName::R));
    run.push_child(txbx());
    let mut node = NewElement::new(QName::w(LocalName::P));
    node.push_child(txbx());
    node.push_child(run);
    let block = NewElement::new(QName::w(LocalName::P)).with_text("x".to_string());
    rsword::shapes::fill_txbx(&mut node, &vec![block]);
    assert_eq!(el(&node.children[0]).children.len(), 1);
    let inner = el(&el(&node.children[1]).children[0]);
    assert_eq!(inner.children.len(), 1);
    assert_eq!(el(&inner.children[0]).name, QName::w(LocalName::P));
}

#[test]
fn attributes_are_copied_in_order() {
    let xml = r#"<w:document xmlns:w="http://schemas.openxmlformats.org/wordprocessingml/2006/main"><w:body><w:p w:rsidR="00A1" w:rsidRDefault="00B2"/></w:body></w:document>"#;
    let d = rsword::dom::Dom::parse(rsword::ids::PartId(0), xml.as_bytes()).unwrap();
    let p = find_c(&d, NsId::W, LocalName::P);
    let mut to = NewElement::new(QName::w(LocalName::P)).with_attr(QName::w(LocalName::Val), "k".to_string());
    MutationPlan::clone_attrs(&d, p, &mut to);
    let values: Vec<&str> = to.attrs.iter().map(|(_, v)| v.as_str()).collect();
    assert_eq!(values, vec!["k", "00A1", "00B2"]);
    let mut same = NewElement::new(QName::w(LocalName::P));
    MutationPlan::clone_attrs(&d, rsword::ids::NodeId(999), &mut same);
    assert!(same.attrs.is_empty());
}
