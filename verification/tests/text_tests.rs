use rsword::diag::{DiagCode, Error};
use rsword::diff::{InlineDiff, Step, Tok};
use rsword::emit::Emitter;
use rsword::ids::PartId;
use rsword::paths::relative_target;
use rsword::position::Utf16Offset;
use rsword::utf16::Utf16TextOffset;
use rsword::xml::{LocalName, NewNode, QName};

#[test]
fn diff_preserves_common_runs_and_falls_back_at_the_existing_limit() {
    let first = String::from("a");
    let last = String::from("b");
    let inserted = String::from("c");
    let old = [Tok::Run(&first, None), Tok::Run(&last, None)];
    let new = [Tok::Run(&first, None), Tok::Run(&inserted, None), Tok::Run(&last, None)];
    assert_eq!(
        InlineDiff { old: &old, new: &new }.steps().unwrap(),
        [Step::Equal(1), Step::Insert(1), Step::Equal(1)],
    );
    assert!(InlineDiff { old: &[], new: &[] }.steps().unwrap().is_empty());
    let limit = vec![Tok::Run(&first, None); 4_000];
    assert_eq!(InlineDiff { old: &limit, new: &limit }.steps().unwrap(), [Step::Equal(4_000)],);
    let oversized = vec![Tok::Run(&first, None); 4_001];
    assert!(InlineDiff { old: &oversized, new: &[] }.steps().is_none());
    assert!(InlineDiff { old: &[], new: &oversized }.steps().is_none());
}

#[test]
fn position_utf16_text_conversion_preserves_boundaries_and_errors() {
    let text = String::from("A😀B");
    for (units, bytes) in [(0, 0), (1, 1), (3, 5), (4, 6)] {
        assert_eq!(
            usize::try_from(Utf16TextOffset { text: &text, offset: Utf16Offset(units) }).unwrap(),
            bytes,
        );
    }
    for (units, expected_code, expected_message) in [
        (2, DiagCode::EditSplitSurrogate, "偏移落在代理对中间"),
        (5, DiagCode::EditBadPosition, "偏移超出段文本"),
    ] {
        let error =
            usize::try_from(Utf16TextOffset { text: &text, offset: Utf16Offset(units) }).unwrap_err();
        assert!(matches!(error, Error::Edit { code, message }
            if code == expected_code && message == expected_message));
    }
    assert_eq!(usize::try_from(Utf16TextOffset { text: "", offset: Utf16Offset(0) }).unwrap(), 0,);
}

#[test]
fn edit_03_text_segments_fold_control_chars() {
    let segs = Emitter::text_segments("a\tb\nc\u{0C}d\u{0B}e", false);
    let names: Vec<LocalName> = segs.iter().map(|e| e.name.local).collect();
    assert_eq!(
        names,
        [
            LocalName::T,
            LocalName::Tab,
            LocalName::T,
            LocalName::Br,
            LocalName::T,
            LocalName::Br,
            LocalName::T,
            LocalName::Br,
            LocalName::T
        ]
    );
    assert_eq!(segs[5].attrs, vec![(QName::w(LocalName::Type), "page".to_string())]);
    assert_eq!(segs[7].attrs, vec![(QName::w(LocalName::Type), "column".to_string())]);
    assert_eq!(segs[0].children, vec![NewNode::Text("a".into())]);
    let del = Emitter::text_segments("x", true);
    assert_eq!(del[0].name.local, LocalName::DelText);
    let mut diags = Vec::new();
    assert_eq!(Emitter::sanitize_text("a\u{0}b\u{1F}c", PartId(0), &mut diags), "abc");
    assert_eq!(diags.len(), 1);
}

#[test]
fn pkg_04_relative_targets() {
    assert_eq!(relative_target("word", "word/media/image1.png"), "media/image1.png");
    assert_eq!(relative_target("word", "customXml/item1.xml"), "../customXml/item1.xml");
    assert_eq!(relative_target("word", "docProps/core.xml"), "../docProps/core.xml");
    assert_eq!(relative_target("", "word/document.xml"), "word/document.xml");
    assert_eq!(relative_target("word/charts", "word/charts/embeddings/wb.xlsx"), "embeddings/wb.xlsx");
    assert_eq!(relative_target("word/charts", "word/media/i.png"), "../media/i.png");
}
