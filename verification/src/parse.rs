use vstd::prelude::*;
use crate::ids::{NodeId, PartId};
use crate::diag::{DiagCode, Error, text};
use crate::dom::{Dom, Node, NodeKind, Element, Attr, Dirty};
use crate::xml::{QName, NsId, LocalName};
use crate::chars::{chars_of, utf8_text, char_from_code, at_lit, chars_eq, string_of, vec_eq};

verus! {

/// The namespace a URI names (`Other` for any other URI).
pub open spec fn spec_ns_of_uri(uri: Seq<char>) -> NsId {
    if uri == "http://schemas.openxmlformats.org/wordprocessingml/2006/main"@
        || uri == "http://purl.oclc.org/ooxml/wordprocessingml/main"@ {
        NsId::W
    } else if uri == "http://schemas.openxmlformats.org/officeDocument/2006/relationships"@
        || uri == "http://purl.oclc.org/ooxml/officeDocument/relationships"@ {
        NsId::R
    } else if uri == "http://schemas.openxmlformats.org/drawingml/2006/main"@
        || uri == "http://purl.oclc.org/ooxml/drawingml/main"@ {
        NsId::A
    } else if uri == "http://schemas.openxmlformats.org/drawingml/2006/wordprocessingDrawing"@
        || uri == "http://purl.oclc.org/ooxml/drawingml/wordprocessingDrawing"@ {
        NsId::Wp
    } else if uri == "http://schemas.openxmlformats.org/markup-compatibility/2006"@ {
        NsId::Mc
    } else if uri == "http://schemas.microsoft.com/office/word/2010/wordprocessingShape"@ {
        NsId::Wps
    } else if uri == "urn:schemas-microsoft-com:vml"@ {
        NsId::V
    } else if uri == "http://schemas.microsoft.com/office/word/2010/wordml"@ {
        NsId::W14
    } else if uri == "http://schemas.microsoft.com/office/word/2012/wordml"@ {
        NsId::W15
    } else if uri == "http://schemas.openxmlformats.org/drawingml/2006/picture"@ {
        NsId::Pic
    } else if uri == "http://schemas.openxmlformats.org/drawingml/2006/chart"@ {
        NsId::C
    } else if uri == "http://schemas.openxmlformats.org/package/2006/content-types"@ {
        NsId::ContentTypes
    } else if uri == "http://schemas.openxmlformats.org/package/2006/relationships"@ {
        NsId::PackageRels
    } else if uri == "http://www.w3.org/XML/1998/namespace"@ {
        NsId::Xml
    } else {
        NsId::Other
    }
}

/// Namespace URI → known namespace.
pub fn ns_of_uri(uri: &Vec<char>) -> (r: NsId)
    ensures
        r == spec_ns_of_uri(uri@),
{
    if chars_eq(uri, "http://schemas.openxmlformats.org/wordprocessingml/2006/main")
        || chars_eq(uri, "http://purl.oclc.org/ooxml/wordprocessingml/main") {
        NsId::W
    } else if chars_eq(uri, "http://schemas.openxmlformats.org/officeDocument/2006/relationships")
        || chars_eq(uri, "http://purl.oclc.org/ooxml/officeDocument/relationships") {
        NsId::R
    } else if chars_eq(uri, "http://schemas.openxmlformats.org/drawingml/2006/main")
        || chars_eq(uri, "http://purl.oclc.org/ooxml/drawingml/main") {
        NsId::A
    } else if chars_eq(uri, "http://schemas.openxmlformats.org/drawingml/2006/wordprocessingDrawing")
        || chars_eq(uri, "http://purl.oclc.org/ooxml/drawingml/wordprocessingDrawing") {
        NsId::Wp
    } else if chars_eq(uri, "http://schemas.openxmlformats.org/markup-compatibility/2006") {
        NsId::Mc
    } else if chars_eq(uri, "http://schemas.microsoft.com/office/word/2010/wordprocessingShape") {
        NsId::Wps
    } else if chars_eq(uri, "urn:schemas-microsoft-com:vml") {
        NsId::V
    } else if chars_eq(uri, "http://schemas.microsoft.com/office/word/2010/wordml") {
        NsId::W14
    } else if chars_eq(uri, "http://schemas.microsoft.com/office/word/2012/wordml") {
        NsId::W15
    } else if chars_eq(uri, "http://schemas.openxmlformats.org/drawingml/2006/picture") {
        NsId::Pic
    } else if chars_eq(uri, "http://schemas.openxmlformats.org/drawingml/2006/chart") {
        NsId::C
    } else if chars_eq(uri, "http://schemas.openxmlformats.org/package/2006/content-types") {
        NsId::ContentTypes
    } else if chars_eq(uri, "http://schemas.openxmlformats.org/package/2006/relationships") {
        NsId::PackageRels
    } else if chars_eq(uri, "http://www.w3.org/XML/1998/namespace") {
        NsId::Xml
    } else {
        NsId::Other
    }
}

/// The known local name a lexical name spells (`Unknown` for any other).
pub open spec fn spec_local_of(v: Seq<char>) -> LocalName {
    if v == "t"@ { LocalName::T }
    else if v == "r"@ { LocalName::R }
    else if v == "p"@ { LocalName::P }
    else if v == "document"@ { LocalName::Document }
    else if v == "body"@ { LocalName::Body }
    else if v == "tab"@ { LocalName::Tab }
    else if v == "br"@ { LocalName::Br }
    else if v == "cr"@ { LocalName::Cr }
    else if v == "type"@ { LocalName::Type }
    else if v == "delText"@ { LocalName::DelText }
    else if v == "instrText"@ { LocalName::InstrText }
    else if v == "delInstrText"@ { LocalName::DelInstrText }
    else if v == "id"@ { LocalName::Id }
    else if v == "author"@ { LocalName::Author }
    else if v == "date"@ { LocalName::Date }
    else if v == "hyperlink"@ { LocalName::Hyperlink }
    else if v == "anchor"@ { LocalName::Anchor }
    else if v == "tooltip"@ { LocalName::Tooltip }
    else if v == "ins"@ { LocalName::Ins }
    else if v == "del"@ { LocalName::Del }
    else if v == "moveFrom"@ { LocalName::MoveFrom }
    else if v == "moveTo"@ { LocalName::MoveTo }
    else if v == "moveFromRangeStart"@ { LocalName::MoveFromRangeStart }
    else if v == "rStyle"@ { LocalName::RStyle }
    else if v == "chart"@ { LocalName::Chart }
    else if v == "title"@ { LocalName::Title }
    else if v == "tx"@ { LocalName::Tx }
    else if v == "rich"@ { LocalName::Rich }
    else if v == "bodyPr"@ { LocalName::BodyPr }
    else if v == "lstStyle"@ { LocalName::LstStyle }
    else if v == "overlay"@ { LocalName::Overlay }
    else if v == "endParaRPr"@ { LocalName::EndParaRPr }
    else if v == "annotationRef"@ { LocalName::AnnotationRef }
    else if v == "paraId"@ { LocalName::ParaId }
    else if v == "moveToRangeStart"@ { LocalName::MoveToRangeStart }
    else if v == "fldChar"@ { LocalName::FldChar }
    else if v == "fldCharType"@ { LocalName::FldCharType }
    else if v == "dirty"@ { LocalName::Dirty }
    else if v == "space"@ { LocalName::Space }
    else if v == "settings"@ { LocalName::Settings }
    else if v == "removePersonalInformation"@ { LocalName::RemovePersonalInformation }
    else if v == "removeDateAndTime"@ { LocalName::RemoveDateAndTime }
    else if v == "proofErr"@ { LocalName::ProofErr }
    else if v == "bookmarkStart"@ { LocalName::BookmarkStart }
    else if v == "bookmarkEnd"@ { LocalName::BookmarkEnd }
    else if v == "name"@ { LocalName::Name }
    else if v == "commentRangeStart"@ { LocalName::CommentRangeStart }
    else if v == "commentRangeEnd"@ { LocalName::CommentRangeEnd }
    else if v == "commentReference"@ { LocalName::CommentReference }
    else if v == "rPr"@ { LocalName::RPr }
    else if v == "pPr"@ { LocalName::PPr }
    else if v == "sectPr"@ { LocalName::SectPr }
    else if v == "numPr"@ { LocalName::NumPr }
    else if v == "rPrChange"@ { LocalName::RPrChange }
    else if v == "pPrChange"@ { LocalName::PPrChange }
    else if v == "sectPrChange"@ { LocalName::SectPrChange }
    else if v == "tblPrChange"@ { LocalName::TblPrChange }
    else if v == "tblPrExChange"@ { LocalName::TblPrExChange }
    else if v == "tblGridChange"@ { LocalName::TblGridChange }
    else if v == "trPrChange"@ { LocalName::TrPrChange }
    else if v == "tcPrChange"@ { LocalName::TcPrChange }
    else if v == "numberingChange"@ { LocalName::NumberingChange }
    else if v == "tbl"@ { LocalName::Tbl }
    else if v == "tr"@ { LocalName::Tr }
    else if v == "tc"@ { LocalName::Tc }
    else if v == "tblPr"@ { LocalName::TblPr }
    else if v == "trPr"@ { LocalName::TrPr }
    else if v == "tcPr"@ { LocalName::TcPr }
    else if v == "tblPrEx"@ { LocalName::TblPrEx }
    else if v == "tblGrid"@ { LocalName::TblGrid }
    else if v == "gridCol"@ { LocalName::GridCol }
    else if v == "gridSpan"@ { LocalName::GridSpan }
    else if v == "gridBefore"@ { LocalName::GridBefore }
    else if v == "gridAfter"@ { LocalName::GridAfter }
    else if v == "vMerge"@ { LocalName::VMerge }
    else if v == "val"@ { LocalName::Val }
    else if v == "w"@ { LocalName::W }
    else if v == "headerReference"@ { LocalName::HeaderReference }
    else if v == "footerReference"@ { LocalName::FooterReference }
    else if v == "cellIns"@ { LocalName::CellIns }
    else if v == "cellDel"@ { LocalName::CellDel }
    else if v == "cellMerge"@ { LocalName::CellMerge }
    else if v == "headers"@ { LocalName::Headers }
    else if v == "drawing"@ { LocalName::Drawing }
    else if v == "pict"@ { LocalName::Pict }
    else if v == "Relationship"@ { LocalName::Relationship }
    else if v == "Relationships"@ { LocalName::Relationships }
    else if v == "Override"@ { LocalName::Override }
    else if v == "Default"@ { LocalName::UDefault }
    else if v == "Extension"@ { LocalName::UExtension }
    else if v == "PartName"@ { LocalName::PartName }
    else if v == "ContentType"@ { LocalName::ContentType }
    else if v == "Id"@ { LocalName::UId }
    else if v == "Type"@ { LocalName::UType }
    else if v == "Target"@ { LocalName::Target }
    else if v == "TargetMode"@ { LocalName::TargetMode }
    else if v == "Types"@ { LocalName::Types }
    else if v == "AlternateContent"@ { LocalName::AlternateContent }
    else if v == "Choice"@ { LocalName::Choice }
    else if v == "Fallback"@ { LocalName::Fallback }
    else if v == "txbx"@ { LocalName::Txbx }
    else if v == "txbxContent"@ { LocalName::TxbxContent }
    else if v == "tblStyle"@ { LocalName::TblStyle }
    else if v == "tblW"@ { LocalName::TblW }
    else if v == "tblLook"@ { LocalName::TblLook }
    else if v == "firstRow"@ { LocalName::FirstRow }
    else if v == "lastRow"@ { LocalName::LastRow }
    else if v == "firstColumn"@ { LocalName::FirstColumn }
    else if v == "lastColumn"@ { LocalName::LastColumn }
    else if v == "noHBand"@ { LocalName::NoHBand }
    else if v == "noVBand"@ { LocalName::NoVBand }
    else if v == "tblHeader"@ { LocalName::TblHeader }
    else if v == "tcW"@ { LocalName::TcW }
    else if v == "blip"@ { LocalName::Blip }
    else if v == "embed"@ { LocalName::Embed }
    else if v == "link"@ { LocalName::Link }
    else if v == "srcRect"@ { LocalName::SrcRect }
    else if v == "fillRect"@ { LocalName::FillRect }
    else if v == "l"@ { LocalName::L }
    else if v == "b"@ { LocalName::B }
    else if v == "extLst"@ { LocalName::ExtLst }
    else if v == "ext"@ { LocalName::Ext }
    else if v == "svgBlip"@ { LocalName::SvgBlip }
    else if v == "hdr"@ { LocalName::Hdr }
    else if v == "ftr"@ { LocalName::Ftr }
    else if v == "inline"@ { LocalName::Inline }
    else if v == "extent"@ { LocalName::Extent }
    else if v == "effectExtent"@ { LocalName::EffectExtent }
    else if v == "docPr"@ { LocalName::DocPr }
    else if v == "cNvGraphicFramePr"@ { LocalName::CNvGraphicFramePr }
    else if v == "graphic"@ { LocalName::Graphic }
    else if v == "xfrm"@ { LocalName::Xfrm }
    else if v == "blipFill"@ { LocalName::BlipFill }
    else if v == "solidFill"@ { LocalName::SolidFill }
    else if v == "noFill"@ { LocalName::NoFill }
    else if v == "gradFill"@ { LocalName::GradFill }
    else if v == "srgbClr"@ { LocalName::SrgbClr }
    else if v == "wrapNone"@ { LocalName::WrapNone }
    else if v == "wrapSquare"@ { LocalName::WrapSquare }
    else if v == "wrapTight"@ { LocalName::WrapTight }
    else if v == "wrapThrough"@ { LocalName::WrapThrough }
    else if v == "wrapTopAndBottom"@ { LocalName::WrapTopAndBottom }
    else if v == "wrapPolygon"@ { LocalName::WrapPolygon }
    else if v == "wrapText"@ { LocalName::WrapText }
    else if v == "edited"@ { LocalName::Edited }
    else if v == "start"@ { LocalName::Start }
    else if v == "lineTo"@ { LocalName::LineTo }
    else if v == "x"@ { LocalName::X }
    else if v == "y"@ { LocalName::Y }
    else if v == "distT"@ { LocalName::DistT }
    else if v == "distB"@ { LocalName::DistB }
    else if v == "distL"@ { LocalName::DistL }
    else if v == "distR"@ { LocalName::DistR }
    else if v == "simplePos"@ { LocalName::SimplePos }
    else if v == "relativeHeight"@ { LocalName::RelativeHeight }
    else if v == "behindDoc"@ { LocalName::BehindDoc }
    else if v == "locked"@ { LocalName::Locked }
    else if v == "layoutInCell"@ { LocalName::LayoutInCell }
    else if v == "allowOverlap"@ { LocalName::AllowOverlap }
    else if v == "positionH"@ { LocalName::PositionH }
    else if v == "positionV"@ { LocalName::PositionV }
    else if v == "relativeFrom"@ { LocalName::RelativeFrom }
    else if v == "posOffset"@ { LocalName::PosOffset }
    else if v == "align"@ { LocalName::Align }
    else if v == "rot"@ { LocalName::Rot }
    else if v == "flipH"@ { LocalName::FlipH }
    else if v == "flipV"@ { LocalName::FlipV }
    else if v == "cx"@ { LocalName::Cx }
    else if v == "cy"@ { LocalName::Cy }
    else if v == "spPr"@ { LocalName::SpPr }
    else if v == "ln"@ { LocalName::Ln }
    else if v == "background"@ { LocalName::Background }
    else if v == "color"@ { LocalName::Color }
    else if v == "sym"@ { LocalName::Sym }
    else if v == "font"@ { LocalName::Font }
    else if v == "char"@ { LocalName::Char }
    else if v == "clear"@ { LocalName::Clear }
    else if v == "footnoteReference"@ { LocalName::FootnoteReference }
    else if v == "endnoteReference"@ { LocalName::EndnoteReference }
    else { LocalName::Unknown }
}

/// Lexical local name → known local name.
pub fn local_of(v: &Vec<char>) -> (r: LocalName)
    ensures
        r == spec_local_of(v@),
{
    if chars_eq(v, "t") { LocalName::T }
    else if chars_eq(v, "r") { LocalName::R }
    else if chars_eq(v, "p") { LocalName::P }
    else if chars_eq(v, "document") { LocalName::Document }
    else if chars_eq(v, "body") { LocalName::Body }
    else if chars_eq(v, "tab") { LocalName::Tab }
    else if chars_eq(v, "br") { LocalName::Br }
    else if chars_eq(v, "cr") { LocalName::Cr }
    else if chars_eq(v, "type") { LocalName::Type }
    else if chars_eq(v, "delText") { LocalName::DelText }
    else if chars_eq(v, "instrText") { LocalName::InstrText }
    else if chars_eq(v, "delInstrText") { LocalName::DelInstrText }
    else if chars_eq(v, "id") { LocalName::Id }
    else if chars_eq(v, "author") { LocalName::Author }
    else if chars_eq(v, "date") { LocalName::Date }
    else if chars_eq(v, "hyperlink") { LocalName::Hyperlink }
    else if chars_eq(v, "anchor") { LocalName::Anchor }
    else if chars_eq(v, "tooltip") { LocalName::Tooltip }
    else if chars_eq(v, "ins") { LocalName::Ins }
    else if chars_eq(v, "del") { LocalName::Del }
    else if chars_eq(v, "moveFrom") { LocalName::MoveFrom }
    else if chars_eq(v, "moveTo") { LocalName::MoveTo }
    else if chars_eq(v, "moveFromRangeStart") { LocalName::MoveFromRangeStart }
    else if chars_eq(v, "rStyle") { LocalName::RStyle }
    else if chars_eq(v, "chart") { LocalName::Chart }
    else if chars_eq(v, "title") { LocalName::Title }
    else if chars_eq(v, "tx") { LocalName::Tx }
    else if chars_eq(v, "rich") { LocalName::Rich }
    else if chars_eq(v, "bodyPr") { LocalName::BodyPr }
    else if chars_eq(v, "lstStyle") { LocalName::LstStyle }
    else if chars_eq(v, "overlay") { LocalName::Overlay }
    else if chars_eq(v, "endParaRPr") { LocalName::EndParaRPr }
    else if chars_eq(v, "annotationRef") { LocalName::AnnotationRef }
    else if chars_eq(v, "paraId") { LocalName::ParaId }
    else if chars_eq(v, "moveToRangeStart") { LocalName::MoveToRangeStart }
    else if chars_eq(v, "fldChar") { LocalName::FldChar }
    else if chars_eq(v, "fldCharType") { LocalName::FldCharType }
    else if chars_eq(v, "dirty") { LocalName::Dirty }
    else if chars_eq(v, "space") { LocalName::Space }
    else if chars_eq(v, "settings") { LocalName::Settings }
    else if chars_eq(v, "removePersonalInformation") { LocalName::RemovePersonalInformation }
    else if chars_eq(v, "removeDateAndTime") { LocalName::RemoveDateAndTime }
    else if chars_eq(v, "proofErr") { LocalName::ProofErr }
    else if chars_eq(v, "bookmarkStart") { LocalName::BookmarkStart }
    else if chars_eq(v, "bookmarkEnd") { LocalName::BookmarkEnd }
    else if chars_eq(v, "name") { LocalName::Name }
    else if chars_eq(v, "commentRangeStart") { LocalName::CommentRangeStart }
    else if chars_eq(v, "commentRangeEnd") { LocalName::CommentRangeEnd }
    else if chars_eq(v, "commentReference") { LocalName::CommentReference }
    else if chars_eq(v, "rPr") { LocalName::RPr }
    else if chars_eq(v, "pPr") { LocalName::PPr }
    else if chars_eq(v, "sectPr") { LocalName::SectPr }
    else if chars_eq(v, "numPr") { LocalName::NumPr }
    else if chars_eq(v, "rPrChange") { LocalName::RPrChange }
    else if chars_eq(v, "pPrChange") { LocalName::PPrChange }
    else if chars_eq(v, "sectPrChange") { LocalName::SectPrChange }
    else if chars_eq(v, "tblPrChange") { LocalName::TblPrChange }
    else if chars_eq(v, "tblPrExChange") { LocalName::TblPrExChange }
    else if chars_eq(v, "tblGridChange") { LocalName::TblGridChange }
    else if chars_eq(v, "trPrChange") { LocalName::TrPrChange }
    else if chars_eq(v, "tcPrChange") { LocalName::TcPrChange }
    else if chars_eq(v, "numberingChange") { LocalName::NumberingChange }
    else if chars_eq(v, "tbl") { LocalName::Tbl }
    else if chars_eq(v, "tr") { LocalName::Tr }
    else if chars_eq(v, "tc") { LocalName::Tc }
    else if chars_eq(v, "tblPr") { LocalName::TblPr }
    else if chars_eq(v, "trPr") { LocalName::TrPr }
    else if chars_eq(v, "tcPr") { LocalName::TcPr }
    else if chars_eq(v, "tblPrEx") { LocalName::TblPrEx }
    else if chars_eq(v, "tblGrid") { LocalName::TblGrid }
    else if chars_eq(v, "gridCol") { LocalName::GridCol }
    else if chars_eq(v, "gridSpan") { LocalName::GridSpan }
    else if chars_eq(v, "gridBefore") { LocalName::GridBefore }
    else if chars_eq(v, "gridAfter") { LocalName::GridAfter }
    else if chars_eq(v, "vMerge") { LocalName::VMerge }
    else if chars_eq(v, "val") { LocalName::Val }
    else if chars_eq(v, "w") { LocalName::W }
    else if chars_eq(v, "headerReference") { LocalName::HeaderReference }
    else if chars_eq(v, "footerReference") { LocalName::FooterReference }
    else if chars_eq(v, "cellIns") { LocalName::CellIns }
    else if chars_eq(v, "cellDel") { LocalName::CellDel }
    else if chars_eq(v, "cellMerge") { LocalName::CellMerge }
    else if chars_eq(v, "headers") { LocalName::Headers }
    else if chars_eq(v, "drawing") { LocalName::Drawing }
    else if chars_eq(v, "pict") { LocalName::Pict }
    else if chars_eq(v, "Relationship") { LocalName::Relationship }
    else if chars_eq(v, "Relationships") { LocalName::Relationships }
    else if chars_eq(v, "Override") { LocalName::Override }
    else if chars_eq(v, "Default") { LocalName::UDefault }
    else if chars_eq(v, "Extension") { LocalName::UExtension }
    else if chars_eq(v, "PartName") { LocalName::PartName }
    else if chars_eq(v, "ContentType") { LocalName::ContentType }
    else if chars_eq(v, "Id") { LocalName::UId }
    else if chars_eq(v, "Type") { LocalName::UType }
    else if chars_eq(v, "Target") { LocalName::Target }
    else if chars_eq(v, "TargetMode") { LocalName::TargetMode }
    else if chars_eq(v, "Types") { LocalName::Types }
    else if chars_eq(v, "AlternateContent") { LocalName::AlternateContent }
    else if chars_eq(v, "Choice") { LocalName::Choice }
    else if chars_eq(v, "Fallback") { LocalName::Fallback }
    else if chars_eq(v, "txbx") { LocalName::Txbx }
    else if chars_eq(v, "txbxContent") { LocalName::TxbxContent }
    else if chars_eq(v, "tblStyle") { LocalName::TblStyle }
    else if chars_eq(v, "tblW") { LocalName::TblW }
    else if chars_eq(v, "tblLook") { LocalName::TblLook }
    else if chars_eq(v, "firstRow") { LocalName::FirstRow }
    else if chars_eq(v, "lastRow") { LocalName::LastRow }
    else if chars_eq(v, "firstColumn") { LocalName::FirstColumn }
    else if chars_eq(v, "lastColumn") { LocalName::LastColumn }
    else if chars_eq(v, "noHBand") { LocalName::NoHBand }
    else if chars_eq(v, "noVBand") { LocalName::NoVBand }
    else if chars_eq(v, "tblHeader") { LocalName::TblHeader }
    else if chars_eq(v, "tcW") { LocalName::TcW }
    else if chars_eq(v, "blip") { LocalName::Blip }
    else if chars_eq(v, "embed") { LocalName::Embed }
    else if chars_eq(v, "link") { LocalName::Link }
    else if chars_eq(v, "srcRect") { LocalName::SrcRect }
    else if chars_eq(v, "fillRect") { LocalName::FillRect }
    else if chars_eq(v, "l") { LocalName::L }
    else if chars_eq(v, "b") { LocalName::B }
    else if chars_eq(v, "extLst") { LocalName::ExtLst }
    else if chars_eq(v, "ext") { LocalName::Ext }
    else if chars_eq(v, "svgBlip") { LocalName::SvgBlip }
    else if chars_eq(v, "hdr") { LocalName::Hdr }
    else if chars_eq(v, "ftr") { LocalName::Ftr }
    else if chars_eq(v, "inline") { LocalName::Inline }
    else if chars_eq(v, "extent") { LocalName::Extent }
    else if chars_eq(v, "effectExtent") { LocalName::EffectExtent }
    else if chars_eq(v, "docPr") { LocalName::DocPr }
    else if chars_eq(v, "cNvGraphicFramePr") { LocalName::CNvGraphicFramePr }
    else if chars_eq(v, "graphic") { LocalName::Graphic }
    else if chars_eq(v, "xfrm") { LocalName::Xfrm }
    else if chars_eq(v, "blipFill") { LocalName::BlipFill }
    else if chars_eq(v, "solidFill") { LocalName::SolidFill }
    else if chars_eq(v, "noFill") { LocalName::NoFill }
    else if chars_eq(v, "gradFill") { LocalName::GradFill }
    else if chars_eq(v, "srgbClr") { LocalName::SrgbClr }
    else if chars_eq(v, "wrapNone") { LocalName::WrapNone }
    else if chars_eq(v, "wrapSquare") { LocalName::WrapSquare }
    else if chars_eq(v, "wrapTight") { LocalName::WrapTight }
    else if chars_eq(v, "wrapThrough") { LocalName::WrapThrough }
    else if chars_eq(v, "wrapTopAndBottom") { LocalName::WrapTopAndBottom }
    else if chars_eq(v, "wrapPolygon") { LocalName::WrapPolygon }
    else if chars_eq(v, "wrapText") { LocalName::WrapText }
    else if chars_eq(v, "edited") { LocalName::Edited }
    else if chars_eq(v, "start") { LocalName::Start }
    else if chars_eq(v, "lineTo") { LocalName::LineTo }
    else if chars_eq(v, "x") { LocalName::X }
    else if chars_eq(v, "y") { LocalName::Y }
    else if chars_eq(v, "distT") { LocalName::DistT }
    else if chars_eq(v, "distB") { LocalName::DistB }
    else if chars_eq(v, "distL") { LocalName::DistL }
    else if chars_eq(v, "distR") { LocalName::DistR }
    else if chars_eq(v, "simplePos") { LocalName::SimplePos }
    else if chars_eq(v, "relativeHeight") { LocalName::RelativeHeight }
    else if chars_eq(v, "behindDoc") { LocalName::BehindDoc }
    else if chars_eq(v, "locked") { LocalName::Locked }
    else if chars_eq(v, "layoutInCell") { LocalName::LayoutInCell }
    else if chars_eq(v, "allowOverlap") { LocalName::AllowOverlap }
    else if chars_eq(v, "positionH") { LocalName::PositionH }
    else if chars_eq(v, "positionV") { LocalName::PositionV }
    else if chars_eq(v, "relativeFrom") { LocalName::RelativeFrom }
    else if chars_eq(v, "posOffset") { LocalName::PosOffset }
    else if chars_eq(v, "align") { LocalName::Align }
    else if chars_eq(v, "rot") { LocalName::Rot }
    else if chars_eq(v, "flipH") { LocalName::FlipH }
    else if chars_eq(v, "flipV") { LocalName::FlipV }
    else if chars_eq(v, "cx") { LocalName::Cx }
    else if chars_eq(v, "cy") { LocalName::Cy }
    else if chars_eq(v, "spPr") { LocalName::SpPr }
    else if chars_eq(v, "ln") { LocalName::Ln }
    else if chars_eq(v, "background") { LocalName::Background }
    else if chars_eq(v, "color") { LocalName::Color }
    else if chars_eq(v, "sym") { LocalName::Sym }
    else if chars_eq(v, "font") { LocalName::Font }
    else if chars_eq(v, "char") { LocalName::Char }
    else if chars_eq(v, "clear") { LocalName::Clear }
    else if chars_eq(v, "footnoteReference") { LocalName::FootnoteReference }
    else if chars_eq(v, "endnoteReference") { LocalName::EndnoteReference }
    else { LocalName::Unknown }
}

/// Characters allowed in an XML name (ASCII subset plus anything non-ASCII).
pub open spec fn spec_name_char(c: char) -> bool {
    ('a' <= c <= 'z') || ('A' <= c <= 'Z') || ('0' <= c <= '9') || c == '_' || c == '-' || c == '.'
        || c == ':' || (c as u32) >= 0x80
}

fn name_char(c: char) -> (r: bool)
    ensures
        r == spec_name_char(c),
{
    ('a' <= c && c <= 'z') || ('A' <= c && c <= 'Z') || ('0' <= c && c <= '9') || c == '_' || c == '-'
        || c == '.' || c == ':' || (c as u32) >= 0x80
}

fn is_ws(c: char) -> (r: bool)
    ensures
        r == (c == ' ' || c == '\t' || c == '\n' || c == '\r'),
{
    c == ' ' || c == '\t' || c == '\n' || c == '\r'
}

/// An XML white-space character.
pub open spec fn xml_ws(c: char) -> bool {
    c == ' ' || c == '\t' || c == '\n' || c == '\r'
}

/// The first position at or after `p` that holds no white space.
pub open spec fn ws_end(cs: Seq<char>, p: int) -> int
    decreases cs.len() - p,
{
    if 0 <= p < cs.len() && xml_ws(cs[p]) { ws_end(cs, p + 1) } else { p }
}

fn skip_ws(cs: &Vec<char>, pos: usize) -> (r: usize)
    requires
        pos <= cs@.len(),
    ensures
        r == ws_end(cs@, pos as int),
        pos <= r <= cs@.len(),
        forall|i: int| pos <= i < r ==> xml_ws(#[trigger] cs@[i]),
        r < cs@.len() ==> !xml_ws(cs@[r as int]),
{
    let mut p = pos;
    while p < cs.len() && is_ws(cs[p])
        invariant
            pos <= p <= cs@.len(),
            forall|i: int| pos <= i < p ==> xml_ws(#[trigger] cs@[i]),
            ws_end(cs@, pos as int) == ws_end(cs@, p as int),
        decreases cs@.len() - p,
    {
        p = p + 1;
    }
    p
}

/// `lit` occurs in `cs` at `p`.
pub open spec fn occurs_at(cs: Seq<char>, p: int, lit: Seq<char>) -> bool {
    0 <= p && p + lit.len() <= cs.len() && cs.subrange(p, p + lit.len()) == lit
}

/// The first position at or after `q` where `lit` occurs.
pub open spec fn find_lit(cs: Seq<char>, q: int, lit: Seq<char>) -> Option<int>
    decreases cs.len() - q,
{
    if q < 0 || q >= cs.len() {
        None
    } else if occurs_at(cs, q, lit) {
        Some(q)
    } else {
        find_lit(cs, q + 1, lit)
    }
}

/// The position right after the first occurrence of a non-empty `lit` at or after `q`.
pub open spec fn past(cs: Seq<char>, q: int, lit: Seq<char>) -> Option<int> {
    if lit.len() == 0 {
        None
    } else {
        match find_lit(cs, q, lit) {
            Some(k) => Some(k + lit.len()),
            None => None,
        }
    }
}

/// The position right after the first occurrence of `lit` at or after `pos`.
fn skip_past(cs: &Vec<char>, pos: usize, lit: &str) -> (r: Option<usize>)
    requires
        pos <= cs@.len(),
    ensures
        match past(cs@, pos as int, lit@) {
            Some(e) => r matches Some(x) && x as int == e,
            None => r is None,
        },
        r matches Some(p) ==> pos < p <= cs@.len() && lit@.len() > 0 && occurs_at(cs@, p - lit@.len(), lit@)
            && forall|q: int| pos <= q < p - lit@.len() ==> !occurs_at(cs@, q, lit@),
        r is None ==> lit@.len() == 0 || forall|q: int| pos <= q ==> !occurs_at(cs@, q, lit@),
{
    let n = lit.unicode_len();
    if n == 0 {
        return None;
    }
    let mut p = pos;
    while p < cs.len()
        invariant
            pos <= p <= cs@.len(),
            n == lit@.len(),
            n > 0,
            forall|q: int| pos <= q < p ==> !occurs_at(cs@, q, lit@),
            find_lit(cs@, pos as int, lit@) == find_lit(cs@, p as int, lit@),
        decreases cs@.len() - p,
    {
        if at_lit(cs, p, lit) {
            return Some(p + n);
        }
        p = p + 1;
    }
    None
}

/// The first `:` in `cs[from..to]`.
pub open spec fn first_colon(cs: Seq<char>, from: int, to: int) -> Option<int>
    decreases to - from,
{
    if to <= from {
        None
    } else {
        match first_colon(cs, from, to - 1) {
            Some(c) => Some(c),
            None => if cs[to - 1] == ':' { Some(to - 1) } else { None },
        }
    }
}

proof fn lemma_first_colon_range(cs: Seq<char>, from: int, to: int)
    ensures
        first_colon(cs, from, to) matches Some(c) ==> from <= c < to && cs[c] == ':',
    decreases to - from,
{
    if to > from {
        lemma_first_colon_range(cs, from, to - 1);
    }
}

/// `e` ends the run of name characters that starts at `pos`.
pub open spec fn name_end(cs: Seq<char>, pos: int, e: int) -> bool {
    &&& pos <= e <= cs.len()
    &&& forall|i: int| pos <= i < e ==> spec_name_char(#[trigger] cs[i])
    &&& e < cs.len() ==> !spec_name_char(cs[e])
}

/// A name starting at `pos`: `(prefix, local, end)`; the prefix is what comes before the
/// first colon (empty without one), the local name what follows it. `None` when no name
/// character is at `pos`.
fn read_name(cs: &Vec<char>, pos: usize) -> (r: Option<(Vec<char>, Vec<char>, usize)>)
    requires
        pos <= cs@.len(),
    ensures
        r is None <==> pos == cs@.len() || !spec_name_char(cs@[pos as int]),
        r matches Some((prefix, local, e)) ==> pos < e <= cs@.len() && name_end(cs@, pos as int, e as int)
            && match first_colon(cs@, pos as int, e as int) {
                Some(c) => prefix@ == cs@.subrange(pos as int, c) && local@ == cs@.subrange(c + 1, e as int),
                None => prefix@.len() == 0 && local@ == cs@.subrange(pos as int, e as int),
            },
{
    let mut p = pos;
    let mut colon: Option<usize> = None;
    while p < cs.len() && name_char(cs[p])
        invariant
            pos <= p <= cs@.len(),
            forall|i: int| pos <= i < p ==> spec_name_char(#[trigger] cs@[i]),
            match first_colon(cs@, pos as int, p as int) {
                Some(c) => colon == Some(c as usize),
                None => colon is None,
            },
            colon matches Some(c) ==> pos <= c < p,
        decreases cs@.len() - p,
    {
        if cs[p] == ':' && colon.is_none() {
            colon = Some(p);
        }
        p = p + 1;
    }
    if p == pos {
        return None;
    }
    let mut prefix: Vec<char> = Vec::new();
    let mut local: Vec<char> = Vec::new();
    let start_local = match colon {
        Some(c) => {
            let mut i = pos;
            while i < c
                invariant
                    pos <= i <= c <= cs@.len(),
                    prefix@ == cs@.subrange(pos as int, i as int),
                decreases c - i,
            {
                prefix.push(cs[i]);
                proof {
                    assert(cs@.subrange(pos as int, i + 1) =~= cs@.subrange(pos as int, i as int).push(cs@[i as int]));
                }
                i = i + 1;
            }
            c + 1
        },
        None => pos,
    };
    let mut i = start_local;
    while i < p
        invariant
            start_local <= i <= p <= cs@.len(),
            local@ == cs@.subrange(start_local as int, i as int),
        decreases p - i,
    {
        local.push(cs[i]);
        proof {
            assert(cs@.subrange(start_local as int, i + 1) =~= cs@.subrange(start_local as int, i as int).push(cs@[i as int]));
        }
        i = i + 1;
    }
    proof {
        if colon is None {
            assert(prefix@ =~= Seq::<char>::empty());
        }
        assert(name_end(cs@, pos as int, p as int));
        lemma_first_colon_range(cs@, pos as int, p as int);
        match first_colon(cs@, pos as int, p as int) {
            Some(c) => {
                assert(colon == Some(c as usize));
                assert(prefix@ == cs@.subrange(pos as int, c));
                assert(local@ == cs@.subrange(c + 1, p as int));
            },
            None => {},
        }
    }
    Some((prefix, local, p))
}

/// The first `;` in `cs[j..to]`.
pub open spec fn semi_from(cs: Seq<char>, j: int, to: int) -> Option<int>
    decreases to - j,
{
    if j >= to {
        None
    } else if cs[j] == ';' {
        Some(j)
    } else {
        semi_from(cs, j + 1, to)
    }
}

/// The character of the entity or character reference `cs[i..=j]` (`&` at `i`, `;` at `j`).
pub open spec fn entity_char(cs: Seq<char>, i: int, j: int) -> Option<char> {
    if j - i == 3 && cs[i + 1] == 'l' && cs[i + 2] == 't' {
        Some('<')
    } else if j - i == 3 && cs[i + 1] == 'g' && cs[i + 2] == 't' {
        Some('>')
    } else if j - i == 4 && occurs_at(cs, i, "&amp;"@) {
        Some('&')
    } else if j - i == 5 && occurs_at(cs, i, "&quot;"@) {
        Some('"')
    } else if j - i == 5 && occurs_at(cs, i, "&apos;"@) {
        Some('\'')
    } else if j - i > 2 && cs[i + 1] == '#' {
        match ref_code(cs.subrange(i + 2, j)) {
            Some(v) => Some((v as u32) as char),
            None => None,
        }
    } else {
        None
    }
}

/// The text of `cs[i..to]` with its references replaced by their characters; `None` when a
/// `&` has no `;` after it or starts no known reference.
pub open spec fn decode_from(cs: Seq<char>, i: int, to: int) -> Option<Seq<char>>
    decreases to - i,
{
    if i >= to {
        Some(seq![])
    } else if cs[i] == '&' {
        match semi_from(cs, i + 1, to) {
            None => None,
            Some(j) => if j <= i || j >= to {
                None
            } else {
                match entity_char(cs, i, j) {
                    None => None,
                    Some(c) => match decode_from(cs, j + 1, to) {
                        Some(rest) => Some(seq![c] + rest),
                        None => None,
                    },
                }
            },
        }
    } else {
        match decode_from(cs, i + 1, to) {
            Some(rest) => Some(seq![cs[i]] + rest),
            None => None,
        }
    }
}

proof fn lemma_semi_from_range(cs: Seq<char>, j: int, to: int)
    ensures
        semi_from(cs, j, to) matches Some(k) ==> j <= k < to && cs[k] == ';',
    decreases to - j,
{
    if j < to && cs[j] != ';' {
        lemma_semi_from_range(cs, j + 1, to);
    }
}

/// Decodes `cs[from..to]` with the five predefined entities and character references.
fn decode(cs: &Vec<char>, from: usize, to: usize) -> (r: Option<String>)
    requires
        from <= to <= cs@.len(),
    ensures
        match decode_from(cs@, from as int, to as int) {
            Some(t) => r matches Some(s) && s@ == t,
            None => r is None,
        },
{
    let mut s = String::new();
    let mut i = from;
    while i < to
        invariant
            from <= i <= to <= cs@.len(),
            decode_from(cs@, from as int, to as int) == (match decode_from(cs@, i as int, to as int) {
                Some(rest) => Some(s@ + rest),
                None => None::<Seq<char>>,
            }),
        decreases to - i,
    {
        let c = cs[i];
        if c == '&' {
            let mut j = i + 1;
            while j < to && cs[j] != ';'
                invariant
                    i < j <= to <= cs@.len(),
                    semi_from(cs@, i + 1, to as int) == semi_from(cs@, j as int, to as int),
                decreases to - j,
            {
                j = j + 1;
            }
            if j >= to {
                return None;
            }
            proof {
                assert(semi_from(cs@, i + 1, to as int) == Some(j as int));
            }
            let ch = if j - i == 3 && cs[i + 1] == 'l' && cs[i + 2] == 't' {
                Some('<')
            } else if j - i == 3 && cs[i + 1] == 'g' && cs[i + 2] == 't' {
                Some('>')
            } else if j - i == 4 && at_lit(cs, i, "&amp;") {
                Some('&')
            } else if j - i == 5 && at_lit(cs, i, "&quot;") {
                Some('"')
            } else if j - i == 5 && at_lit(cs, i, "&apos;") {
                Some('\'')
            } else if j - i > 2 && cs[i + 1] == '#' {
                char_ref(cs, i + 2, j)
            } else {
                None
            };
            proof {
                match ch {
                    Some(x) => {
                        if !(j - i == 3 && cs@[i + 1] == 'l' && cs@[i + 2] == 't') && !(j - i == 3 && cs@[i + 1] == 'g' && cs@[i + 2] == 't')
                            && !(j - i == 4 && occurs_at(cs@, i as int, "&amp;"@)) && !(j - i == 5 && occurs_at(cs@, i as int, "&quot;"@))
                            && !(j - i == 5 && occurs_at(cs@, i as int, "&apos;"@)) {
                            vstd::utf8::char_u32_cast(x, x as u32);
                        }
                        assert(entity_char(cs@, i as int, j as int) == Some(x));
                    },
                    None => {
                        assert(entity_char(cs@, i as int, j as int) is None);
                    },
                }
            }
            match ch {
                Some(ch) => {
                    let ghost prev = s@;
                    crate::text::push_char(&mut s, ch);
                    proof {
                        assert(prev + (seq![ch] + decode_from(cs@, j + 1, to as int).unwrap_or(seq![])) =~= s@ + decode_from(cs@, j + 1, to as int).unwrap_or(seq![]));
                    }
                },
                None => {
                    return None;
                },
            }
            i = j + 1;
        } else {
            let ghost prev = s@;
            crate::text::push_char(&mut s, c);
            proof {
                assert(prev + (seq![c] + decode_from(cs@, i + 1, to as int).unwrap_or(seq![])) =~= s@ + decode_from(cs@, i + 1, to as int).unwrap_or(seq![]));
            }
            i = i + 1;
        }
    }
    proof {
        assert(s@ + Seq::<char>::empty() =~= s@);
    }
    Some(s)
}

/// The value of a digit in base 16 (`hex`) or 10.
pub open spec fn digit_of(c: char, hex: bool) -> Option<nat> {
    if '0' <= c <= '9' {
        Some((c as nat - 48) as nat)
    } else if hex && 'a' <= c <= 'f' {
        Some((c as nat - 87) as nat)
    } else if hex && 'A' <= c <= 'F' {
        Some((c as nat - 55) as nat)
    } else {
        None
    }
}

/// The value of a string of digits in base 16 (`hex`) or 10.
pub open spec fn num_value(ds: Seq<char>, hex: bool) -> Option<nat>
    decreases ds.len(),
{
    if ds.len() == 0 {
        Some(0)
    } else {
        match (num_value(ds.drop_last(), hex), digit_of(ds.last(), hex)) {
            (Some(v), Some(d)) => Some(v * (if hex { 16nat } else { 10nat }) + d),
            _ => None,
        }
    }
}

/// The code point of a character reference (what stands between `&#` and `;`): decimal
/// digits, or `x` and hexadecimal digits, naming a Unicode scalar value.
pub open spec fn ref_code(t: Seq<char>) -> Option<nat> {
    let hex = t.len() > 0 && t[0] == 'x';
    let ds = if hex { t.drop_first() } else { t };
    if ds.len() == 0 {
        None
    } else {
        match num_value(ds, hex) {
            Some(v) => if v <= 0x10FFFF && !(0xD800 <= v <= 0xDFFF) { Some(v) } else { None },
            None => None,
        }
    }
}

proof fn lemma_num_value_mono(ds: Seq<char>, hex: bool, j: int)
    requires
        0 <= j <= ds.len(),
        num_value(ds, hex) is Some,
    ensures
        num_value(ds.take(j), hex) matches Some(u) && u <= num_value(ds, hex).unwrap(),
    decreases ds.len(),
{
    if j < ds.len() {
        assert(ds.drop_last().take(j) =~= ds.take(j));
        lemma_num_value_mono(ds.drop_last(), hex, j);
        let v = num_value(ds.drop_last(), hex).unwrap();
        let d = digit_of(ds.last(), hex).unwrap();
        let b: nat = if hex { 16nat } else { 10nat };
        assert(v * b + d >= v) by (nonlinear_arith)
            requires
                b >= 1;
    } else {
        assert(ds.take(j) =~= ds);
    }
}

/// `#NNN` / `#xHH` (the part between `&#` and `;`).
fn char_ref(cs: &Vec<char>, from: usize, to: usize) -> (r: Option<char>)
    requires
        from <= to <= cs@.len(),
    ensures
        match ref_code(cs@.subrange(from as int, to as int)) {
            Some(v) => r matches Some(c) && c as u32 == v,
            None => r is None,
        },
{
    let ghost t = cs@.subrange(from as int, to as int);
    let hex = from < to && cs[from] == 'x';
    let start = if hex { from + 1 } else { from };
    let ghost ds = cs@.subrange(start as int, to as int);
    proof {
        if hex {
            assert(t.drop_first() =~= ds);
        } else {
            assert(t =~= ds);
        }
    }
    let mut i = start;
    if i >= to {
        return None;
    }
    let mut v: u32 = 0;
    proof {
        assert(ds.take(0) =~= Seq::<char>::empty());
    }
    while i < to
        invariant
            from <= start <= i <= to <= cs@.len(),
            ds == cs@.subrange(start as int, to as int),
            hex == (t.len() > 0 && t[0] == 'x'),
            t == cs@.subrange(from as int, to as int),
            ds.len() > 0,
            ds == (if hex { t.drop_first() } else { t }),
            num_value(ds.take(i - start), hex) == Some(v as nat),
        decreases to - i,
    {
        let c = cs[i];
        proof {
            assert(ds.take(i - start + 1).drop_last() =~= ds.take(i - start));
            assert(ds.take(i - start + 1).last() == c);
        }
        let d: u32 = if '0' <= c && c <= '9' {
            (c as u32) - 48
        } else if hex && 'a' <= c && c <= 'f' {
            (c as u32) - 87
        } else if hex && 'A' <= c && c <= 'F' {
            (c as u32) - 55
        } else {
            proof {
                assert(num_value(ds.take(i - start + 1), hex) is None);
                if num_value(ds, hex) is Some {
                    lemma_num_value_mono(ds, hex, i - start + 1);
                }
            }
            return None;
        };
        let base: u32 = if hex { 16 } else { 10 };
        if v > 0x10FFFF {
            proof {
                if num_value(ds, hex) is Some {
                    lemma_num_value_mono(ds, hex, i - start);
                }
            }
            return None;
        }
        assert(v * base + d <= 0x10FFFF * 16 + 15) by (nonlinear_arith)
            requires
                v <= 0x10FFFF,
                base <= 16,
                d <= 15;
        v = v * base + d;
        i = i + 1;
    }
    proof {
        assert(ds.take(to - start) =~= ds);
    }
    char_from_code(v)
}

/// A start tag's parts: lexical names of the element and its attributes with raw values.
struct Tag {
    prefix: Vec<char>,
    local: Vec<char>,
    attrs: Vec<(Vec<char>, Vec<char>, String)>,
    self_closing: bool,
    end: usize,
}

/// The first position at or after `p` that holds no name character.
pub open spec fn name_stop(cs: Seq<char>, p: int) -> int
    decreases cs.len() - p,
{
    if 0 <= p < cs.len() && spec_name_char(cs[p]) { name_stop(cs, p + 1) } else { p }
}

proof fn lemma_name_stop(cs: Seq<char>, p: int, e: int)
    requires
        0 <= p,
        name_end(cs, p, e),
    ensures
        name_stop(cs, p) == e,
    decreases e - p,
{
    if p < e {
        lemma_name_stop(cs, p + 1, e);
    }
}

/// The name that starts at `pos`: prefix, local name and end (see `read_name`).
pub open spec fn name_at(cs: Seq<char>, pos: int) -> Option<(Seq<char>, Seq<char>, int)> {
    let e = name_stop(cs, pos);
    if e <= pos {
        None
    } else {
        match first_colon(cs, pos, e) {
            Some(c) => Some((cs.subrange(pos, c), cs.subrange(c + 1, e), e)),
            None => Some((Seq::empty(), cs.subrange(pos, e), e)),
        }
    }
}

/// The first `quote` at or after `k`.
pub open spec fn quote_from(cs: Seq<char>, k: int, quote: char) -> Option<int>
    decreases cs.len() - k,
{
    if k < 0 || k >= cs.len() {
        None
    } else if cs[k] == quote {
        Some(k)
    } else {
        quote_from(cs, k + 1, quote)
    }
}

/// The attributes of a start tag from `p` on, as (prefix, local name, decoded value), then
/// whether the tag closes itself and where it ends; `None` when it is malformed.
pub open spec fn tag_rest(cs: Seq<char>, p: int) -> Option<(Seq<(Seq<char>, Seq<char>, Seq<char>)>, bool, int)>
    decreases cs.len() - p,
{
    let q = ws_end(cs, p);
    if q < 0 || q >= cs.len() {
        None
    } else if cs[q] == '>' {
        Some((seq![], false, q + 1))
    } else if cs[q] == '/' && q + 1 < cs.len() && cs[q + 1] == '>' {
        Some((seq![], true, q + 2))
    } else if q == p {
        None
    } else {
        match name_at(cs, q) {
            None => None,
            Some((ap, al, e)) => {
                let e2 = ws_end(cs, e);
                if e2 < 0 || e2 >= cs.len() || cs[e2] != '=' {
                    None
                } else {
                    let e3 = ws_end(cs, e2 + 1);
                    if e3 < 0 || e3 >= cs.len() || (cs[e3] != '"' && cs[e3] != '\'') {
                        None
                    } else {
                        match quote_from(cs, e3 + 1, cs[e3]) {
                            None => None,
                            Some(k) => match decode_from(cs, e3 + 1, k) {
                                None => None,
                                Some(v) => if p < k + 1 <= cs.len() {
                                    match tag_rest(cs, k + 1) {
                                        Some((rest, sc, end)) => Some((seq![(ap, al, v)] + rest, sc, end)),
                                        None => None,
                                    }
                                } else {
                                    None
                                },
                            },
                        }
                    }
                }
            },
        }
    }
}

/// The attribute triples of a parsed tag, as views.
pub open spec fn triple_views(a: Seq<(Vec<char>, Vec<char>, String)>) -> Seq<(Seq<char>, Seq<char>, Seq<char>)> {
    a.map_values(|x: (Vec<char>, Vec<char>, String)| (x.0@, x.1@, x.2@))
}

/// The start tag whose `<` is at `pos`: prefix, local name, attributes, whether it closes
/// itself, and where it ends.
pub open spec fn start_tag(cs: Seq<char>, pos: int) -> Option<(Seq<char>, Seq<char>, Seq<(Seq<char>, Seq<char>, Seq<char>)>, bool, int)> {
    match name_at(cs, pos + 1) {
        None => None,
        Some((pf, lc, p)) => match tag_rest(cs, p) {
            None => None,
            Some((attrs, sc, end)) => Some((pf, lc, attrs, sc, end)),
        },
    }
}

proof fn lemma_ws_end_ge(cs: Seq<char>, p: int)
    ensures
        ws_end(cs, p) >= p,
        ws_end(cs, p) < cs.len() && ws_end(cs, p) >= 0 ==> !xml_ws(cs[ws_end(cs, p)]),
        0 <= p <= cs.len() ==> ws_end(cs, p) <= cs.len(),
    decreases cs.len() - p,
{
    if 0 <= p < cs.len() && xml_ws(cs[p]) {
        lemma_ws_end_ge(cs, p + 1);
    }
}

/// Parses the start tag whose `<` is at `pos`.
fn read_start_tag(cs: &Vec<char>, pos: usize) -> (r: Option<Tag>)
    requires
        pos < cs.len(),
    ensures
        r matches Some(t) ==> pos < t.end <= cs@.len(),
        match start_tag(cs@, pos as int) {
            Some((pf, lc, attrs, sc, end)) => r matches Some(t) && t.prefix@ == pf && t.local@ == lc
                && triple_views(t.attrs@) == attrs && t.self_closing == sc && t.end as int == end,
            None => r is None,
        },
{
    let (prefix, local, mut p) = match read_name(cs, pos + 1) {
        Some(x) => x,
        None => {
            proof {
                if pos + 1 < cs@.len() {
                    assert(!spec_name_char(cs@[pos + 1]));
                }
                assert(name_stop(cs@, pos + 1) == pos + 1);
            }
            return None;
        },
    };
    proof {
        lemma_name_stop(cs@, pos + 1, p as int);
    }
    let mut attrs: Vec<(Vec<char>, Vec<char>, String)> = Vec::new();
    let ghost pf = prefix@;
    let ghost lc = local@;
    loop
        invariant
            pos < p <= cs@.len(),
            prefix@ == pf,
            local@ == lc,
            start_tag(cs@, pos as int) == (match tag_rest(cs@, p as int) {
                Some((rest, sc, end)) => Some((pf, lc, triple_views(attrs@) + rest, sc, end)),
                None => None,
            }),
        decreases cs@.len() - p,
    {
        let q = skip_ws(cs, p);
        proof {
            lemma_ws_end_ge(cs@, p as int);
        }
        if q >= cs.len() {
            return None;
        }
        if cs[q] == '>' {
            proof {
                assert(triple_views(attrs@) + Seq::<(Seq<char>, Seq<char>, Seq<char>)>::empty() =~= triple_views(attrs@));
            }
            return Some(Tag { prefix, local, attrs, self_closing: false, end: q + 1 });
        }
        if cs[q] == '/' && q + 1 < cs.len() && cs[q + 1] == '>' {
            proof {
                assert(triple_views(attrs@) + Seq::<(Seq<char>, Seq<char>, Seq<char>)>::empty() =~= triple_views(attrs@));
            }
            return Some(Tag { prefix, local, attrs, self_closing: true, end: q + 2 });
        }
        if q == p {
            return None;
        }
        let (ap, al, e) = match read_name(cs, q) {
            Some(x) => x,
            None => {
                proof {
                    assert(name_stop(cs@, q as int) == q);
                }
                return None;
            },
        };
        proof {
            lemma_name_stop(cs@, q as int, e as int);
            assert(name_at(cs@, q as int) == Some((ap@, al@, e as int)));
        }
        let e2 = skip_ws(cs, e);
        if e2 >= cs.len() || cs[e2] != '=' {
            return None;
        }
        let e3 = skip_ws(cs, e2 + 1);
        proof {
            lemma_ws_end_ge(cs@, e2 + 1);
        }
        if e3 >= cs.len() || (cs[e3] != '"' && cs[e3] != '\'') {
            return None;
        }
        let quote = cs[e3];
        let mut k = e3 + 1;
        while k < cs.len() && cs[k] != quote
            invariant
                e3 < k <= cs@.len(),
                quote_from(cs@, e3 + 1, quote) == quote_from(cs@, k as int, quote),
            decreases cs@.len() - k,
        {
            k = k + 1;
        }
        if k >= cs.len() {
            return None;
        }
        let value = match decode(cs, e3 + 1, k) {
            Some(v) => v,
            None => {
                return None;
            },
        };
        let ghost before = attrs@;
        attrs.push((ap, al, value));
        proof {
            assert(triple_views(attrs@) =~= triple_views(before).push((ap@, al@, value@)));
            let tr = tag_rest(cs@, (k + 1) as int);
            if let Some((rest, sc, end)) = tr {
                assert(triple_views(before) + (seq![(ap@, al@, value@)] + rest) =~= triple_views(attrs@) + rest);
            }
        }
        p = k + 1;
    }
}

/// The namespace bound to `prefix` among the first `k` bindings (the latest one wins).
pub open spec fn scope_lookup(s: Seq<(Vec<char>, NsId)>, prefix: Seq<char>, k: int) -> Option<NsId>
    decreases k,
{
    if k <= 0 {
        None
    } else if s[k - 1].0@ == prefix {
        Some(s[k - 1].1)
    } else {
        scope_lookup(s, prefix, k - 1)
    }
}

/// Namespace of a prefix in the scope list (innermost binding wins).
fn lookup(scopes: &Vec<(Vec<char>, NsId)>, prefix: &Vec<char>) -> (r: Option<NsId>)
    ensures
        r == scope_lookup(scopes@, prefix@, scopes@.len() as int),
{
    let mut i = scopes.len();
    while i > 0
        invariant
            i <= scopes@.len(),
            scope_lookup(scopes@, prefix@, scopes@.len() as int) == scope_lookup(scopes@, prefix@, i as int),
        decreases i,
    {
        i = i - 1;
        if vec_eq(&scopes[i].0, prefix) {
            return Some(scopes[i].1);
        }
    }
    None
}

/// The prefix an attribute name declares: `xmlns` the default one (empty), `xmlns:p` the
/// prefix `p`; `None` for any other attribute.
pub open spec fn declared_prefix(prefix: Seq<char>, local: Seq<char>) -> Option<Seq<char>> {
    if prefix.len() == 0 && local == "xmlns"@ {
        Some(Seq::empty())
    } else if prefix == "xmlns"@ {
        Some(local)
    } else {
        None
    }
}

fn is_xmlns(prefix: &Vec<char>, local: &Vec<char>) -> (r: Option<Vec<char>>)
    ensures
        match declared_prefix(prefix@, local@) {
            Some(p) => r matches Some(v) && v@ == p,
            None => r is None,
        },
{
    if prefix.len() == 0 && chars_eq(local, "xmlns") {
        Some(Vec::new())
    } else if chars_eq(prefix, "xmlns") {
        let mut v: Vec<char> = Vec::new();
        for i in 0..local.len()
            invariant
                v@ == local@.take(i as int),
        {
            v.push(local[i]);
            proof {
                assert(local@.take(i + 1) =~= local@.take(i as int).push(local@[i as int]));
            }
        }
        proof {
            assert(local@.take(local@.len() as int) =~= local@);
        }
        Some(v)
    } else {
        None
    }
}

/// The bindings of a scope list, as views.
pub open spec fn scope_views(s: Seq<(Vec<char>, NsId)>) -> Seq<(Seq<char>, NsId)> {
    s.map_values(|x: (Vec<char>, NsId)| (x.0@, x.1))
}

/// The namespace bound to `prefix` among the first `k` bindings (the latest one wins).
pub open spec fn lookup_view(s: Seq<(Seq<char>, NsId)>, prefix: Seq<char>, k: int) -> Option<NsId>
    decreases k,
{
    if k <= 0 {
        None
    } else if s[k - 1].0 == prefix {
        Some(s[k - 1].1)
    } else {
        lookup_view(s, prefix, k - 1)
    }
}

proof fn lemma_lookup_view(s: Seq<(Vec<char>, NsId)>, prefix: Seq<char>, k: int)
    requires
        k <= s.len(),
    ensures
        scope_lookup(s, prefix, k) == lookup_view(scope_views(s), prefix, k),
    decreases k,
{
    if k > 0 {
        lemma_lookup_view(s, prefix, k - 1);
    }
}

/// The namespace declarations among attribute triples, in order: (prefix, namespace).
pub open spec fn decls(a: Seq<(Seq<char>, Seq<char>, Seq<char>)>) -> Seq<(Seq<char>, NsId)>
    decreases a.len(),
{
    if a.len() == 0 {
        seq![]
    } else {
        decls(a.drop_last()) + match declared_prefix(a.last().0, a.last().1) {
            Some(p) => seq![(p, spec_ns_of_uri(a.last().2))],
            None => seq![],
        }
    }
}

/// The namespace of an element prefix: `xml`, a bound prefix, or no namespace for no prefix.
pub open spec fn element_ns(sv: Seq<(Seq<char>, NsId)>, prefix: Seq<char>) -> Option<NsId> {
    if prefix == "xml"@ {
        Some(NsId::Xml)
    } else {
        match lookup_view(sv, prefix, sv.len() as int) {
            Some(ns) => Some(ns),
            None => if prefix.len() == 0 { Some(NsId::NoNamespace) } else { None },
        }
    }
}

/// The namespace of an attribute prefix: none without a prefix, `xml`, or a bound prefix.
pub open spec fn attribute_ns(sv: Seq<(Seq<char>, NsId)>, prefix: Seq<char>) -> Option<NsId> {
    if prefix.len() == 0 {
        Some(NsId::NoNamespace)
    } else if prefix == "xml"@ {
        Some(NsId::Xml)
    } else {
        lookup_view(sv, prefix, sv.len() as int)
    }
}

/// The attributes that are not namespace declarations, with resolved names; `None` when a
/// prefix is unbound.
pub open spec fn resolved_attrs(sv: Seq<(Seq<char>, NsId)>, a: Seq<(Seq<char>, Seq<char>, Seq<char>)>) -> Option<Seq<(QName, Seq<char>)>>
    decreases a.len(),
{
    if a.len() == 0 {
        Some(seq![])
    } else {
        match resolved_attrs(sv, a.drop_last()) {
            None => None,
            Some(r) => if declared_prefix(a.last().0, a.last().1) is Some {
                Some(r)
            } else {
                match attribute_ns(sv, a.last().0) {
                    Some(ns) => Some(r.push((QName { ns, local: spec_local_of(a.last().1) }, a.last().2))),
                    None => None,
                }
            },
        }
    }
}

proof fn lemma_resolved_prefix(sv: Seq<(Seq<char>, NsId)>, a: Seq<(Seq<char>, Seq<char>, Seq<char>)>, j: int)
    requires
        0 <= j <= a.len(),
        resolved_attrs(sv, a.take(j)) is None,
    ensures
        resolved_attrs(sv, a) is None,
    decreases a.len(),
{
    if j < a.len() {
        assert(a.drop_last().take(j) =~= a.take(j));
        lemma_resolved_prefix(sv, a.drop_last(), j);
    } else {
        assert(a.take(j) =~= a);
    }
}

/// Applies the tag's namespace declarations, then resolves its names.
fn resolve_tag(tag: &Tag, scopes: &mut Vec<(Vec<char>, NsId)>) -> (r: Option<(QName, Vec<Attr>)>)
    ensures
        scope_views(final(scopes)@) == scope_views(old(scopes)@) + decls(triple_views(tag.attrs@)),
        match (element_ns(scope_views(final(scopes)@), tag.prefix@), resolved_attrs(scope_views(final(scopes)@), triple_views(tag.attrs@))) {
            (Some(ns), Some(av)) => r matches Some((q, attrs)) && q == (QName { ns, local: spec_local_of(tag.local@) })
                && crate::edit::attr_pairs(attrs@) == av,
            _ => r is None,
        },
{
    let ghost tv = triple_views(tag.attrs@);
    proof {
        assert(tv.take(0) =~= Seq::<(Seq<char>, Seq<char>, Seq<char>)>::empty());
        assert(scope_views(scopes@) =~= scope_views(old(scopes)@) + decls(tv.take(0)));
    }
    for i in 0..tag.attrs.len()
        invariant
            tv == triple_views(tag.attrs@),
            scope_views(scopes@) == scope_views(old(scopes)@) + decls(tv.take(i as int)),
    {
        proof {
            assert(tv.take(i + 1).drop_last() =~= tv.take(i as int));
            assert(tv.take(i + 1).last() == tv[i as int]);
        }
        let ghost before = scopes@;
        if let Some(p) = is_xmlns(&tag.attrs[i].0, &tag.attrs[i].1) {
            let uri = crate::chars::chars_of(tag.attrs[i].2.as_str());
            scopes.push((p, ns_of_uri(&uri)));
            proof {
                assert(scope_views(scopes@) =~= scope_views(before).push((p@, spec_ns_of_uri(tv[i as int].2))));
                assert(scope_views(scopes@) =~= scope_views(old(scopes)@) + decls(tv.take(i + 1)));
            }
        } else {
            proof {
                assert(decls(tv.take(i + 1)) =~= decls(tv.take(i as int)));
            }
        }
    }
    proof {
        assert(tv.take(tv.len() as int) =~= tv);
        lemma_lookup_view(scopes@, tag.prefix@, scopes@.len() as int);
    }
    let ghost sv = scope_views(scopes@);
    let ns = if chars_eq(&tag.prefix, "xml") {
        NsId::Xml
    } else {
        match lookup(scopes, &tag.prefix) {
            Some(ns) => ns,
            None => if tag.prefix.len() == 0 {
                NsId::NoNamespace
            } else {
                return None;
            },
        }
    };
    let name = QName::new(ns, local_of(&tag.local));
    let mut attrs: Vec<Attr> = Vec::new();
    for i in 0..tag.attrs.len()
        invariant
            tv == triple_views(tag.attrs@),
            sv == scope_views(scopes@),
            scope_views(scopes@) == scope_views(old(scopes)@) + decls(tv),
            resolved_attrs(sv, tv.take(i as int)) == Some(crate::edit::attr_pairs(attrs@)),
    {
        proof {
            assert(tv.take(i + 1).drop_last() =~= tv.take(i as int));
            assert(tv.take(i + 1).last() == tv[i as int]);
        }
        let ghost before = attrs@;
        if is_xmlns(&tag.attrs[i].0, &tag.attrs[i].1).is_none() {
            let ans = if tag.attrs[i].0.len() == 0 {
                NsId::NoNamespace
            } else if chars_eq(&tag.attrs[i].0, "xml") {
                NsId::Xml
            } else {
                proof {
                    lemma_lookup_view(scopes@, tag.attrs@[i as int].0@, scopes@.len() as int);
                }
                match lookup(scopes, &tag.attrs[i].0) {
                    Some(ns) => ns,
                    None => {
                        proof {
                            assert(resolved_attrs(sv, tv.take(i + 1)) is None);
                            lemma_resolved_prefix(sv, tv, i + 1);
                        }
                        return None;
                    },
                }
            };
            attrs.push(Attr { name: QName::new(ans, local_of(&tag.attrs[i].1)), value: tag.attrs[i].2.clone() });
            proof {
                assert(crate::edit::attr_pairs(attrs@) =~= crate::edit::attr_pairs(before).push((QName { ns: ans, local: spec_local_of(tv[i as int].1) }, tv[i as int].2)));
            }
        }
    }
    proof {
        assert(tv.take(tv.len() as int) =~= tv);
    }
    Some((name, attrs))
}

/// Where the prolog that starts at `p` ends (the position of the first element's `<`):
/// white space, `<?...?>`, `<!--...-->` and `<!...>` are passed over; `None` when one of
/// them is not closed.
pub open spec fn misc_end(cs: Seq<char>, p: int) -> Option<int>
    decreases cs.len() - p,
{
    let q = ws_end(cs, p);
    let closing: Option<Seq<char>> = if occurs_at(cs, q, "<?"@) {
        Some("?>"@)
    } else if occurs_at(cs, q, "<!--"@) {
        Some("-->"@)
    } else if occurs_at(cs, q, "<!"@) {
        Some(">"@)
    } else {
        None
    };
    match closing {
        None => Some(q),
        Some(lit) => match past(cs, q, lit) {
            Some(e) => if p < e <= cs.len() { misc_end(cs, e) } else { None },
            None => None,
        },
    }
}

proof fn lemma_ws_end_range(cs: Seq<char>, p: int)
    requires
        0 <= p <= cs.len(),
    ensures
        p <= ws_end(cs, p) <= cs.len(),
    decreases cs.len() - p,
{
    if p < cs.len() && xml_ws(cs[p]) {
        lemma_ws_end_range(cs, p + 1);
    }
}

/// Skips the prolog (declaration, comments, processing instructions, doctype and
/// whitespace); returns the position of the first element's `<`.
fn skip_misc(cs: &Vec<char>, pos: usize) -> (r: Option<usize>)
    requires
        pos <= cs@.len(),
    ensures
        match misc_end(cs@, pos as int) {
            Some(e) => r == Some(e as usize),
            None => r is None,
        },
        r matches Some(p) ==> pos <= p <= cs@.len() && misc_end(cs@, pos as int) == Some(p as int),
{
    let mut p = pos;
    loop
        invariant
            pos <= p <= cs@.len(),
            misc_end(cs@, pos as int) == misc_end(cs@, p as int),
        decreases cs@.len() - p,
    {
        let p0 = p;
        p = skip_ws(cs, p);
        proof {
            lemma_ws_end_range(cs@, p0 as int);
            reveal_strlit("?>");
            reveal_strlit("-->");
            reveal_strlit(">");
        }
        if at_lit(cs, p, "<?") {
            match skip_past(cs, p, "?>") {
                Some(q) => {
                    proof {
                        assert(p as int == ws_end(cs@, p0 as int));
                        assert(occurs_at(cs@, p as int, "<?"@));
                        assert(past(cs@, p as int, "?>"@) == Some(q as int));
                        assert(p0 < q <= cs@.len());
                        assert(misc_end(cs@, p0 as int) == misc_end(cs@, q as int));
                    }
                    p = q;
                },
                None => { return None; },
            }
        } else if at_lit(cs, p, "<!--") {
            match skip_past(cs, p, "-->") {
                Some(q) => {
                    proof {
                        assert(misc_end(cs@, p0 as int) == misc_end(cs@, q as int));
                    }
                    p = q;
                },
                None => { return None; },
            }
        } else if at_lit(cs, p, "<!") {
            match skip_past(cs, p, ">") {
                Some(q) => {
                    proof {
                        assert(misc_end(cs@, p0 as int) == misc_end(cs@, q as int));
                    }
                    p = q;
                },
                None => { return None; },
            }
        } else {
            proof {
                assert(p as int == ws_end(cs@, p0 as int));
                assert(misc_end(cs@, p0 as int) == Some(p as int));
            }
            return Some(p);
        }
    }
}

struct Frame {
    node: NodeId,
    prefix: Vec<char>,
    local: Vec<char>,
    scope_len: usize,
}

/// The root element a text opens with: after the prolog (white space, comments, processing
/// instructions, a doctype), a start tag whose name and attributes resolve against the
/// namespaces it declares; its name and (name, value) attributes.
pub open spec fn root_tag(cs: Seq<char>) -> Option<(QName, Seq<(QName, Seq<char>)>)> {
    match misc_end(cs, 0) {
        Some(s) => if 0 <= s < cs.len() && cs[s] == '<' {
            match start_tag(cs, s) {
                Some((pf, lc, attrs, _sc, _end)) => match (element_ns(decls(attrs), pf), resolved_attrs(decls(attrs), attrs)) {
                    (Some(ns), Some(av)) => Some((QName { ns, local: spec_local_of(lc) }, av)),
                    _ => None,
                },
                None => None,
            }
        } else {
            None
        },
        None => None,
    }
}

/// What a node of a parsed tree is: an element with its name and (name, value) attributes,
/// or text.
pub enum KindView {
    Element(QName, Seq<(QName, Seq<char>)>),
    Text(Seq<char>),
}

/// A node of a tree as a value: what it is, its parent and its children in order.
pub struct NodeView {
    pub kind: KindView,
    pub parent: Option<NodeId>,
    pub children: Seq<NodeId>,
}

pub open spec fn kind_view(k: NodeKind) -> KindView {
    match k {
        NodeKind::Element(e) => KindView::Element(e.name, crate::edit::attr_pairs(e.attrs@)),
        NodeKind::Text(t) => KindView::Text(t@),
    }
}

pub open spec fn node_view(n: Node) -> NodeView {
    NodeView { kind: kind_view(n.kind), parent: n.parent, children: n.children@ }
}

/// The nodes of a tree as values, by index.
pub open spec fn tree_view(d: Dom) -> Seq<NodeView> {
    d.nodes@.map_values(|n: Node| node_view(n))
}

/// `nodes` with a new last node of kind `k` appended to the children of `top`.
pub open spec fn add_node(nodes: Seq<NodeView>, k: KindView, top: NodeId) -> Seq<NodeView> {
    let t = nodes[top.0 as int];
    nodes.update(top.0 as int, NodeView { kind: t.kind, parent: t.parent, children: t.children.push(NodeId(nodes.len() as u32)) })
        .push(NodeView { kind: k, parent: Some(top), children: seq![] })
}

/// The state of a parse: the position, the open elements (prefix, local name, how many
/// namespace declarations were in scope before it, node), the namespace declarations in
/// scope, and the nodes made so far.
pub struct ParseState {
    pub p: int,
    pub stack: Seq<(Seq<char>, Seq<char>, int, NodeId)>,
    pub scopes: Seq<(Seq<char>, NsId)>,
    pub nodes: Seq<NodeView>,
}

/// The first `<` at or after `p` (the end of the text when there is none).
pub open spec fn lt_from(cs: Seq<char>, p: int) -> int
    decreases cs.len() - p,
{
    if 0 <= p < cs.len() && cs[p] != '<' { lt_from(cs, p + 1) } else { p }
}

/// The namespace declarations in scope once those after the first `n` are dropped.
pub open spec fn scopes_cut(s: Seq<(Seq<char>, NsId)>, n: int) -> Seq<(Seq<char>, NsId)> {
    if 0 <= n <= s.len() { s.take(n) } else { s }
}

/// One step of the parse inside the root element, at `st.p`: an end tag closes the open
/// element of the same name, comments and processing instructions are passed over, CDATA
/// and character data become text, a start tag opens an element. `None` when the text is
/// not well formed there (or the tree would outgrow its ids).
pub open spec fn parse_step(cs: Seq<char>, st: ParseState) -> Option<ParseState> {
    let p = st.p;
    if p < 0 || p >= cs.len() || st.stack.len() == 0 {
        None
    } else if st.nodes.len() >= u32::MAX - 3 {
        None
    } else {
        let top = st.stack.last().3;
        if cs[p] == '<' {
            if p + 1 < cs.len() && cs[p + 1] == '/' {
                match name_at(cs, p + 2) {
                    None => None,
                    Some((pf, lc, e)) => {
                        let e2 = ws_end(cs, e);
                        let f = st.stack.last();
                        if e2 >= cs.len() || cs[e2] != '>' || f.0 != pf || f.1 != lc {
                            None
                        } else {
                            Some(ParseState { p: e2 + 1, stack: st.stack.drop_last(), scopes: scopes_cut(st.scopes, f.2), nodes: st.nodes })
                        }
                    },
                }
            } else if occurs_at(cs, p, "<!--"@) {
                match past(cs, p, "-->"@) {
                    Some(q) => Some(ParseState { p: q, ..st }),
                    None => None,
                }
            } else if occurs_at(cs, p, "<![CDATA["@) {
                match past(cs, p, "]]>"@) {
                    Some(q) => if q - p < 12 {
                        None
                    } else {
                        Some(ParseState { p: q, nodes: add_node(st.nodes, KindView::Text(cs.subrange(p + 9, q - 3)), top), ..st })
                    },
                    None => None,
                }
            } else if occurs_at(cs, p, "<?"@) {
                match past(cs, p, "?>"@) {
                    Some(q) => Some(ParseState { p: q, ..st }),
                    None => None,
                }
            } else {
                match start_tag(cs, p) {
                    None => None,
                    Some((pf, lc, attrs, sc, end)) => {
                        let sv = st.scopes + decls(attrs);
                        match (element_ns(sv, pf), resolved_attrs(sv, attrs)) {
                            (Some(ns), Some(av)) => {
                                let k = st.nodes.len();
                                let nodes = add_node(st.nodes, KindView::Element(QName { ns, local: spec_local_of(lc) }, av), top);
                                if sc {
                                    Some(ParseState { p: end, stack: st.stack, scopes: st.scopes, nodes })
                                } else {
                                    Some(ParseState { p: end, stack: st.stack.push((pf, lc, st.scopes.len() as int, NodeId(k as u32))), scopes: sv, nodes })
                                }
                            },
                            _ => None,
                        }
                    },
                }
            }
        } else {
            let q = lt_from(cs, p);
            match decode_from(cs, p, q) {
                Some(t) => Some(ParseState { p: q, nodes: add_node(st.nodes, KindView::Text(t), top), ..st }),
                None => None,
            }
        }
    }
}

/// Steps from `st` until no element is open, at most `fuel` times.
pub open spec fn parse_run(cs: Seq<char>, st: ParseState, fuel: nat) -> Option<ParseState>
    decreases fuel,
{
    if st.stack.len() == 0 {
        Some(st)
    } else if fuel == 0 {
        None
    } else {
        match parse_step(cs, st) {
            Some(next) => parse_run(cs, next, (fuel - 1) as nat),
            None => None,
        }
    }
}

/// The state right after the root's start tag.
pub open spec fn parse_start(cs: Seq<char>) -> Option<ParseState> {
    match misc_end(cs, 0) {
        Some(s) => if 0 <= s < cs.len() && cs[s] == '<' {
            match start_tag(cs, s) {
                Some((pf, lc, attrs, sc, end)) => match (element_ns(decls(attrs), pf), resolved_attrs(decls(attrs), attrs)) {
                    (Some(ns), Some(av)) => Some(ParseState {
                        p: end,
                        stack: if sc { seq![] } else { seq![(pf, lc, 0int, NodeId(0))] },
                        scopes: decls(attrs),
                        nodes: seq![NodeView { kind: KindView::Element(QName { ns, local: spec_local_of(lc) }, av), parent: None, children: seq![] }],
                    }),
                    _ => None,
                },
                None => None,
            }
        } else {
            None
        },
        None => None,
    }
}

/// The tree an XML text describes, node by node (the root first, then the nodes in the
/// order their starts occur); `None` when the text is not a well-formed document of the
/// grammar `Dom::parse` reads.
pub open spec fn xml_tree(cs: Seq<char>) -> Option<Seq<NodeView>> {
    match parse_start(cs) {
        Some(st0) => match parse_run(cs, st0, (cs.len() + 1) as nat) {
            Some(st) => if misc_end(cs, st.p) == Some(cs.len() as int) { Some(st.nodes) } else { None },
            None => None,
        },
        None => None,
    }
}

/// The frames of the open elements, as values.
spec fn frames_view(f: Seq<Frame>) -> Seq<(Seq<char>, Seq<char>, int, NodeId)> {
    f.map_values(|x: Frame| (x.prefix@, x.local@, x.scope_len as int, x.node))
}

/// The parse state the loop of `Dom::parse` holds.
spec fn state_of(p: usize, stack: Seq<Frame>, scopes: Seq<(Vec<char>, NsId)>, dom: Dom) -> ParseState {
    ParseState { p: p as int, stack: frames_view(stack), scopes: scope_views(scopes), nodes: tree_view(dom) }
}

/// Adds a node of kind `kind` as the last child of `top`.
fn add_child(dom: &mut Dom, kind: NodeKind, top: NodeId) -> (k: NodeId)
    requires
        old(dom).wf(),
        old(dom).nodes@.len() + 3 < u32::MAX,
        old(dom).is_element(top),
        kind is Text || kind is Element,
    ensures
        final(dom).wf(),
        final(dom).part == old(dom).part,
        final(dom).root == old(dom).root,
        k.0 == old(dom).nodes@.len(),
        final(dom).nodes@.len() == old(dom).nodes@.len() + 1,
        final(dom).at(k).kind == kind,
        tree_view(*final(dom)) == add_node(tree_view(*old(dom)), kind_view(kind), top),
        forall|i: int| 0 <= i < old(dom).nodes@.len() ==> (#[trigger] final(dom).nodes@[i]).kind == old(dom).nodes@[i].kind
            && final(dom).nodes@[i].parent == old(dom).nodes@[i].parent,
{
    let ghost d0 = *dom;
    let k = dom.push_node(kind, Some(top));
    let ghost d1 = *dom;
    dom.attach(top, None, k);
    proof {
        let a = add_node(tree_view(d0), kind_view(kind), top);
        assert(dom.kids(top) == d1.kids(top).push(k));
        assert(d1.kids(top) == d0.kids(top));
        assert forall|i: int| 0 <= i < dom.nodes@.len() implies #[trigger] tree_view(*dom)[i] == a[i] by {
            assert(tree_view(*dom)[i] == node_view(dom.nodes@[i]));
            if i == top.0 as int {
                assert(d1.nodes@[i] == d0.nodes@[i]);
                assert(a[i] == NodeView { kind: kind_view(d0.nodes@[i].kind), parent: d0.nodes@[i].parent, children: d0.kids(top).push(k) });
            } else if i == k.0 as int {
                assert(dom.at(k).children == d1.at(k).children);
                assert(dom.at(k).children@ =~= Seq::<NodeId>::empty());
            } else {
                assert(dom.nodes@[i] == d1.nodes@[i]);
                assert(d1.nodes@[i] == d0.nodes@[i]);
            }
        }
        assert(tree_view(*dom) =~= a);
    }
    k
}

impl Dom {
    /// A tree of one element named `name`, without attributes or children: what `parse`
    /// makes of an empty root element that only declares namespaces.
    pub fn single(part: PartId, name: QName) -> (d: Dom)
        ensures
            d.wf(),
            d.part == part,
            d.root == NodeId(0),
            d.nodes@.len() == 1,
            d.live(d.root),
            d.is_element(d.root),
            d.at(d.root).parent is None,
            d.kids(d.root).len() == 0,
            d.at(d.root).kind matches NodeKind::Element(e) && e.name == name && e.attrs@.len() == 0,
    {
        let d = Dom {
            part,
            nodes: vec![Node { kind: NodeKind::Element(Element { name, attrs: Vec::new() }), parent: None, children: Vec::new(), dirty: Dirty::Clean }],
            root: NodeId(0),
        };
        proof {
            reveal(Dom::kids_parented);
        }
        d
    }

    /// Parses the XML text of a part into a DOM. Elements, attributes (with namespace
    /// declarations), text with the predefined entities and character references, comments,
    /// processing instructions and a doctype are understood; anything else is refused with
    /// `XmlNotWellFormed`. The tree is [`xml_tree`] of the text.
    pub fn parse(part: PartId, bytes: &[u8]) -> (r: Result<Dom, Error>)
        ensures
            r is Ok <==> vstd::utf8::valid_utf8(bytes@) && xml_tree(vstd::utf8::decode_utf8(bytes@)) is Some,
            r matches Ok(d) ==> d.wf() && d.part == part && d.root == NodeId(0) && d.is_element(d.root)
                && tree_view(d) == xml_tree(vstd::utf8::decode_utf8(bytes@))->0,
            r matches Err(e) ==> e.has_code(DiagCode::XmlNotWellFormed),
            !vstd::utf8::valid_utf8(bytes@) ==> r is Err,
            vstd::utf8::valid_utf8(bytes@) && root_tag(vstd::utf8::decode_utf8(bytes@)) is None ==> r is Err,
            r matches Ok(d) ==> d.at(d.root).parent is None
                && (root_tag(vstd::utf8::decode_utf8(bytes@)) matches Some((q, av))
                && d.at(d.root).kind matches NodeKind::Element(e) && e.name == q && crate::edit::attr_pairs(e.attrs@) == av),
    {
        let s = match utf8_text(bytes) {
            Some(s) => s,
            None => {
                return Err(malformed());
            },
        };
        let cs = chars_of(s);
        let start = match skip_misc(&cs, 0) {
            Some(p) => p,
            None => {
                return Err(malformed());
            },
        };
        if start >= cs.len() || cs[start] != '<' {
            return Err(malformed());
        }
        let mut scopes: Vec<(Vec<char>, NsId)> = Vec::new();
        assert(scope_views(scopes@) =~= Seq::<(Seq<char>, NsId)>::empty());
        let tag = match read_start_tag(&cs, start) {
            Some(t) => t,
            None => {
                return Err(malformed());
            },
        };
        let (name, attrs) = match resolve_tag(&tag, &mut scopes) {
            Some(x) => x,
            None => {
                proof {
                    assert(Seq::<(Seq<char>, NsId)>::empty() + decls(triple_views(tag.attrs@)) =~= decls(triple_views(tag.attrs@)));
                }
                return Err(malformed());
            },
        };
        proof {
            assert(Seq::<(Seq<char>, NsId)>::empty() + decls(triple_views(tag.attrs@)) =~= decls(triple_views(tag.attrs@)));
        }
        let ghost root_kind = NodeKind::Element(Element { name, attrs: attrs });
        proof {
            let st = start_tag(cs@, start as int)->0;
            assert(st.0 == tag.prefix@ && st.2 == triple_views(tag.attrs@));
            assert(scope_views(scopes@) == decls(triple_views(tag.attrs@)));
            assert(misc_end(cs@, 0) == Some(start as int));
        }
        assert(root_tag(cs@) == Some((name, crate::edit::attr_pairs(attrs@))));
        let mut dom = Dom {
            part,
            nodes: vec![Node { kind: NodeKind::Element(Element { name, attrs }), parent: None, children: Vec::new(), dirty: Dirty::Clean }],
            root: NodeId(0),
        };
        proof {
            reveal(Dom::kids_parented);
        }
        let mut stack: Vec<Frame> = Vec::new();
        let mut p = tag.end;
        if !tag.self_closing {
            stack.push(Frame { node: NodeId(0), prefix: tag.prefix, local: tag.local, scope_len: 0 });
        }
        let ghost st0 = parse_start(cs@)->0;
        let ghost mut fuel: nat = (cs@.len() + 1) as nat;
        proof {
            assert(parse_start(cs@) is Some);
            assert(tree_view(dom) =~= st0.nodes);
            assert(frames_view(stack@) =~= st0.stack);
        }
        while stack.len() > 0
            invariant
                dom.wf(),
                dom.part == part,
                dom.is_element(dom.root),
                dom.root == NodeId(0),
                dom.at(dom.root).parent is None,
                dom.at(dom.root).kind == root_kind,
                cs@ == vstd::utf8::decode_utf8(bytes@),
                vstd::utf8::valid_utf8(bytes@),
                root_kind matches NodeKind::Element(e) && root_tag(cs@) == Some((e.name, crate::edit::attr_pairs(e.attrs@))),
                p <= cs@.len(),
                forall|i: int| 0 <= i < stack@.len() ==> dom.is_element(#[trigger] stack@[i].node),
                parse_start(cs@) == Some(st0),
                fuel + p >= cs@.len() + 1,
                parse_run(cs@, st0, (cs@.len() + 1) as nat) == parse_run(cs@,
                    ParseState { p: p as int, stack: frames_view(stack@), scopes: scope_views(scopes@), nodes: tree_view(dom) }, fuel),
            decreases cs@.len() - p,
        {
            let ghost st = ParseState { p: p as int, stack: frames_view(stack@), scopes: scope_views(scopes@), nodes: tree_view(dom) };
            proof {
                assert(fuel > 0);
                assert(st.stack.len() > 0);
                assert(parse_run(cs@, st, fuel) == match parse_step(cs@, st) {
                    Some(next) => parse_run(cs@, next, (fuel - 1) as nat),
                    None => None,
                });
                assert(st.stack.last() == (stack@.last().prefix@, stack@.last().local@, stack@.last().scope_len as int, stack@.last().node));
            }
            if p >= cs.len() {
                return Err(malformed());
            }
            if dom.nodes.len() >= (u32::MAX - 3) as usize {
                return Err(malformed());
            }
            let top = stack[stack.len() - 1].node;
            if cs[p] == '<' {
                if p + 1 < cs.len() && cs[p + 1] == '/' {
                    let (prefix, local, e) = match read_name(&cs, p + 2) {
                        Some(x) => x,
                        None => {
                            return Err(malformed());
                        },
                    };
                    proof {
                        lemma_name_stop(cs@, p + 2, e as int);
                    }
                    let e2 = skip_ws(&cs, e);
                    if e2 >= cs.len() || cs[e2] != '>' {
                        return Err(malformed());
                    }
                    let f = stack.pop().unwrap();
                    proof {
                        assert(name_at(cs@, p + 2) == Some((prefix@, local@, e as int)));
                        assert(st.stack.last() == (f.prefix@, f.local@, f.scope_len as int, f.node));
                    }
                    if !vec_eq(&f.prefix, &prefix) || !vec_eq(&f.local, &local) {
                        return Err(malformed());
                    }
                    let ghost sc0 = scopes@;
                    scopes.truncate(f.scope_len);
                    proof {
                        if f.scope_len <= sc0.len() {
                            assert(scope_views(scopes@) =~= scope_views(sc0).take(f.scope_len as int));
                        }
                        assert(frames_view(stack@) =~= st.stack.drop_last());
                    }
                    p = e2 + 1;
                    assert(parse_step(cs@, st) == Some(state_of(p, stack@, scopes@, dom)));
                } else if at_lit(&cs, p, "<!--") {
                    match skip_past(&cs, p, "-->") {
                        Some(q) => {
                            p = q;
                            assert(parse_step(cs@, st) == Some(state_of(p, stack@, scopes@, dom)));
                        },
                        None => { return Err(malformed()); },
                    }
                } else if at_lit(&cs, p, "<![CDATA[") {
                    proof {
                        reveal_strlit("<![CDATA[");
                        reveal_strlit("]]>");
                    }
                    let q = match skip_past(&cs, p, "]]>") {
                        Some(q) => q,
                        None => { return Err(malformed()); },
                    };
                    if q - p < 12 {
                        return Err(malformed());
                    }
                    let t = string_of(&cs, p + 9, q - 3);
                    add_child(&mut dom, NodeKind::Text(t), top);
                    p = q;
                    assert(parse_step(cs@, st) == Some(state_of(p, stack@, scopes@, dom)));
                } else if at_lit(&cs, p, "<?") {
                    match skip_past(&cs, p, "?>") {
                        Some(q) => {
                            p = q;
                            assert(parse_step(cs@, st) == Some(state_of(p, stack@, scopes@, dom)));
                        },
                        None => { return Err(malformed()); },
                    }
                } else {
                    let scope_len = scopes.len();
                    let ghost sc0 = scopes@;
                    let tag = match read_start_tag(&cs, p) {
                        Some(t) => t,
                        None => {
                            return Err(malformed());
                        },
                    };
                    let (name, attrs) = match resolve_tag(&tag, &mut scopes) {
                        Some(x) => x,
                        None => {
                            return Err(malformed());
                        },
                    };
                    let k = add_child(&mut dom, NodeKind::Element(Element { name, attrs }), top);
                    p = tag.end;
                    if tag.self_closing {
                        let ghost sc1 = scopes@;
                        scopes.truncate(scope_len);
                        proof {
                            assert(scope_views(sc1).len() == sc1.len());
                            assert(scope_views(sc0).len() == sc0.len());
                            assert(scope_len as int <= sc1.len());
                            assert(scopes@ == sc1.subrange(0, scope_len as int));
                            assert(scope_views(scopes@) =~= scope_views(sc1).take(scope_len as int));
                            assert(scope_views(sc1).take(scope_len as int) =~= scope_views(sc0));
                        }
                    } else {
                        stack.push(Frame { node: k, prefix: tag.prefix, local: tag.local, scope_len });
                        proof {
                            assert(frames_view(stack@) =~= st.stack.push((tag.prefix@, tag.local@, sc0.len() as int, k)));
                        }
                    }
                    assert(parse_step(cs@, st) == Some(state_of(p, stack@, scopes@, dom)));
                }
            } else {
                let mut q = p;
                while q < cs.len() && cs[q] != '<'
                    invariant
                        p <= q <= cs@.len(),
                        lt_from(cs@, p as int) == lt_from(cs@, q as int),
                    decreases cs@.len() - q,
                {
                    q = q + 1;
                }
                let t = match decode(&cs, p, q) {
                    Some(t) => t,
                    None => {
                        return Err(malformed());
                    },
                };
                add_child(&mut dom, NodeKind::Text(t), top);
                p = q;
                assert(parse_step(cs@, st) == Some(state_of(p, stack@, scopes@, dom)));
            }
            proof {
                assert(parse_step(cs@, st) == Some(state_of(p, stack@, scopes@, dom)));
                fuel = (fuel - 1) as nat;
            }
        }
        proof {
            assert(frames_view(stack@).len() == 0);
        }
        match skip_misc(&cs, p) {
            Some(q) => if q != cs.len() {
                return Err(malformed());
            },
            None => {
                return Err(malformed());
            },
        }
        Ok(dom)
    }
}

fn malformed() -> (e: Error)
    ensures
        e.has_code(DiagCode::XmlNotWellFormed),
{
    Error::edit(DiagCode::XmlNotWellFormed, text("XML 不良构"))
}

} // verus!
