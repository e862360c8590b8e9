use vstd::prelude::*;
use crate::content::{AnchorPos, ImageWrap};
use crate::diag::Error;
use crate::drawing::{shape_style_done, wrap_done, z_order_done, Z_BASE};
use crate::ids::{NodeId, PartId};
use crate::image::image_media_done;
use crate::plan::MutationResult;
use crate::sections::{link_hf_done, link_header_footer, page_color_done, HfKind, HfVariant};
use crate::session::{part_bytes_done, part_xml_done, EditSession};
use crate::track::EditContext;

verus! {

/// An editing operation of the session, as data. The drawing geometry, whose effect margins
/// are computed in floating point, is handed to [`EditSession::set_geometry`] directly.
#[derive(Debug)]
pub enum EditOp {
    /// Replace a whole XML part with the given text.
    ReplacePartXml { part: PartId, xml: String },
    /// Replace a whole part (not the main part) with the given bytes.
    ReplacePartBytes { part: PartId, bytes: Vec<u8> },
    /// Point the first `a:blip` of a drawing at a new media part holding `bytes`.
    ReplaceImageMedia { drawing: NodeId, bytes: Vec<u8>, mime: String },
    /// Refer a section to an existing header or footer part.
    LinkHeaderFooter { sect: NodeId, kind: HfKind, variant: HfVariant, part: PartId },
    /// Set (or, with `None`, remove) the page colour.
    SetPageColor { color: Option<String> },
    /// Set the z-order of an anchored drawing.
    SetDrawingZOrder { drawing: NodeId, z: i64 },
    /// Change how a drawing wraps; `None` makes it inline.
    SetDrawingWrap { drawing: NodeId, wrap: Option<ImageWrap>, pos: Option<AnchorPos>, z_order: Option<i64> },
    /// Change the fill and outline of a shape.
    SetShapeStyle { shape: NodeId, fill: Option<Option<String>>, outline: Option<Option<String>> },
}

/// What an operation needs from the session to run without overflowing its counters, or
/// without naming a part that is not there.
pub open spec fn op_ready(s: EditSession, op: EditOp) -> bool {
    match op {
        EditOp::ReplaceImageMedia { .. } => s.spec_pkg().parts@.len() + 16 < u32::MAX,
        EditOp::LinkHeaderFooter { part, .. } => s.spec_pkg().has(part),
        EditOp::SetDrawingZOrder { z, .. } => z <= i64::MAX - Z_BASE,
        EditOp::SetDrawingWrap { z_order, .. } => match z_order {
            Some(z) => z <= i64::MAX - Z_BASE,
            None => true,
        },
        _ => true,
    }
}

/// What running `op` on `s0` promises, `s1` being the session afterwards: the contract of
/// the operation's handler (a whole-part replacement answers with an empty result).
pub open spec fn op_done(s0: EditSession, s1: EditSession, op: EditOp, ctx: EditContext, r: Result<MutationResult, Error>) -> bool {
    match op {
        EditOp::ReplacePartXml { part, xml } => part_xml_done(s0, s1, part, xml@, match r {
            Ok(_) => Ok(()),
            Err(e) => Err(e),
        }) && (r matches Ok(res) ==> res.created@.len() == 0 && res.affected_blocks@.len() == 0),
        EditOp::ReplacePartBytes { part, bytes } => part_bytes_done(s0, s1, part, bytes@, match r {
            Ok(_) => Ok(()),
            Err(e) => Err(e),
        }) && (r matches Ok(res) ==> res.created@.len() == 0 && res.affected_blocks@.len() == 0),
        EditOp::ReplaceImageMedia { drawing, bytes, mime } => image_media_done(s0, s1, drawing, bytes@, mime@, ctx, r),
        EditOp::LinkHeaderFooter { sect, kind, variant, part } => link_hf_done(s0, s1, sect, kind, variant, part, r),
        EditOp::SetPageColor { color } => page_color_done(s0, s1, color, r),
        EditOp::SetDrawingZOrder { drawing, z } => z_order_done(s0, s1, drawing, z, r),
        EditOp::SetDrawingWrap { drawing, wrap, pos, z_order } => wrap_done(s0, s1, drawing, wrap, pos, z_order, r),
        EditOp::SetShapeStyle { shape, fill, outline } => shape_style_done(s0, s1, shape, fill, outline, r),
    }
}

impl EditSession {
    /// Runs one operation by handing it to its handler.
    pub fn dispatch(&mut self, op: EditOp, ctx: &EditContext) -> (r: Result<MutationResult, Error>)
        requires
            old(self).wf(),
            op_ready(*old(self), op),
        ensures
            op_done(*old(self), *final(self), op, *ctx, r),
    {
        match op {
            EditOp::ReplacePartXml { part, xml } => {
                let r = self.replace_part_xml(part, xml.as_str());
                match r {
                    Ok(()) => Ok(MutationResult::empty()),
                    Err(e) => Err(e),
                }
            },
            EditOp::ReplacePartBytes { part, bytes } => {
                let r = self.replace_part_bytes(part, bytes);
                match r {
                    Ok(()) => Ok(MutationResult::empty()),
                    Err(e) => Err(e),
                }
            },
            EditOp::ReplaceImageMedia { drawing, bytes, mime } => self.replace_image_media(drawing, bytes, mime.as_str(), ctx),
            EditOp::LinkHeaderFooter { sect, kind, variant, part } => link_header_footer(self, sect, kind, variant, part),
            EditOp::SetPageColor { color } => self.set_page_color(color),
            EditOp::SetDrawingZOrder { drawing, z } => self.set_z_order(drawing, z),
            EditOp::SetDrawingWrap { drawing, wrap, pos, z_order } => self.set_wrap(drawing, wrap, pos.as_ref(), z_order),
            EditOp::SetShapeStyle { shape, fill, outline } => self.set_shape_style(shape, fill, outline),
        }
    }
}

} // verus!
