use vstd::prelude::*;
use crate::diag::{DiagCode, Error, text};
use crate::model::{Inline, Segment, SegmentKind, TextBlock, inline_len, inlines_len, segs_len,
    lemma_inlines_len_mono, lemma_segs_len_mono, lemma_inline_len_nonneg};
use crate::position::{Loc, Utf16Offset};
use crate::text::{concat, decimal, spec_decimal};
use crate::utf16::{Utf16TextOffset, byte_offset};

verus! {

/// A paragraph whose coordinates fit the offset type: every run has fewer than 2^32
/// segments and the paragraph is at most `u32::MAX` units long.
pub open spec fn block_fits(tb: &TextBlock) -> bool {
    &&& forall|i: int| 0 <= i < tb.inlines@.len() ==> (#[trigger] tb.inlines@[i] matches Inline::Run(r)
        ==> r.segments@.len() < 0x1_0000_0000)
    &&& inlines_len(tb.inlines@, tb.inlines@.len() as int) <= u32::MAX
}

/// Locating `target` from inline `i` on, `cum` being the offset where inline `i` starts.
pub open spec fn locate_from(inl: Seq<Inline>, i: int, cum: int, target: int) -> Result<Loc, DiagCode>
    decreases inl.len() - i,
{
    if i >= inl.len() || i < 0 {
        if target == cum {
            Ok(Loc::Boundary { index: inl.len() as usize })
        } else {
            Err(DiagCode::EditBadPosition)
        }
    } else if target == cum {
        Ok(Loc::Boundary { index: i as usize })
    } else if target < cum + inline_len(inl[i]) {
        match inl[i] {
            Inline::Run(r) => locate_in_run(r.segments@, i, 0, cum, target),
            _ => Err(DiagCode::EditBadPosition),
        }
    } else {
        locate_from(inl, i + 1, cum + inline_len(inl[i]), target)
    }
}

/// Locating `target` inside the run at inline `i`, from segment `k` on, `scum` being the offset
/// where segment `k` starts.
pub open spec fn locate_in_run(segs: Seq<Segment>, i: int, k: int, scum: int, target: int) -> Result<Loc, DiagCode>
    decreases segs.len() - k,
{
    if k >= segs.len() || k < 0 {
        Err(DiagCode::EditBadPosition)
    } else if target == scum && k > 0 {
        Ok(Loc::InRun { inline: i as usize, segment: k as usize })
    } else if target < scum + segs[k].utf16_len {
        if segs[k].kind == SegmentKind::Text || segs[k].kind == SegmentKind::DelText {
            match byte_offset(segs[k].text@, target - scum) {
                Ok(b) => Ok(Loc::InText { inline: i as usize, segment: k as usize, byte: b as usize }),
                Err(e) => Err(e),
            }
        } else {
            Err(DiagCode::EditBadPosition)
        }
    } else {
        locate_in_run(segs, i, k + 1, scum + segs[k].utf16_len, target)
    }
}

impl Utf16Offset {
    /// Where this offset falls in the paragraph: between two inlines, between two segments of a
    /// run, or inside a text segment (with the UTF-8 byte offset in its text). Inside an atom,
    /// inside a non-text segment, or past the end: `EditBadPosition`; between the halves of a
    /// surrogate pair: `EditSplitSurrogate`.
    pub fn locate(self, tb: &TextBlock) -> (r: Result<Loc, Error>)
        requires
            block_fits(tb),
        ensures
            match locate_from(tb.inlines@, 0, 0, self.0 as int) {
                Ok(l) => r == Ok::<Loc, Error>(l),
                Err(c) => r matches Err(e) && e.has_code(c),
            },
    {
        let target: u64 = self.0 as u64;
        let n = tb.inlines.len();
        let ghost inl = tb.inlines@;
        let mut cum: u64 = 0;
        let mut i: usize = 0;
        while i < n
            invariant
                n == inl.len(),
                inl == tb.inlines@,
                block_fits(tb),
                target == self.0,
                0 <= i <= n,
                cum == inlines_len(inl, i as int),
                cum <= target,
                locate_from(inl, 0, 0, target as int) == locate_from(inl, i as int, cum as int, target as int),
            decreases n - i,
        {
            proof {
                lemma_inlines_len_mono(inl, i as int + 1, n as int);
                lemma_inline_len_nonneg(inl[i as int]);
            }
            if target == cum {
                return Ok(Loc::Boundary { index: i });
            }
            let inline = &tb.inlines[i];
            assert(inline == inl[i as int]);
            let len = inline.utf16_len();
            if target < cum + len {
                match inline {
                    Inline::Run(run) => {
                        return Self::locate_run(run, i, cum, target, cum + len);
                    },
                    _ => {
                        return Err(Error::edit(DiagCode::EditBadPosition, text("偏移落在原子内部")));
                    },
                }
            }
            cum = cum + len;
            i = i + 1;
        }
        if target == cum {
            return Ok(Loc::Boundary { index: n });
        }
        let mut msg = text("偏移 ");
        msg.append(&decimal(target));
        msg.append(" 超出段落长度 ");
        msg.append(&decimal(cum));
        Err(Error::edit(DiagCode::EditBadPosition, msg))
    }

    /// Locating `target`, which falls inside the run at inline `i` (starting at `cum`).
    fn locate_run(run: &crate::model::Run, i: usize, cum: u64, target: u64, end: u64) -> (r: Result<Loc, Error>)
        requires
            run.segments@.len() < 0x1_0000_0000,
            cum <= target < end,
            end == cum + segs_len(run.segments@, run.segments@.len() as int),
            end <= u32::MAX,
        ensures
            match locate_in_run(run.segments@, i as int, 0, cum as int, target as int) {
                Ok(l) => r == Ok::<Loc, Error>(l),
                Err(c) => r matches Err(e) && e.has_code(c),
            },
    {
        let segs = &run.segments;
        let m = segs.len();
        let mut scum: u64 = cum;
        let mut k: usize = 0;
        while k < m
            invariant
                m == segs@.len(),
                segs == &run.segments,
                m < 0x1_0000_0000,
                0 <= k <= m,
                scum == cum + segs_len(segs@, k as int),
                scum <= target < end,
                end == cum + segs_len(segs@, m as int),
                end <= u32::MAX,
                locate_in_run(segs@, i as int, 0, cum as int, target as int)
                    == locate_in_run(segs@, i as int, k as int, scum as int, target as int),
            decreases m - k,
        {
            proof {
                lemma_segs_len_mono(segs@, k as int + 1, m as int);
            }
            let seg = &segs[k];
            if target == scum && k > 0 {
                return Ok(Loc::InRun { inline: i, segment: k });
            }
            if target < scum + seg.utf16_len as u64 {
                if !(matches!(seg.kind, SegmentKind::Text) || matches!(seg.kind, SegmentKind::DelText)) {
                    return Err(Error::edit(DiagCode::EditBadPosition, text("偏移落在非文本段内部")));
                }
                let off = Utf16TextOffset { text: seg.text.as_str(), offset: Utf16Offset((target - scum) as u32) };
                return match off.byte_offset() {
                    Ok(byte) => Ok(Loc::InText { inline: i, segment: k, byte }),
                    Err(e) => Err(e),
                };
            }
            scum = scum + seg.utf16_len as u64;
            k = k + 1;
        }
        proof {
            assert(false);
        }
        Err(Error::edit(DiagCode::EditBadPosition, text("偏移落在非文本段内部")))
    }
}

} // verus!
