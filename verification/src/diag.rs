use vstd::prelude::*;
use crate::ids::PartId;

verus! {

/// Diagnostic codes raised by the edit engine.
#[derive(Debug, Clone, Copy, PartialEq, Eq, Structural)]
pub enum DiagCode {
    EditBadPosition,
    EditPlanInvalid,
    EditUnsupported,
    EditTargetOpaque,
    EditTargetFallback,
    EditTargetMissing,
    EditSplitField,
    EditCrossParagraph,
    EditTableGridInconsistent,
    EditTableGeometry,
    EditSplitSurrogate,
    EditBadText,
    EditAnchorUnmoved,
    EditInDeleted,
    EditMathTokenCount,
    SpanUnclosed,
    BindBadArgument,
    XmlNotWellFormed,
}

/// Who is to blame for a diagnostic.
#[derive(Debug, Clone, Copy, PartialEq, Eq, Structural)]
pub enum ValidationOrigin {
    /// The input was already damaged.
    PreExistingDamage,
    /// The engine itself broke an invariant.
    EngineInvariantViolation,
}

/// One diagnostic about a part.
#[derive(Debug, Clone, PartialEq, Eq)]
pub struct Diagnostic {
    pub part: PartId,
    /// Byte range in the part's source, when known.
    pub range: Option<(u64, u64)>,
    pub code: DiagCode,
    pub origin: ValidationOrigin,
    pub message: String,
}

impl Diagnostic {
    /// A diagnostic blaming the engine.
    pub fn invariant_violation(part: PartId, range: Option<(u64, u64)>, code: DiagCode, message: String) -> (d: Diagnostic)
        ensures
            d.part == part,
            d.range == range,
            d.code == code,
            d.origin == ValidationOrigin::EngineInvariantViolation,
            d.message@ == message@,
    {
        Diagnostic { part, range, code, origin: ValidationOrigin::EngineInvariantViolation, message }
    }

    /// A copy of this diagnostic.
    pub fn duplicate(&self) -> (r: Diagnostic)
        ensures
            r == *self,
    {
        Diagnostic {
            part: self.part,
            range: self.range,
            code: self.code,
            origin: self.origin,
            message: self.message.clone(),
        }
    }

    /// A diagnostic about damage that was present in the input.
    pub fn pre_existing(part: PartId, range: Option<(u64, u64)>, code: DiagCode, message: String) -> (d: Diagnostic)
        ensures
            d.part == part,
            d.range == range,
            d.code == code,
            d.origin == ValidationOrigin::PreExistingDamage,
            d.message@ == message@,
    {
        Diagnostic { part, range, code, origin: ValidationOrigin::PreExistingDamage, message }
    }
}

/// Errors of the edit engine.
#[derive(Debug, Clone, PartialEq, Eq)]
pub enum Error {
    /// An edit was refused.
    Edit { code: DiagCode, message: String },
    /// An invariant check failed before saving.
    Invariant(Diagnostic),
}

impl Error {
    /// An edit error with a code and a message.
    pub fn edit(code: DiagCode, message: String) -> (e: Error)
        ensures
            e matches Error::Edit { code: c, message: m } && c == code && m@ == message@,
    {
        Error::Edit { code, message }
    }

    /// The code carried by this error.
    pub fn code(&self) -> (c: DiagCode)
        ensures
            c == self.spec_code(),
    {
        match self {
            Error::Edit { code, .. } => *code,
            Error::Invariant(d) => d.code,
        }
    }

    /// This is an edit error carrying code `c`.
    pub open spec fn has_code(&self, c: DiagCode) -> bool {
        self matches Error::Edit { code, .. } && code == c
    }

    pub open spec fn spec_code(&self) -> DiagCode {
        match self {
            Error::Edit { code, .. } => *code,
            Error::Invariant(d) => d.code,
        }
    }
}

/// Make a `String` out of a string literal.
pub fn text(s: &str) -> (r: String)
    ensures
        r@ == s@,
{
    s.to_string()
}

} // verus!
