//! Negotiated protocol feature levels and the single width gate they control.

use vstd::prelude::*;

verus! {

/// The feature level above which the line-number field of an ERROR record is
/// encoded as 4 bytes instead of 2. A level exactly equal to this value still
/// uses the narrow encoding.
pub const WIDE_LINE_INTRO_LEVEL: u32 = 0x72090002;

/// A negotiated protocol feature level. Levels are totally ordered by their
/// numeric value; the ordering is established during session negotiation and
/// the value is already validated when a decoder sees it.
#[derive(Clone, Copy, Debug, PartialEq, Eq, Structural)]
pub struct FeatureLevel {
    pub level: u32,
}

impl FeatureLevel {
    /// True when this level lies strictly above the level that introduced
    /// wide (4-byte) line numbers.
    pub open spec fn spec_wide_line_numbers(self) -> bool {
        self.level > WIDE_LINE_INTRO_LEVEL
    }

    /// The single version-conditional branch of the ERROR record: whether the
    /// line-number field is read as 4 bytes (true) or 2 bytes (false).
    pub fn wide_line_numbers(&self) -> (wide: bool)
        ensures
            wide == self.spec_wide_line_numbers(),
    {
        self.level > WIDE_LINE_INTRO_LEVEL
    }
}

} // verus!
