//! Bit-depth flag of a sprite.
use vstd::prelude::*;

verus! {

/// Sprite flag identifying the bit depth: `BLIT_1BPP` or `BLIT_2BPP`.
#[derive(Debug, Clone, Copy, PartialEq, Eq, Structural, PartialOrd, Ord)]
pub enum Flags {
    /// One bit per pixel
    OneBitPerPixel,
    /// Two bits per pixel
    TwoBitsPerPixel,
}

impl Flags {
    /// The numeric value of the flag.
    pub open spec fn spec_value(self) -> u32 {
        match self {
            Flags::OneBitPerPixel => 0,
            Flags::TwoBitsPerPixel => 1,
        }
    }

    /// The human-readable name of the flag.
    pub open spec fn spec_human_readable(self) -> Seq<char> {
        match self {
            Flags::OneBitPerPixel => "BLIT_1BPP"@,
            Flags::TwoBitsPerPixel => "BLIT_2BPP"@,
        }
    }

    /// Returns the numeric value of the flag: 0 for one bit per pixel, 1 for two.
    pub fn value(&self) -> (r: u32)
        ensures
            r == self.spec_value(),
    {
        match self {
            Flags::OneBitPerPixel => 0,
            Flags::TwoBitsPerPixel => 1,
        }
    }

    /// Returns `BLIT_1BPP` or `BLIT_2BPP`.
    pub fn human_readable_value(&self) -> (r: &'static str)
        ensures
            r@ == self.spec_human_readable(),
    {
        match self {
            Flags::OneBitPerPixel => "BLIT_1BPP",
            Flags::TwoBitsPerPixel => "BLIT_2BPP",
        }
    }
}

} // verus!
