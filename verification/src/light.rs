//! The desired state of the light and the tag that says which part changed.

use vstd::prelude::*;

verus! {

/// Largest value of a colour channel.
pub const COLOR_MAX: u8 = 255;

/// Largest value of a white channel.
pub const WHITE_MAX: u8 = 99;

/// The three colour channels, each in `0..=255`.
#[derive(Clone, Copy, Debug, PartialEq, Eq, Structural)]
pub struct RGBState {
    pub red: u8,
    pub green: u8,
    pub blue: u8,
}

/// The two white channels, each in `0..=99`.
#[derive(Clone, Copy, Debug, PartialEq, Eq, Structural)]
pub struct WhiteState {
    pub warm: u8,
    pub cool: u8,
}

/// Everything the bridge wants the light to show.
#[derive(Clone, Copy, Debug, PartialEq, Eq, Structural)]
pub struct LightState {
    pub rgb: RGBState,
    pub white: WhiteState,
}

/// Which group of channels a dispatch touched.
#[derive(Clone, Copy, Debug, PartialEq, Eq, Structural)]
pub enum StateModification {
    RGB,
    White,
    Unchanged,
}

impl WhiteState {
    /// Both white channels are within their range.
    pub open spec fn wf(&self) -> bool {
        self.warm <= WHITE_MAX && self.cool <= WHITE_MAX
    }
}

impl LightState {
    /// Every channel is within its declared range. The colour channels fill
    /// their byte, so only the white channels can be out of range.
    pub open spec fn wf(&self) -> bool {
        self.white.wf()
    }

    /// The state with every channel at zero.
    pub open spec fn dark() -> LightState {
        LightState {
            rgb: RGBState { red: 0, green: 0, blue: 0 },
            white: WhiteState { warm: 0, cool: 0 },
        }
    }

    /// Tells whether every channel is within its declared range.
    pub fn is_valid(&self) -> (ok: bool)
        ensures
            ok == self.wf(),
    {
        self.white.warm <= WHITE_MAX && self.white.cool <= WHITE_MAX
    }
}

impl Default for RGBState {
    fn default() -> (s: RGBState)
        ensures
            s == LightState::dark().rgb,
    {
        RGBState { red: 0, green: 0, blue: 0 }
    }
}

impl Default for WhiteState {
    fn default() -> (s: WhiteState)
        ensures
            s == LightState::dark().white,
    {
        WhiteState { warm: 0, cool: 0 }
    }
}

impl Default for LightState {
    fn default() -> (s: LightState)
        ensures
            s == LightState::dark(),
            s.wf(),
    {
        LightState {
            rgb: RGBState { red: 0, green: 0, blue: 0 },
            white: WhiteState { warm: 0, cool: 0 },
        }
    }
}

} // verus!
