//! Player input: the only thing that travels over the network for rollback.

pub mod buttons;

use vstd::prelude::*;

verus! {

/// One player's input for a single 60 Hz tick. Analog sticks are quantized
/// to `i8`.
#[derive(Clone, Copy, PartialEq, Eq, Structural, Hash, Debug)]
pub struct Input {
    pub buttons: u16,
    pub stick_x: i8,
    pub stick_y: i8,
    pub cstick_x: i8,
    pub cstick_y: i8,
}

/// The neutral input: no button held, both sticks centred.
pub open spec fn neutral_input() -> Input {
    Input { buttons: 0, stick_x: 0, stick_y: 0, cstick_x: 0, cstick_y: 0 }
}

impl Default for Input {
    fn default() -> (r: Input)
        ensures
            r == neutral_input(),
    {
        Input { buttons: 0, stick_x: 0, stick_y: 0, cstick_x: 0, cstick_y: 0 }
    }
}

impl Input {
    /// Whether any button in `mask` is held.
    pub fn pressed(&self, mask: u16) -> (r: bool)
        ensures
            r == (self.buttons & mask != 0),
    {
        self.buttons & mask != 0
    }
}

} // verus!
