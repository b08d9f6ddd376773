//! Button bitflags packed into `Input::buttons`.

use vstd::prelude::*;

verus! {

pub const JUMP: u16 = 1u16;

pub const ATTACK: u16 = 2u16;

pub const SHIELD: u16 = 4u16;

pub const GRAB: u16 = 8u16;

pub const SPECIAL: u16 = 16u16;

} // verus!
