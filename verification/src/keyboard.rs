//! The input a keyboard layout produces from the state of its keys.

use crate::input::buttons::JUMP;
use crate::input::Input;
use vstd::prelude::*;

verus! {

/// Stick deflection produced by one held direction key.
pub const KEY_STICK: i32 = 110;

/// The input of a layout whose left, right and jump keys are in the given
/// states: each held direction pushes the stick 110 that way (both cancel
/// out), and the jump key presses jump.
pub open spec fn keyboard_input_spec(left_down: bool, right_down: bool, jump_down: bool) -> Input {
    Input {
        buttons: if jump_down { JUMP } else { 0 },
        stick_x: ((if left_down { -KEY_STICK } else { 0 }) + (if right_down { KEY_STICK } else { 0 })) as i8,
        stick_y: 0,
        cstick_x: 0,
        cstick_y: 0,
    }
}

/// The direction keys alone set the stick: 110 to the left or to the right
/// when one of them is held, centred when both or neither are, whatever the
/// jump key; the jump key alone sets the jump button, and nothing else is
/// pressed or deflected.
pub proof fn lemma_keyboard_keys_independent(left_down: bool, right_down: bool, jump_down: bool)
    ensures
        left_down && !right_down ==> keyboard_input_spec(left_down, right_down, jump_down).stick_x
            == -110,
        right_down && !left_down ==> keyboard_input_spec(left_down, right_down, jump_down).stick_x
            == 110,
        left_down == right_down ==> keyboard_input_spec(left_down, right_down, jump_down).stick_x
            == 0,
        keyboard_input_spec(left_down, right_down, jump_down).stick_x == keyboard_input_spec(
            left_down,
            right_down,
            !jump_down,
        ).stick_x,
        (keyboard_input_spec(left_down, right_down, jump_down).buttons & JUMP != 0) == jump_down,
        keyboard_input_spec(left_down, right_down, jump_down).buttons & !JUMP == 0,
        keyboard_input_spec(left_down, right_down, jump_down).stick_y == 0,
        keyboard_input_spec(left_down, right_down, jump_down).cstick_x == 0,
        keyboard_input_spec(left_down, right_down, jump_down).cstick_y == 0,
{
    let b = keyboard_input_spec(left_down, right_down, jump_down).buttons;
    assert(JUMP & JUMP != 0 && JUMP & !JUMP == 0 && 0u16 & JUMP == 0 && 0u16 & !JUMP == 0) by (bit_vector);
}

/// One poll of a keyboard layout, given which of its keys are down.
pub fn keyboard_input(left_down: bool, right_down: bool, jump_down: bool) -> (r: Input)
    ensures
        r == keyboard_input_spec(left_down, right_down, jump_down),
{
    let mut input = Input::default();
    let mut sx: i32 = 0;
    if left_down {
        sx = sx - KEY_STICK;
    }
    if right_down {
        sx = sx + KEY_STICK;
    }
    input.stick_x = sx as i8;
    if jump_down {
        input.buttons = input.buttons | JUMP;
    }
    assert(0u16 | JUMP == JUMP) by (bit_vector);
    input
}

} // verus!
