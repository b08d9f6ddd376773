//! Netplay limits and the scripted input that drives the determinism gate.

use crate::input::buttons::JUMP;
use crate::input::Input;
use vstd::prelude::*;

verus! {

/// The most machines a netplay session accepts, counting this one.
/// Fighters are not capped.
pub const MAX_NETPLAY_MACHINES: usize = 4;

/// A netplay session asked for more machines than `MAX_NETPLAY_MACHINES`.
#[derive(Clone, Copy, PartialEq, Eq, Structural, Debug)]
pub struct TooManyMachines {
    pub requested: usize,
    pub max: usize,
}

/// Gate for a netplay session: `num_machines` is the distinct peer addresses
/// plus this machine.
pub fn check_netplay_machines(num_machines: usize) -> (r: Result<(), TooManyMachines>)
    ensures
        r is Ok <==> num_machines <= MAX_NETPLAY_MACHINES,
        r is Err ==> r == Err::<(), TooManyMachines>(
            TooManyMachines { requested: num_machines, max: MAX_NETPLAY_MACHINES },
        ),
{
    if num_machines > MAX_NETPLAY_MACHINES {
        return Err(TooManyMachines { requested: num_machines, max: MAX_NETPLAY_MACHINES });
    }
    Ok(())
}

/// The phase of player `handle`'s script at `frame`: each handle runs the
/// same script shifted by 17 frames.
pub open spec fn script_phase(handle: usize, frame: u32) -> u32 {
    vstd::wrapping::u32_specs::wrapping_add(frame, ((handle as u32) * 17) as u32)
}

/// Scripted input: the stick swings fully right and left every 20 frames,
/// and jump is pressed every 45 frames.
pub open spec fn scripted_input_spec(handle: usize, frame: u32) -> Input {
    let phase = script_phase(handle, frame);
    Input {
        buttons: if phase % 45 == 0 { JUMP } else { 0 },
        stick_x: if (phase / 20) % 2 == 0 { 110i8 } else { -110i8 },
        stick_y: 0,
        cstick_x: 0,
        cstick_y: 0,
    }
}

/// Deterministic scripted input so the simulation actually moves during a
/// determinism check.
pub fn scripted_input(handle: usize, frame: u32) -> (r: Input)
    requires
        (handle as u32) * 17 <= u32::MAX,
    ensures
        r == scripted_input_spec(handle, frame),
{
    let mut input = Input::default();
    let phase = frame.wrapping_add(handle as u32 * 17);
    input.stick_x = if (phase / 20).is_multiple_of(2) {
        110
    } else {
        -110
    };
    if phase.is_multiple_of(45) {
        input.buttons = input.buttons | JUMP;
    }
    assert(0u16 | JUMP == JUMP) by (bit_vector);
    input
}

} // verus!
