//! Simulation systems.
//!
//! Mechanics are applied in a fixed, explicit order each tick: input ->
//! horizontal velocity -> jump -> gravity -> integrate -> collision ->
//! resolve.

use crate::input::buttons::JUMP;
use crate::input::Input;
use crate::math::fx::{div_bits, fits_i32, mul_bits, trunc_div, Fx};
use crate::math::vector::V2;
use crate::world::{ActionState, Fighter, Stage};
use vstd::prelude::*;

verus! {

/// Downward acceleration per tick, in raw `I16F16` bits (0.5 px/frame^2).
pub const GRAVITY_BITS: i32 = 32_768;

/// Horizontal speed at full stick, in raw bits (3.0 px/frame).
pub const MOVE_SPEED_BITS: i32 = 196_608;

/// Initial upward velocity of a jump, in raw bits (8.0 px/frame).
pub const JUMP_VELOCITY_BITS: i32 = 524_288;

/// Magnitude of a fully deflected analog stick, in raw bits (127.0).
pub const STICK_MAX_BITS: i32 = 8_323_072;

/// Stick deflection as a fraction of full deflection, in raw bits.
pub open spec fn stick_dir(stick_x: i8) -> int {
    div_bits(stick_x as int * 65536, STICK_MAX_BITS as int)
}

/// Horizontal velocity set from the stick, in raw bits.
pub open spec fn stick_vel_x(stick_x: i8) -> int {
    mul_bits(stick_dir(stick_x), MOVE_SPEED_BITS as int)
}

/// Whether the fighter stands on (or below) the floor before the step.
pub open spec fn grounded(f: Fighter, stage: Stage) -> bool {
    f.pos.y.bits <= stage.floor_y.bits
}

/// Vertical velocity after the jump and gravity phases.
pub open spec fn vel_y_before_collision(f: Fighter, input: Input, stage: Stage) -> int {
    if grounded(f, stage) {
        if input.buttons & JUMP != 0 {
            JUMP_VELOCITY_BITS as int
        } else {
            f.vel.y.bits as int
        }
    } else {
        f.vel.y.bits - GRAVITY_BITS
    }
}

/// Horizontal position after integration, before collision.
pub open spec fn integrated_x(f: Fighter, input: Input) -> int {
    f.pos.x.bits + stick_vel_x(input.stick_x)
}

/// Vertical position after integration, before collision.
pub open spec fn integrated_y(f: Fighter, input: Input, stage: Stage) -> int {
    f.pos.y.bits + vel_y_before_collision(f, input, stage)
}

/// The fixed-point arithmetic of one step stays in range: gravity,
/// and both components of the integration.
pub open spec fn step_in_range(f: Fighter, input: Input, stage: Stage) -> bool {
    &&& fits_i32(vel_y_before_collision(f, input, stage))
    &&& fits_i32(integrated_x(f, input))
    &&& fits_i32(integrated_y(f, input, stage))
}

/// The fighter after one tick.
pub open spec fn step_spec(f: Fighter, input: Input, stage: Stage) -> Fighter {
    let dir = stick_dir(input.stick_x);
    let vx = stick_vel_x(input.stick_x);
    let vy = vel_y_before_collision(f, input, stage);
    let px = integrated_x(f, input);
    let py = integrated_y(f, input, stage);
    let floor = stage.floor_y.bits as int;
    let landed = py < floor;
    let final_y = if landed { floor } else { py };
    let final_vy = if landed && vy < 0 { 0 } else { vy };
    let clamped_left = if px < stage.left.bits { stage.left.bits as int } else { px };
    let final_x = if clamped_left > stage.right.bits { stage.right.bits as int } else { clamped_left };
    Fighter {
        pos: V2 { x: Fx { bits: final_x as i32 }, y: Fx { bits: final_y as i32 } },
        vel: V2 { x: Fx { bits: vx as i32 }, y: Fx { bits: final_vy as i32 } },
        state: if final_y <= floor { ActionState::Idle } else { ActionState::Airborne },
        facing_right: if dir > 0 { true } else if dir < 0 { false } else { f.facing_right },
    }
}

/// The stick direction is the deflection over 127, rounded toward zero, and
/// has the stick's sign.
pub proof fn lemma_stick_dir(stick_x: i8)
    ensures
        stick_dir(stick_x) == trunc_div(stick_x as int * 65536, 127),
        stick_x > 0 ==> stick_dir(stick_x) > 0,
        stick_x < 0 ==> stick_dir(stick_x) < 0,
        stick_x == 0 ==> stick_dir(stick_x) == 0,
        -66052 <= stick_dir(stick_x) <= 66052,
        stick_vel_x(stick_x) == 3 * stick_dir(stick_x),
{
    let s = stick_x as int;
    let d = stick_dir(stick_x);
    if s >= 0 {
        assert(d == (s * 65536 * 65536) / 8323072);
        assert((s * 65536 * 65536) / 8323072 == (s * 65536) / 127) by (nonlinear_arith)
            requires
                s >= 0,
        {
            vstd::arithmetic::div_mod::lemma_div_denominator(s * 65536 * 65536, 65536, 127);
            vstd::arithmetic::div_mod::lemma_div_multiples_vanish(s * 65536, 65536);
        }
    } else {
        assert(d == -((-s * 65536 * 65536) / 8323072));
        assert((-s * 65536 * 65536) / 8323072 == (-s * 65536) / 127) by (nonlinear_arith)
            requires
                s < 0,
        {
            vstd::arithmetic::div_mod::lemma_div_denominator(-s * 65536 * 65536, 65536, 127);
            vstd::arithmetic::div_mod::lemma_div_multiples_vanish(-s * 65536, 65536);
        }
    }
    assert(stick_vel_x(stick_x) == (d * 196608) / 65536);
    assert((d * 196608) / 65536 == 3 * d) by (nonlinear_arith);
}

/// After any step the fighter stands on or above the floor, never right of
/// the right wall, and (on a stage whose walls are in order) never left of the
/// left wall; it is labelled `Idle` exactly when it stands on the floor, and
/// it never keeps falling through the floor.
pub proof fn lemma_step_keeps_fighter_on_stage(f: Fighter, input: Input, stage: Stage)
    requires
        step_in_range(f, input, stage),
    ensures
        step_spec(f, input, stage).pos.y.bits >= stage.floor_y.bits,
        step_spec(f, input, stage).pos.x.bits <= stage.right.bits,
        stage.left.bits <= stage.right.bits ==> stage.left.bits <= step_spec(
            f,
            input,
            stage,
        ).pos.x.bits,
        (step_spec(f, input, stage).state == ActionState::Idle) == (step_spec(
            f,
            input,
            stage,
        ).pos.y.bits == stage.floor_y.bits),
        step_spec(f, input, stage).state == ActionState::Idle || step_spec(
            f,
            input,
            stage,
        ).state == ActionState::Airborne,
        integrated_y(f, input, stage) < stage.floor_y.bits ==> step_spec(
            f,
            input,
            stage,
        ).vel.y.bits >= 0,
{
}

/// The stick alone sets the horizontal velocity, three pixels per frame at
/// full deflection and scaled down toward zero in between, and turns the
/// fighter toward the side it is pushed; a centred stick keeps the facing.
pub proof fn lemma_step_follows_stick(f: Fighter, input: Input, stage: Stage)
    ensures
        step_spec(f, input, stage).vel.x.bits == 3 * trunc_div(input.stick_x as int * 65536, 127),
        input.stick_x > 0 ==> step_spec(f, input, stage).facing_right,
        input.stick_x < 0 ==> !step_spec(f, input, stage).facing_right,
        input.stick_x == 0 ==> step_spec(f, input, stage).facing_right == f.facing_right,
        input.stick_x == 0 ==> step_spec(f, input, stage).vel.x.bits == 0,
{
    lemma_stick_dir(input.stick_x);
}

/// A jump starts only from the ground, and a fighter in the air accelerates
/// downward by gravity until it lands.
pub proof fn lemma_step_jump_and_gravity(f: Fighter, input: Input, stage: Stage)
    requires
        step_in_range(f, input, stage),
    ensures
        grounded(f, stage) && input.buttons & JUMP != 0 && integrated_y(f, input, stage)
            >= stage.floor_y.bits ==> step_spec(f, input, stage).vel.y.bits
            == JUMP_VELOCITY_BITS,
        !grounded(f, stage) && integrated_y(f, input, stage) >= stage.floor_y.bits ==> step_spec(
            f,
            input,
            stage,
        ).vel.y.bits == f.vel.y.bits - GRAVITY_BITS,
{
}

/// Grounded or airborne, the fighter moves by its new velocity: its new
/// horizontal position is its old one plus its new horizontal velocity, held
/// between the walls; and while it is above the floor afterwards, its new
/// height is its old height plus its new vertical velocity.
pub proof fn lemma_step_integrates_velocity(f: Fighter, input: Input, stage: Stage)
    requires
        step_in_range(f, input, stage),
    ensures
        ({
            let g = step_spec(f, input, stage);
            let moved = f.pos.x.bits + g.vel.x.bits;
            let past_left = if moved < stage.left.bits { stage.left.bits as int } else { moved };
            g.pos.x.bits == if past_left > stage.right.bits { stage.right.bits as int } else { past_left }
        }),
        ({
            let g = step_spec(f, input, stage);
            g.pos.y.bits > stage.floor_y.bits ==> g.pos.y.bits == f.pos.y.bits + g.vel.y.bits
        }),
{
}

/// Whether one step of `f` keeps its fixed-point arithmetic in range.
pub fn step_fits(f: &Fighter, input: Input, stage: &Stage) -> (r: bool)
    ensures
        r == step_in_range(*f, input, *stage),
{
    proof {
        lemma_stick_dir(input.stick_x);
    }
    let dir = Fx::from_num(input.stick_x as i32).div(Fx::from_bits(STICK_MAX_BITS));
    let vx = dir.mul(Fx::from_bits(MOVE_SPEED_BITS));
    let on_ground = f.pos.y.bits <= stage.floor_y.bits;
    let vy: i64 = if on_ground {
        if input.pressed(JUMP) {
            JUMP_VELOCITY_BITS as i64
        } else {
            f.vel.y.bits as i64
        }
    } else {
        f.vel.y.bits as i64 - GRAVITY_BITS as i64
    };
    let px: i64 = f.pos.x.bits as i64 + vx.bits as i64;
    let py: i64 = f.pos.y.bits as i64 + vy;
    let lo: i64 = i32::MIN as i64;
    let hi: i64 = i32::MAX as i64;
    lo <= vy && vy <= hi && lo <= px && px <= hi && lo <= py && py <= hi
}

/// Advance a single fighter by one tick. Pure: depends only on its inputs.
pub fn step_fighter(f: &mut Fighter, input: Input, stage: &Stage)
    requires
        step_in_range(*old(f), input, *stage),
    ensures
        *final(f) == step_spec(*old(f), input, *stage),
{
    proof {
        lemma_stick_dir(input.stick_x);
    }
    let ghost f0 = *f;
    // 1. Input -> horizontal velocity.
    let dir = Fx::from_num(input.stick_x as i32).div(Fx::from_bits(STICK_MAX_BITS));
    f.vel.x = dir.mul(Fx::from_bits(MOVE_SPEED_BITS));
    if dir.bits > 0 {
        f.facing_right = true;
    } else if dir.bits < 0 {
        f.facing_right = false;
    }

    let on_ground = f.pos.y.bits <= stage.floor_y.bits;

    // 2. Jump (a state override on the generic physics below).
    if on_ground && input.pressed(JUMP) {
        f.vel.y = Fx::from_bits(JUMP_VELOCITY_BITS);
    }

    // 3. Generic physics: gravity while airborne.
    if !on_ground {
        f.vel.y = f.vel.y.sub(Fx::from_bits(GRAVITY_BITS));
    }

    // 4. Integrate.
    f.pos = f.pos.add(f.vel);

    // 5. Collision against the stage.
    if f.pos.y.bits < stage.floor_y.bits {
        f.pos.y = stage.floor_y;
        if f.vel.y.bits < 0 {
            f.vel.y = Fx::zero();
        }
    }
    if f.pos.x.bits < stage.left.bits {
        f.pos.x = stage.left;
    }
    if f.pos.x.bits > stage.right.bits {
        f.pos.x = stage.right;
    }

    // 6. Resolve the action state label.
    f.state = if f.pos.y.bits <= stage.floor_y.bits {
        ActionState::Idle
    } else {
        ActionState::Airborne
    };
}

} // verus!
