//! The serializable game state and the pure `advance` function.

use crate::input::Input;
use crate::math::fx::{div_bits, fits_i32, mul_bits, Fx};
use crate::math::rng::{xorshift_step, Rng};
use crate::math::vector::V2;
use crate::systems::{
    grounded, integrated_x, integrated_y, lemma_step_keeps_fighter_on_stage, lemma_stick_dir,
    stick_vel_x, step_fighter, step_fits, step_in_range, step_spec, vel_y_before_collision,
    GRAVITY_BITS,
};
use vstd::prelude::*;

verus! {

/// A character's high-level action state.
#[derive(Clone, Copy, PartialEq, Eq, Structural, Hash, Debug)]
pub enum ActionState {
    Idle,
    Walk,
    Airborne,
    Hitstun,
}

/// One fighter's complete simulation state.
#[derive(Clone, Copy, PartialEq, Eq, Structural, Hash, Debug)]
pub struct Fighter {
    pub pos: V2,
    pub vel: V2,
    pub state: ActionState,
    pub facing_right: bool,
}

/// The stage geometry: a single flat floor between two walls.
#[derive(Clone, Copy, PartialEq, Eq, Structural, Hash, Debug)]
pub struct Stage {
    pub floor_y: Fx,
    pub left: Fx,
    pub right: Fx,
}


/// Seed of the simulation's random number generator in a fresh world.
pub const WORLD_SEED: u64 = 0x9E37_79B9_7F4A_7C15;

/// The entire game state. A snapshot for rollback is a clone of it.
#[derive(Clone, PartialEq, Eq, Hash, Debug)]
pub struct World {
    pub players: Vec<Fighter>,
    pub stage: Stage,
    pub frame: u32,
    pub rng: Rng,
}

/// The abstract value of a world: its fighters, stage, frame number and
/// generator state.
pub struct WorldModel {
    pub players: Seq<Fighter>,
    pub stage: Stage,
    pub frame: u32,
    pub rng: u64,
}

impl View for World {
    type V = WorldModel;

    open spec fn view(&self) -> WorldModel {
        WorldModel {
            players: self.players@,
            stage: self.stage,
            frame: self.frame,
            rng: self.rng.state(),
        }
    }
}

/// The world after one tick with `inputs`.
pub open spec fn advance_model(w: WorldModel, inputs: Seq<Input>) -> WorldModel {
    WorldModel {
        players: advance_players(w.players, inputs, w.stage),
        stage: w.stage,
        frame: (w.frame + 1) as u32,
        rng: xorshift_step(w.rng),
    }
}

/// Raw bits of the stage's left wall (-200.0).
pub const STAGE_LEFT_BITS: i32 = -13_107_200;

/// Raw bits of the stage's right wall (200.0).
pub const STAGE_RIGHT_BITS: i32 = 13_107_200;

/// The stage of a fresh world: a floor at height zero between walls at
/// -200 and 200.
pub open spec fn starting_stage() -> Stage {
    Stage {
        floor_y: Fx { bits: 0 },
        left: Fx { bits: STAGE_LEFT_BITS },
        right: Fx { bits: STAGE_RIGHT_BITS },
    }
}

/// Distance between neighbouring spawn points, in raw bits: the stage width
/// divided by one more than the number of fighters.
pub open spec fn spawn_step(n: int) -> int {
    div_bits(STAGE_RIGHT_BITS - STAGE_LEFT_BITS, (n + 1) * 65536)
}

/// Spawn position of fighter `i` of `n`, in raw bits.
pub open spec fn spawn_x(n: int, i: int) -> int {
    STAGE_LEFT_BITS + mul_bits(spawn_step(n), (i + 1) * 65536)
}

/// Fighter `i` of `n` in a fresh world: standing still on the floor at its
/// spawn point, idle, facing the centre of the stage.
pub open spec fn spawned_fighter(n: int, i: int) -> Fighter {
    Fighter {
        pos: V2 { x: Fx { bits: spawn_x(n, i) as i32 }, y: Fx { bits: 0 } },
        vel: V2 { x: Fx { bits: 0 }, y: Fx { bits: 0 } },
        state: ActionState::Idle,
        facing_right: spawn_x(n, i) <= 0,
    }
}

/// The spawn step is the stage width (in raw bits) divided by `n + 1`,
/// rounded down; it is positive for any player count a world accepts.
pub proof fn lemma_spawn_step(n: int)
    requires
        0 <= n <= 32766,
    ensures
        spawn_step(n) == 26214400int / (n + 1),
        800 <= spawn_step(n) <= 26214400,
        spawn_step(n) * (n + 1) <= 26214400,
{
    let d = n + 1;
    let w: int = 26214400;
    let k: int = 65536;
    assert(spawn_step(n) == (w * k) / (d * k));
    assert((w * k) / (d * k) == w / d) by {
        vstd::arithmetic::div_mod::lemma_div_denominator(w * k, k, d);
        vstd::arithmetic::div_mod::lemma_div_multiples_vanish(w, k);
        vstd::arithmetic::mul::lemma_mul_is_commutative(w, k);
        vstd::arithmetic::mul::lemma_mul_is_commutative(k, d);
    }
    assert(w / d >= 800) by {
        vstd::arithmetic::div_mod::lemma_div_is_ordered_by_denominator(w, d, 32767);
    }
    assert(w / d <= w) by {
        vstd::arithmetic::div_mod::lemma_div_is_ordered_by_denominator(w, 1, d);
    }
    assert((w / d) * d <= w) by {
        vstd::arithmetic::div_mod::lemma_fundamental_div_mod(w, d);
        vstd::arithmetic::mul::lemma_mul_is_commutative(d, w / d);
    }
}

/// Spawn points are `step, 2 step, ...` to the right of the left wall.
pub proof fn lemma_spawn_x(n: int, i: int)
    requires
        0 <= i < n <= 32766,
    ensures
        spawn_x(n, i) == STAGE_LEFT_BITS + spawn_step(n) * (i + 1),
        STAGE_LEFT_BITS < spawn_x(n, i) < STAGE_RIGHT_BITS,
        fits_i32(mul_bits(spawn_step(n), (i + 1) * 65536)),
{
    lemma_spawn_step(n);
    let s = spawn_step(n);
    assert(mul_bits(s, (i + 1) * 65536) == s * (i + 1)) by (nonlinear_arith)
        requires
            s >= 0,
            i >= 0,
    {
        vstd::arithmetic::div_mod::lemma_div_multiples_vanish(s * (i + 1), 65536);
        vstd::arithmetic::mul::lemma_mul_is_associative(s, i + 1, 65536);
        vstd::arithmetic::mul::lemma_mul_is_commutative(s * (i + 1), 65536);
    }
    assert(s * (i + 1) <= s * n) by (nonlinear_arith)
        requires
            s >= 0,
            i + 1 <= n,
    ;
    assert(s * (i + 1) >= s) by (nonlinear_arith)
        requires
            s >= 0,
            i >= 0,
    ;
    assert(s * (n + 1) == s * n + s) by (nonlinear_arith);
}

/// Every fighter of a fresh world stands on the floor strictly between the
/// walls, neighbours are one spawn step apart (so the spread is even and
/// left to right), and each faces the centre of the stage.
pub proof fn lemma_spawn_on_stage(n: int, i: int)
    requires
        0 <= i < n <= 32766,
    ensures
        starting_stage().left.bits < spawned_fighter(n, i).pos.x.bits < starting_stage().right.bits,
        spawned_fighter(n, i).pos.y == starting_stage().floor_y,
        i + 1 < n ==> spawned_fighter(n, i + 1).pos.x.bits - spawned_fighter(n, i).pos.x.bits
            == spawn_step(n),
        spawn_step(n) > 0,
        spawned_fighter(n, i).facing_right == (spawned_fighter(n, i).pos.x.bits <= 0),
{
    lemma_spawn_x(n, i);
    lemma_spawn_step(n);
    if i + 1 < n {
        lemma_spawn_x(n, i + 1);
        assert(spawn_step(n) * (i + 2) == spawn_step(n) * (i + 1) + spawn_step(n)) by (
        nonlinear_arith);
    }
}

impl World {
    /// The initial state: `num_players` fighters spread evenly across a flat
    /// stage, each facing the center. Zero players is a valid, empty world.
    pub fn new(num_players: usize) -> (r: World)
        requires
            num_players <= 32766,
        ensures
            r.players@.len() == num_players,
            forall|i: int|
                0 <= i < num_players ==> r.players@[i] == spawned_fighter(num_players as int, i),
            r.stage == starting_stage(),
            r.frame == 0,
            r.rng.state() == WORLD_SEED | 1u64,
            world_in_play(r@),
    {
        let stage = Stage {
            floor_y: Fx::from_num(0),
            left: Fx::from_num(-200),
            right: Fx::from_num(200),
        };
        proof {
            lemma_spawn_step(num_players as int);
        }
        // Divide before multiplying: `width * (n + 1)` overflows past ~80 players.
        let step = stage.right.sub(stage.left).div(Fx::from_num(num_players as i32 + 1));
        let mut players: Vec<Fighter> = Vec::with_capacity(num_players);
        let mut i: usize = 0;
        while i < num_players
            invariant
                i <= num_players <= 32766,
                stage == starting_stage(),
                step.bits == spawn_step(num_players as int),
                players@.len() == i,
                forall|j: int|
                    0 <= j < i ==> players@[j] == spawned_fighter(num_players as int, j),
            decreases num_players - i,
        {
            proof {
                lemma_spawn_x(num_players as int, i as int);
            }
            let x = stage.left.add(step.mul(Fx::from_num(i as i32 + 1)));
            players.push(
                Fighter {
                    pos: V2::new(x, stage.floor_y),
                    vel: V2::zero(),
                    state: ActionState::Idle,
                    facing_right: x.bits <= 0,
                },
            );
            i = i + 1;
        }
        let r = World { players, stage, frame: 0, rng: Rng::new(WORLD_SEED) };
        assert forall|i: int| 0 <= i < r.players@.len() implies in_play(#[trigger] r.players@[i]) by {
            lemma_spawned_in_play(num_players as int, i);
        }
        r
    }
}


/// One tick of every fighter, fighter `i` driven by input `i`.
pub open spec fn advance_players(ps: Seq<Fighter>, inputs: Seq<Input>, stage: Stage) -> Seq<
    Fighter,
> {
    Seq::new(ps.len(), |i: int| step_spec(ps[i], inputs[i], stage))
}

/// The fixed-point arithmetic of every fighter's step stays in range.
pub open spec fn advance_in_range(ps: Seq<Fighter>, inputs: Seq<Input>, stage: Stage) -> bool {
    forall|i: int| 0 <= i < ps.len() ==> step_in_range(#[trigger] ps[i], inputs[i], stage)
}

/// Every fighter stands on the stage: between the walls, on or above the floor.
pub open spec fn all_on_stage(ps: Seq<Fighter>, stage: Stage) -> bool {
    forall|i: int|
        0 <= i < ps.len() ==> stage.left.bits <= (#[trigger] ps[i]).pos.x.bits <= stage.right.bits
            && ps[i].pos.y.bits >= stage.floor_y.bits
}

impl World {
    /// Advance the simulation by exactly one 60 Hz tick: a pure function of
    /// the current state and the given inputs, one per fighter.
    pub fn advance(&mut self, inputs: &[Input])
        requires
            inputs@.len() == old(self).players@.len(),
            advance_in_range(old(self).players@, inputs@, old(self).stage),
            old(self).frame < u32::MAX,
        ensures
            final(self).players@ == advance_players(old(self).players@, inputs@, old(self).stage),
            final(self).stage == old(self).stage,
            final(self).frame == old(self).frame + 1,
            final(self).rng.state() == xorshift_step(old(self).rng.state()),
            final(self)@ == advance_model(old(self)@, inputs@),
    {
        let n = self.players.len();
        let ghost before = self.players@;
        let mut i: usize = 0;
        while i < n
            invariant
                n == self.players@.len() == before.len() == inputs@.len(),
                i <= n,
                self.stage == old(self).stage,
                self.frame == old(self).frame,
                self.rng == old(self).rng,
                before == old(self).players@,
                advance_in_range(before, inputs@, self.stage),
                forall|j: int| 0 <= j < i ==> self.players@[j] == step_spec(before[j], inputs@[j], self.stage),
                forall|j: int| i <= j < n ==> self.players@[j] == before[j],
            decreases n - i,
        {
            let mut f = self.players[i];
            assert(step_in_range(before[i as int], inputs@[i as int], self.stage));
            step_fighter(&mut f, inputs[i], &self.stage);
            self.players.set(i, f);
            i = i + 1;
        }
        assert(self.players@ =~= advance_players(before, inputs@, self.stage));
        // Keep the RNG evolving as part of the state even before any system
        // consumes it.
        let _ = self.rng.next_u32();
        self.frame = self.frame + 1;
    }
}

/// Advancing keeps every fighter on a stage whose walls are in order,
/// whatever the fighters and inputs were.
pub proof fn lemma_advance_keeps_fighters_on_stage(ps: Seq<Fighter>, inputs: Seq<Input>, stage: Stage)
    requires
        inputs.len() == ps.len(),
        advance_in_range(ps, inputs, stage),
        stage.left.bits <= stage.right.bits,
    ensures
        all_on_stage(advance_players(ps, inputs, stage), stage),
        advance_players(ps, inputs, stage).len() == ps.len(),
{
    assert forall|i: int| 0 <= i < ps.len() implies stage.left.bits <= (#[trigger] advance_players(
        ps,
        inputs,
        stage,
    )[i]).pos.x.bits <= stage.right.bits && advance_players(ps, inputs, stage)[i].pos.y.bits
        >= stage.floor_y.bits by {
        assert(step_in_range(ps[i], inputs[i], stage));
        lemma_step_keeps_fighter_on_stage(ps[i], inputs[i], stage);
    }
}

/// Advancing is deterministic: the same fighters, inputs and stage give the
/// same fighters, and each fighter's next state depends only on itself, its
/// own input and the stage.
pub proof fn lemma_advance_is_pure(
    ps1: Seq<Fighter>,
    ps2: Seq<Fighter>,
    inputs1: Seq<Input>,
    inputs2: Seq<Input>,
    stage: Stage,
    i: int,
)
    requires
        ps1.len() == ps2.len(),
        0 <= i < ps1.len(),
        ps1[i] == ps2[i],
        inputs1[i] == inputs2[i],
    ensures
        advance_players(ps1, inputs1, stage)[i] == advance_players(ps2, inputs2, stage)[i],
        ps1 == ps2 && inputs1 == inputs2 ==> advance_players(ps1, inputs1, stage)
            == advance_players(ps2, inputs2, stage),
{
}


impl World {
    /// A copy of this state: the rollback snapshot.
    pub fn snapshot(&self) -> (r: World)
        ensures
            r@ == self@,
            r.rng == self.rng,
    {
        let mut players: Vec<Fighter> = Vec::with_capacity(self.players.len());
        let mut i: usize = 0;
        while i < self.players.len()
            invariant
                i <= self.players@.len(),
                players@ == self.players@.take(i as int),
            decreases self.players@.len() - i,
        {
            players.push(self.players[i]);
            i = i + 1;
            assert(players@ =~= self.players@.take(i as int));
        }
        assert(self.players@.take(self.players@.len() as int) =~= self.players@);
        World { players, stage: self.stage, frame: self.frame, rng: self.rng }
    }

    /// Whether `advance(inputs)` is defined on this state: one input per
    /// fighter, every fighter's arithmetic in range, and a frame counter that
    /// can still count up.
    pub fn can_advance(&self, inputs: &[Input]) -> (r: bool)
        ensures
            r == (inputs@.len() == self.players@.len() && advance_in_range(
                self.players@,
                inputs@,
                self.stage,
            ) && self.frame < u32::MAX),
    {
        if inputs.len() != self.players.len() || self.frame == u32::MAX {
            return false;
        }
        let mut i: usize = 0;
        while i < inputs.len()
            invariant
                inputs@.len() == self.players@.len(),
                i <= inputs@.len(),
                forall|j: int|
                    0 <= j < i ==> step_in_range(
                        #[trigger] self.players@[j],
                        inputs@[j],
                        self.stage,
                    ),
            decreases inputs@.len() - i,
        {
            if !step_fits(&self.players[i], inputs[i], &self.stage) {
                return false;
            }
            i = i + 1;
        }
        true
    }
}

impl Default for World {
    /// A two-fighter world.
    fn default() -> (r: World)
        ensures
            r.players@.len() == 2,
            forall|i: int| 0 <= i < 2 ==> r.players@[i] == spawned_fighter(2, i),
            r.stage == starting_stage(),
            r.frame == 0,
            r.rng.state() == WORLD_SEED | 1u64,
    {
        World::new(2)
    }
}

/// Twice the height of a fighter's arc, times gravity, plus the kinetic
/// term `v (v - g)`: every airborne tick keeps it unchanged.
pub open spec fn arc_energy(f: Fighter) -> int {
    2 * GRAVITY_BITS * f.pos.y.bits + f.vel.y.bits * (f.vel.y.bits - GRAVITY_BITS)
}

/// The arc energy of a fighter that has just jumped off the floor.
pub open spec fn jump_energy() -> int {
    272 * GRAVITY_BITS * GRAVITY_BITS
}

/// A fighter in play on the starting stage: between the walls, on or above
/// the floor, not rising while it stands on the floor, and on an arc no
/// higher than a jump's.
pub open spec fn in_play(f: Fighter) -> bool {
    &&& STAGE_LEFT_BITS <= f.pos.x.bits <= STAGE_RIGHT_BITS
    &&& f.pos.y.bits >= 0
    &&& f.pos.y.bits == 0 ==> f.vel.y.bits <= 0
    &&& arc_energy(f) <= jump_energy()
}

/// A world in play: the starting stage, every fighter in play.
pub open spec fn world_in_play(w: WorldModel) -> bool {
    &&& w.stage == starting_stage()
    &&& forall|i: int| 0 <= i < w.players.len() ==> in_play(#[trigger] w.players[i])
}

/// On an arc no higher than a jump's, the vertical speed is at most 17
/// gravity steps and the height at most 137.
proof fn lemma_arc_bounds(y: int, v: int)
    requires
        y >= 0,
        2 * 32768 * y + v * (v - 32768) <= 272 * 32768 * 32768,
    ensures
        -16 * 32768 <= v <= 17 * 32768,
        y <= 137 * 32768,
{
    assert(v * (v - 32768) >= -16384 * 16384) by (nonlinear_arith) {
        assert((v - 16384) * (v - 16384) >= 0);
        assert(v * (v - 32768) == (v - 16384) * (v - 16384) - 16384 * 16384);
    }
    assert(2 * 32768 * y <= 272 * 32768 * 32768 + 16384 * 16384);
    assert(y <= 137 * 32768) by (nonlinear_arith)
        requires
            2 * 32768 * y <= 272 * 32768 * 32768 + 16384 * 16384,
    ;
    if v < -16 * 32768 {
        assert(v * (v - 32768) > 272 * 32768 * 32768) by (nonlinear_arith)
            requires
                v < -16 * 32768,
        ;
    }
    if v > 17 * 32768 {
        assert(v * (v - 32768) > 272 * 32768 * 32768) by (nonlinear_arith)
            requires
                v > 17 * 32768,
        ;
    }
}

/// A tick of a fighter in play stays in range and keeps it in play,
/// whatever the input: its arc energy is unchanged in the air, reset on
/// landing, and set to a jump's on take-off.
pub proof fn lemma_step_stays_in_play(f: Fighter, input: Input)
    requires
        in_play(f),
    ensures
        step_in_range(f, input, starting_stage()),
        in_play(step_spec(f, input, starting_stage())),
{
    let stage = starting_stage();
    let y = f.pos.y.bits as int;
    let v = f.vel.y.bits as int;
    lemma_arc_bounds(y, v);
    lemma_stick_dir(input.stick_x);
    lemma_step_keeps_fighter_on_stage(f, input, stage);
    let vy = vel_y_before_collision(f, input, stage);
    let py = integrated_y(f, input, stage);
    let g = step_spec(f, input, stage);
    if grounded(f, stage) {
        assert(y == 0);
        if vy > 0 {
            assert(vy == 524288);
            assert(g.pos.y.bits == 524288 && g.vel.y.bits == 524288);
            let gy = g.pos.y.bits as int;
            let gv = g.vel.y.bits as int;
            assert(arc_energy(g) == 2 * 32768 * gy + gv * (gv - 32768));
            assert(2 * 32768 * gy + gv * (gv - 32768) == 272 * 32768 * 32768) by (nonlinear_arith)
                requires
                    gy == 524288,
                    gv == 524288,
            ;
        } else {
            assert(g.pos.y.bits == 0 && g.vel.y.bits == 0);
        }
    } else {
        assert(vy == v - 32768);
        assert(py == y + v - 32768);
        if py < 0 {
            assert(g.pos.y.bits == 0 && g.vel.y.bits == 0);
        } else {
            assert(g.pos.y.bits == py && g.vel.y.bits == vy);
            assert(2 * 32768 * (y + v - 32768) + (v - 32768) * (v - 32768 - 32768) == 2 * 32768 * y
                + v * (v - 32768)) by (nonlinear_arith);
        }
    }
}

/// A freshly spawned fighter is in play.
pub proof fn lemma_spawned_in_play(n: int, i: int)
    requires
        0 <= i < n <= 32766,
    ensures
        in_play(spawned_fighter(n, i)),
{
    lemma_spawn_on_stage(n, i);
}

/// Reachable worlds can always be advanced: a world in play accepts any one
/// input per fighter without leaving the fixed-point range, and stays in
/// play. With `World::new` (whose fighters are in play) this covers every
/// world the demo builds and advances.
pub proof fn lemma_world_in_play_can_advance(w: WorldModel, inputs: Seq<Input>)
    requires
        world_in_play(w),
        inputs.len() == w.players.len(),
    ensures
        advance_in_range(w.players, inputs, w.stage),
        world_in_play(advance_model(w, inputs)),
{
    assert forall|i: int| 0 <= i < w.players.len() implies step_in_range(
        #[trigger] w.players[i],
        inputs[i],
        w.stage,
    ) && in_play(step_spec(w.players[i], inputs[i], w.stage)) by {
        lemma_step_stays_in_play(w.players[i], inputs[i]);
    }
    let next = advance_model(w, inputs);
    assert forall|i: int| 0 <= i < next.players.len() implies in_play(#[trigger] next.players[i]) by {
        assert(next.players[i] == step_spec(w.players[i], inputs[i], w.stage));
    }
}

} // verus!
