//! The decisions a rollback session makes each tick: which handles are
//! local, how frame counters read, which session errors are routine, and how
//! each save / load / advance request changes the world.

use crate::input::Input;
use crate::checksum::checksum_spec;
use crate::world::{
    advance_in_range, advance_model, lemma_world_in_play_can_advance, world_in_play, World,
    WorldModel,
};
use vstd::prelude::*;

verus! {

/// Index of a player in the session, `0..num_players`.
pub type PlayerHandle = usize;

/// What one session tick did.
#[derive(Clone, Copy, PartialEq, Eq, Structural, Debug)]
pub struct Advanced {
    /// World ticks run: 0 while waiting, more than 1 after a rollback.
    pub frames: u32,
    /// Whether the world was rewound before re-simulating.
    pub rolled_back: bool,
}

impl Default for Advanced {
    /// No tick run, no rewind.
    fn default() -> (r: Advanced)
        ensures
            r == (Advanced { frames: 0, rolled_back: false }),
    {
        Advanced { frames: 0, rolled_back: false }
    }
}

/// The rollback engine's refusals, as plain values.
#[derive(Clone, PartialEq, Eq, Debug)]
pub enum SessionFailure {
    /// Too far ahead of the peers to accept more local input.
    PredictionThreshold,
    /// A bad handle, a missing local input, or a misconfiguration.
    InvalidRequest { info: String },
    /// Re-simulated frames did not reproduce their checksums.
    MismatchedChecksum { current_frame: i32, mismatched_frames: Vec<i32> },
    /// Peers are still synchronizing.
    NotSynchronized,
    /// A spectator fell too far behind to catch up.
    SpectatorTooFarBehind,
}

/// Why a session could not be built or advanced.
#[derive(Clone, PartialEq, Eq, Debug)]
pub enum SessionError {
    /// A session needs at least one player.
    NoPlayers,
    /// The rollback engine refused.
    Ggrs(SessionFailure),
}

/// The handles of a local session of `num_players`: all of `0..num_players`,
/// or `NoPlayers` when there are none.
pub fn local_handles(num_players: usize) -> (r: Result<Vec<PlayerHandle>, SessionError>)
    ensures
        r is Ok <==> num_players > 0,
        r is Err ==> r->Err_0 == SessionError::NoPlayers,
        r is Ok ==> r->Ok_0@ == Seq::new(num_players as nat, |i: int| i as usize),
{
    if num_players == 0 {
        return Err(SessionError::NoPlayers);
    }
    let mut handles: Vec<PlayerHandle> = Vec::with_capacity(num_players);
    let mut h: usize = 0;
    while h < num_players
        invariant
            h <= num_players,
            handles@ == Seq::new(h as nat, |i: int| i as usize),
        decreases num_players - h,
    {
        handles.push(h);
        h = h + 1;
        assert(handles@ =~= Seq::new(h as nat, |i: int| i as usize));
    }
    Ok(handles)
}

/// Frames a session has advanced, from the engine's current frame (which
/// counts from 0 and uses -1 for "none").
pub fn frame_count_from(current_frame: i32) -> (r: u32)
    ensures
        r == (if current_frame < 0 { 0 } else { current_frame as int }),
{
    if current_frame < 0 {
        0
    } else {
        current_frame as u32
    }
}

/// The newest frame whose inputs are final, from the engine's confirmed
/// frame (-1 or less before the first).
pub fn confirmed_frame_from(frame: i32) -> (r: Option<u32>)
    ensures
        r is Some <==> frame >= 0,
        r is Some ==> r->Some_0 == frame,
{
    if frame >= 0 {
        Some(frame as u32)
    } else {
        None
    }
}

/// Whether a refusal to advance only means "not this tick": peers still
/// synchronizing, or this machine too far ahead of them.
pub open spec fn is_routine_wait(e: SessionFailure) -> bool {
    e is NotSynchronized || e is PredictionThreshold
}

/// The outcome of a tick whose advance request the engine refused: a
/// routine wait runs no frame; anything else is an error.
pub fn after_refused_advance(e: SessionFailure) -> (r: Result<Advanced, SessionError>)
    ensures
        is_routine_wait(e) ==> r == Ok::<Advanced, SessionError>(
            Advanced { frames: 0, rolled_back: false },
        ),
        !is_routine_wait(e) ==> r == Err::<Advanced, SessionError>(SessionError::Ggrs(e)),
{
    match e {
        SessionFailure::NotSynchronized | SessionFailure::PredictionThreshold => {
            Ok(Advanced::default())
        },
        _ => Err(SessionError::Ggrs(e)),
    }
}

/// One request the rollback engine hands back for a tick.
pub enum Request {
    /// Save the current state as the snapshot of `frame`.
    Save { frame: i32 },
    /// Rewind to a state saved earlier.
    Load { state: World },
    /// Run one tick with these inputs, one per player.
    Advance { inputs: Vec<Input> },
}

/// A saved state with its checksum, to hand back to the engine.
pub struct Snapshot {
    pub frame: i32,
    pub state: World,
    pub checksum: u128,
}

/// Whether `request` can be fulfilled on `world`: an advance needs one input
/// per fighter, arithmetic in range and a frame counter that can count up;
/// the count of ticks run must still fit.
pub open spec fn request_ok(world: WorldModel, progress: Advanced, request: Request) -> bool {
    match request {
        Request::Advance { inputs } => {
            &&& inputs@.len() == world.players.len()
            &&& advance_in_range(world.players, inputs@, world.stage)
            &&& world.frame < u32::MAX
            &&& progress.frames < u32::MAX
        },
        _ => true,
    }
}

/// The world and tick progress after fulfilling `request`.
pub open spec fn request_effect(w: WorldModel, progress: Advanced, request: Request) -> (
    WorldModel,
    Advanced,
) {
    match request {
        Request::Save { .. } => (w, progress),
        Request::Load { state } => (state@, Advanced { frames: progress.frames, rolled_back: true }),
        Request::Advance { inputs } => (
            advance_model(w, inputs@),
            Advanced { frames: (progress.frames + 1) as u32, rolled_back: progress.rolled_back },
        ),
    }
}

/// The checksum of a world value.
pub open spec fn model_checksum(w: WorldModel) -> u128 {
    checksum_spec(w.players, w.stage, w.frame, w.rng)
}

/// Fulfil one request: a save snapshots the world with its checksum and
/// leaves it alone; a load replaces the world and marks the tick as rolled
/// back; an advance runs one world tick and counts it.
pub fn fulfil_request(world: &mut World, progress: Advanced, request: Request) -> (r: (
    Advanced,
    Option<Snapshot>,
))
    requires
        request_ok(old(world)@, progress, request),
    ensures
        (final(world)@, r.0) == request_effect(old(world)@, progress, request),
        request is Save <==> r.1 is Some,
        request matches Request::Save { frame } ==> {
            &&& r.1->Some_0.frame == frame
            &&& r.1->Some_0.state@ == old(world)@
            &&& r.1->Some_0.checksum == model_checksum(old(world)@)
        },
{
    match request {
        Request::Save { frame } => {
            let state = world.snapshot();
            let checksum = world.checksum();
            (progress, Some(Snapshot { frame, state, checksum }))
        },
        Request::Load { state } => {
            *world = state;
            (Advanced { frames: progress.frames, rolled_back: true }, None)
        },
        Request::Advance { inputs } => {
            world.advance(inputs.as_slice());
            (Advanced { frames: progress.frames + 1, rolled_back: progress.rolled_back }, None)
        },
    }
}

/// The world and progress after fulfilling `requests` in order.
pub open spec fn fulfil_all(w: WorldModel, progress: Advanced, requests: Seq<Request>) -> (
    WorldModel,
    Advanced,
)
    decreases requests.len(),
{
    if requests.len() == 0 {
        (w, progress)
    } else {
        let (w1, p1) = fulfil_all(w, progress, requests.drop_last());
        request_effect(w1, p1, requests.last())
    }
}

/// Every request of a tick can be fulfilled when its turn comes.
pub open spec fn batch_ok(w: WorldModel, progress: Advanced, requests: Seq<Request>) -> bool {
    forall|i: int|
        0 <= i < requests.len() ==> request_ok(
            fulfil_all(w, progress, requests.take(i)).0,
            fulfil_all(w, progress, requests.take(i)).1,
            #[trigger] requests[i],
        )
}

/// The snapshots the saves among `requests` take, in order: each save's
/// frame and the world as it stands at that save.
pub open spec fn saved_states(w: WorldModel, progress: Advanced, requests: Seq<Request>) -> Seq<
    (i32, WorldModel),
>
    decreases requests.len(),
{
    if requests.len() == 0 {
        Seq::empty()
    } else {
        let init = requests.drop_last();
        let before = saved_states(w, progress, init);
        match requests.last() {
            Request::Save { frame } => before.push((frame, fulfil_all(w, progress, init).0)),
            _ => before,
        }
    }
}

/// One more request of a tick: the world and progress after it, and the
/// snapshots taken so far.
proof fn lemma_fulfil_step(w: WorldModel, progress: Advanced, all: Seq<Request>, i: int)
    requires
        0 <= i < all.len(),
    ensures
        fulfil_all(w, progress, all.take(i + 1)) == request_effect(
            fulfil_all(w, progress, all.take(i)).0,
            fulfil_all(w, progress, all.take(i)).1,
            all[i],
        ),
        saved_states(w, progress, all.take(i + 1)) == (match all[i] {
            Request::Save { frame } => saved_states(w, progress, all.take(i)).push(
                (frame, fulfil_all(w, progress, all.take(i)).0),
            ),
            _ => saved_states(w, progress, all.take(i)),
        }),
{
    let prefix = all.take(i + 1);
    assert(prefix.drop_last() =~= all.take(i));
    assert(prefix.last() == all[i]);
}

/// Fulfil a tick's requests in order, from `progress`, as `fulfil_request`
/// does each one. Stops before the first request that cannot be fulfilled
/// (an advance with the wrong number of inputs, arithmetic out of range, or
/// a counter that cannot count up) and says how many were fulfilled; when
/// every request can be fulfilled in turn, all are. The snapshots of the
/// saves fulfilled come back in order.
#[verifier::rlimit(100)]
pub fn fulfil_requests(world: &mut World, progress: Advanced, requests: Vec<Request>) -> (r: (
    Advanced,
    Vec<Snapshot>,
    usize,
))
    ensures
        r.2 <= requests@.len(),
        (final(world)@, r.0) == fulfil_all(old(world)@, progress, requests@.take(r.2 as int)),
        r.2 < requests@.len() ==> !request_ok(final(world)@, r.0, requests@[r.2 as int]),
        batch_ok(old(world)@, progress, requests@) ==> r.2 == requests@.len(),
        r.1@.len() == saved_states(old(world)@, progress, requests@.take(r.2 as int)).len(),
        forall|j: int|
            0 <= j < r.1@.len() ==> {
                let (frame, state) = saved_states(
                    old(world)@,
                    progress,
                    requests@.take(r.2 as int),
                )[j];
                &&& (#[trigger] r.1@[j]).frame == frame
                &&& r.1@[j].state@ == state
                &&& r.1@[j].checksum == model_checksum(state)
            },
{
    let ghost w0 = world@;
    let ghost all = requests@;
    let ghost p0 = progress;
    let n = requests.len();
    let mut rest = requests;
    let mut progress = progress;
    let mut snapshots: Vec<Snapshot> = Vec::new();
    let mut i: usize = 0;
    assert(all.take(0) =~= Seq::<Request>::empty());
    while i < n
        invariant_except_break
            rest@ == all.skip(i as int),
        invariant
            n == all.len(),
            i <= n,
            (world@, progress) == fulfil_all(w0, p0, all.take(i as int)),
            forall|j: int|
                0 <= j < i ==> request_ok(
                    fulfil_all(w0, p0, all.take(j)).0,
                    fulfil_all(w0, p0, all.take(j)).1,
                    #[trigger] all[j],
                ),
            snapshots@.len() == saved_states(w0, p0, all.take(i as int)).len(),
            forall|j: int|
                0 <= j < snapshots@.len() ==> {
                    let (frame, state) = saved_states(w0, p0, all.take(i as int))[j];
                    &&& (#[trigger] snapshots@[j]).frame == frame
                    &&& snapshots@[j].state@ == state
                    &&& snapshots@[j].checksum == model_checksum(state)
                },
        ensures
            i <= n,
            (world@, progress) == fulfil_all(w0, p0, all.take(i as int)),
            i < n ==> !request_ok(world@, progress, all[i as int]),
            i == n || exists|j: int|
                0 <= j < n && !request_ok(
                    fulfil_all(w0, p0, all.take(j)).0,
                    fulfil_all(w0, p0, all.take(j)).1,
                    #[trigger] all[j],
                ),
            snapshots@.len() == saved_states(w0, p0, all.take(i as int)).len(),
            forall|j: int|
                0 <= j < snapshots@.len() ==> {
                    let (frame, state) = saved_states(w0, p0, all.take(i as int))[j];
                    &&& (#[trigger] snapshots@[j]).frame == frame
                    &&& snapshots@[j].state@ == state
                    &&& snapshots@[j].checksum == model_checksum(state)
                },
        decreases n - i,
    {
        let request = rest.remove(0);
        assert(request == all[i as int]);
        assert(rest@ =~= all.skip(i + 1));
        let ok = match &request {
            Request::Advance { inputs } => world.can_advance(inputs.as_slice()) && progress.frames
                < u32::MAX,
            _ => true,
        };
        if !ok {
            assert(!request_ok(world@, progress, all[i as int]));
            break;
        }
        proof {
            lemma_fulfil_step(w0, p0, all, i as int);
        }
        let ghost old_snaps = snapshots@;
        let ghost before = (world@, progress);
        assert(request_ok(before.0, before.1, all[i as int]));
        let (next, saved) = fulfil_request(world, progress, request);
        progress = next;
        match saved {
            Some(snapshot) => {
                snapshots.push(snapshot);
            },
            None => {},
        }
        proof {
            let prev_saved = saved_states(w0, p0, all.take(i as int));
            let next_saved = saved_states(w0, p0, all.take(i + 1));
            assert forall|j: int| 0 <= j < snapshots@.len() implies {
                let (frame, state) = next_saved[j];
                &&& (#[trigger] snapshots@[j]).frame == frame
                &&& snapshots@[j].state@ == state
                &&& snapshots@[j].checksum == model_checksum(state)
            } by {
                if j < old_snaps.len() {
                    assert(snapshots@[j] == old_snaps[j]);
                    assert(next_saved[j] == prev_saved[j]);
                }
            }
        }
        i = i + 1;
    }
    proof {
        if i == n {
            assert(all.take(n as int) =~= all);
        }
    }
    (progress, snapshots, i)
}

/// A local session's tick on a world in play, a save followed by an advance
/// with one input per fighter, can be fulfilled whole and is one direct step
/// with one frame counted and nothing rolled back; so `fulfil_requests` runs
/// it to the end and leaves the world exactly as `World::advance` would.
pub proof fn lemma_local_tick_runs_whole(w: WorldModel, frame: i32, inputs: Vec<Input>)
    requires
        world_in_play(w),
        inputs@.len() == w.players.len(),
        w.frame < u32::MAX,
    ensures
        batch_ok(
            w,
            Advanced { frames: 0, rolled_back: false },
            seq![Request::Save { frame }, Request::Advance { inputs }],
        ),
        fulfil_all(
            w,
            Advanced { frames: 0, rolled_back: false },
            seq![Request::Save { frame }, Request::Advance { inputs }],
        ) == (advance_model(w, inputs@), Advanced { frames: 1, rolled_back: false }),
{
    let p0 = Advanced { frames: 0, rolled_back: false };
    let reqs = seq![Request::Save { frame }, Request::Advance { inputs }];
    lemma_local_tick_is_one_step(w, frame, inputs);
    lemma_world_in_play_can_advance(w, inputs@);
    assert(reqs.take(0) =~= Seq::<Request>::empty());
    assert(reqs.take(1) =~= seq![Request::Save { frame }]);
    assert(reqs.take(1).drop_last() =~= Seq::<Request>::empty());
    assert(reqs.take(1).last() == Request::Save { frame });
    assert(fulfil_all(w, p0, reqs.take(1).drop_last()) == (w, p0));
    assert(fulfil_all(w, p0, reqs.take(1)) == (w, p0));
    assert forall|i: int| 0 <= i < reqs.len() implies request_ok(
        fulfil_all(w, p0, reqs.take(i)).0,
        fulfil_all(w, p0, reqs.take(i)).1,
        #[trigger] reqs[i],
    ) by {
        if i == 1 {
            assert(reqs[1] == Request::Advance { inputs });
        } else {
            assert(reqs[0] == Request::Save { frame });
        }
    }
}

/// How many of `requests` are advances.
pub open spec fn count_advances(requests: Seq<Request>) -> nat
    decreases requests.len(),
{
    if requests.len() == 0 {
        0
    } else {
        count_advances(requests.drop_last()) + if requests.last() is Advance {
            1nat
        } else {
            0nat
        }
    }
}

/// Whether any of `requests` is a load.
pub open spec fn has_load(requests: Seq<Request>) -> bool {
    exists|i: int| 0 <= i < requests.len() && (#[trigger] requests[i]) is Load
}

/// Over a tick's requests, the frames counted are the advances fulfilled,
/// the tick is marked rolled back exactly when some request was a load, and
/// a tick that ran no advance and no load leaves the world untouched.
pub proof fn lemma_tick_progress(w: WorldModel, progress: Advanced, requests: Seq<Request>)
    requires
        progress.frames + requests.len() <= u32::MAX,
    ensures
        fulfil_all(w, progress, requests).1.frames == progress.frames + count_advances(requests),
        fulfil_all(w, progress, requests).1.rolled_back == (progress.rolled_back || has_load(
            requests,
        )),
        count_advances(requests) == 0 && !has_load(requests) ==> fulfil_all(
            w,
            progress,
            requests,
        ).0 == w,
        count_advances(requests) <= requests.len(),
    decreases requests.len(),
{
    if requests.len() > 0 {
        let init = requests.drop_last();
        lemma_tick_progress(w, progress, init);
        if has_load(init) {
            let i = choose|i: int| 0 <= i < init.len() && (#[trigger] init[i]) is Load;
            assert(requests[i] == init[i]);
        }
        if has_load(requests) && requests.last() !is Load {
            let i = choose|i: int| 0 <= i < requests.len() && (#[trigger] requests[i]) is Load;
            assert(i < init.len());
            assert(init[i] == requests[i]);
        }
        if requests.last() is Load {
            assert(requests[requests.len() - 1] is Load);
        }
    }
}

/// The world after applying only the advances among `requests`, in order.
pub open spec fn advances_only(w: WorldModel, requests: Seq<Request>) -> WorldModel
    decreases requests.len(),
{
    if requests.len() == 0 {
        w
    } else {
        let w1 = advances_only(w, requests.drop_last());
        match requests.last() {
            Request::Advance { inputs } => advance_model(w1, inputs@),
            _ => w1,
        }
    }
}

/// There are no more advances than requests.
pub proof fn lemma_count_advances_bound(requests: Seq<Request>)
    ensures
        count_advances(requests) <= requests.len(),
    decreases requests.len(),
{
    if requests.len() > 0 {
        lemma_count_advances_bound(requests.drop_last());
    }
}

/// A tick without a load is direct stepping: the world ends as if each
/// advance's inputs had been applied in turn, saves changing nothing; its
/// stage is kept, and (while the frame counter cannot overflow) its frame
/// number has moved on by exactly the number of advances counted.
pub proof fn lemma_tick_without_load_is_direct_stepping(
    w: WorldModel,
    progress: Advanced,
    requests: Seq<Request>,
)
    requires
        !has_load(requests),
        w.frame + requests.len() <= u32::MAX,
    ensures
        fulfil_all(w, progress, requests).0 == advances_only(w, requests),
        advances_only(w, requests).frame == w.frame + count_advances(requests),
        advances_only(w, requests).stage == w.stage,
    decreases requests.len(),
{
    if requests.len() > 0 {
        let init = requests.drop_last();
        assert(!has_load(init)) by {
            if has_load(init) {
                let i = choose|i: int| 0 <= i < init.len() && (#[trigger] init[i]) is Load;
                assert(requests[i] == init[i]);
            }
        }
        assert(requests.last() !is Load) by {
            assert(requests[requests.len() - 1] == requests.last());
        }
        lemma_tick_without_load_is_direct_stepping(w, progress, init);
        lemma_count_advances_bound(init);
    }
}

/// A local session's tick, a save of the current frame followed by one
/// advance, is one direct step: the world moves exactly as `World::advance`
/// moves it, one frame is counted, and nothing is rolled back.
pub proof fn lemma_local_tick_is_one_step(w: WorldModel, frame: i32, inputs: Vec<Input>)
    ensures
        fulfil_all(
            w,
            Advanced { frames: 0, rolled_back: false },
            seq![Request::Save { frame }, Request::Advance { inputs }],
        ) == (advance_model(w, inputs@), Advanced { frames: 1, rolled_back: false }),
{
    let p0 = Advanced { frames: 0, rolled_back: false };
    let reqs = seq![Request::Save { frame }, Request::Advance { inputs }];
    let first = reqs.drop_last();
    assert(first =~= seq![Request::Save { frame }]);
    assert(first.drop_last() =~= Seq::<Request>::empty());
    assert(fulfil_all(w, p0, first.drop_last()) == (w, p0));
    assert(first.last() == Request::Save { frame });
    assert(fulfil_all(w, p0, first) == (w, p0));
    assert(reqs.last() == Request::Advance { inputs });
}

/// Loading a saved snapshot restores exactly the state that was saved, with
/// the checksum recorded at the save, whatever happened in between.
pub proof fn lemma_load_restores_saved_state(
    saved: WorldModel,
    later: WorldModel,
    progress: Advanced,
    snapshot: Snapshot,
)
    requires
        snapshot.state@ == saved,
        snapshot.checksum == model_checksum(saved),
    ensures
        request_effect(later, progress, Request::Load { state: snapshot.state }).0 == saved,
        model_checksum(request_effect(later, progress, Request::Load { state: snapshot.state }).0)
            == snapshot.checksum,
{
}

/// Re-simulating from a restored state with the same inputs reproduces the
/// same world, hence the same checksums: rollback cannot desync.
pub proof fn lemma_resimulation_is_deterministic(
    w1: WorldModel,
    w2: WorldModel,
    progress: Advanced,
    requests: Seq<Request>,
)
    requires
        w1 == w2,
    ensures
        fulfil_all(w1, progress, requests) == fulfil_all(w2, progress, requests),
        model_checksum(fulfil_all(w1, progress, requests).0) == model_checksum(
            fulfil_all(w2, progress, requests).0,
        ),
{
}

} // verus!
