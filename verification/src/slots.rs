//! Player-slot assignment. Slots start empty; a source joins the lowest free
//! local slot by pressing jump, and that joining press is swallowed so it
//! does not also jump. Remote slots belong to another machine: they are
//! never claimed here and always emit the neutral input.

use crate::input::buttons::JUMP;
use crate::input::{neutral_input, Input};
use vstd::prelude::*;

verus! {

/// Maps player slots to input sources.
pub struct Slots {
    /// slot -> source index
    source_of: Vec<Option<usize>>,
    /// slot -> driven from this machine?
    local: Vec<bool>,
    /// Last tick's raw poll per source, for edge detection.
    prev: Vec<Input>,
}

/// The abstract state of a `Slots`.
pub struct SlotsView {
    pub source_of: Seq<Option<usize>>,
    pub local: Seq<bool>,
    pub prev: Seq<Input>,
}

impl View for Slots {
    type V = SlotsView;

    closed spec fn view(&self) -> SlotsView {
        SlotsView { source_of: self.source_of@, local: self.local@, prev: self.prev@ }
    }
}

/// Slot `s` is local and not taken.
pub open spec fn is_free_local(so: Seq<Option<usize>>, local: Seq<bool>, s: int) -> bool {
    0 <= s < so.len() && s < local.len() && local[s] && so[s] is None
}

/// The lowest free local slot at or after `k`.
pub open spec fn first_free_local(so: Seq<Option<usize>>, local: Seq<bool>, k: int) -> Option<
    int,
>
    decreases so.len() - k,
{
    if k < 0 || k >= so.len() {
        None
    } else if is_free_local(so, local, k) {
        Some(k)
    } else {
        first_free_local(so, local, k + 1)
    }
}

/// Slot assignments are consistent: one flag per slot, only local slots are
/// taken, and no source drives two slots.
pub open spec fn assignments_ok(so: Seq<Option<usize>>, local: Seq<bool>) -> bool {
    &&& so.len() == local.len()
    &&& forall|s: int| 0 <= s < so.len() && (#[trigger] so[s]) is Some ==> local[s]
    &&& forall|s: int, t: int|
        0 <= s < so.len() && 0 <= t < so.len() && s != t && (#[trigger] so[s]) is Some && (
        #[trigger] so[t]) is Some ==> so[s] != so[t]
}

/// A jump press that was not held on the previous poll.
pub open spec fn jump_edge(prev: Input, cur: Input) -> bool {
    cur.buttons & JUMP != 0 && !(prev.buttons & JUMP != 0)
}

/// Last tick's polls, cut or padded with neutral input to `n` sources.
pub open spec fn padded_prev(prev: Seq<Input>, n: int) -> Seq<Input> {
    Seq::new(n as nat, |i: int| if i < prev.len() { prev[i] } else { neutral_input() })
}

/// Slot assignments and join flags after sources `0..k` have been
/// considered, in order: a source with a fresh jump press that drives no slot
/// takes the lowest free local slot, if there is one.
pub open spec fn assign_through(
    so: Seq<Option<usize>>,
    local: Seq<bool>,
    prev: Seq<Input>,
    cur: Seq<Input>,
    k: int,
) -> (Seq<Option<usize>>, Seq<bool>)
    decreases k,
{
    if k <= 0 {
        (so, Seq::empty())
    } else {
        let (so1, joined) = assign_through(so, local, prev, cur, k - 1);
        let src = k - 1;
        if jump_edge(prev[src], cur[src]) && !so1.contains(Some(src as usize)) {
            match first_free_local(so1, local, 0) {
                Some(s) => (so1.update(s, Some(src as usize)), joined.push(true)),
                None => (so1, joined.push(false)),
            }
        } else {
            (so1, joined.push(false))
        }
    }
}

/// What each slot emits: its source's poll, unless the slot is empty or its
/// source joined on this very poll.
pub open spec fn slot_outputs(so: Seq<Option<usize>>, joined: Seq<bool>, cur: Seq<Input>) -> Seq<
    Input,
> {
    Seq::new(
        so.len(),
        |s: int|
            match so[s] {
                Some(src) => if !joined[src as int] {
                    cur[src as int]
                } else {
                    neutral_input()
                },
                None => neutral_input(),
            },
    )
}

/// What a tick computes from the old state and this tick's polls.
pub open spec fn tick_result(v: SlotsView, cur: Seq<Input>) -> (Seq<Option<usize>>, Seq<bool>) {
    assign_through(v.source_of, v.local, padded_prev(v.prev, cur.len() as int), cur, cur.len() as int)
}

/// Every taken slot names one of the `n` sources polled.
pub open spec fn sources_below(so: Seq<Option<usize>>, n: int) -> bool {
    forall|s: int| 0 <= s < so.len() && (#[trigger] so[s]) is Some ==> so[s]->Some_0 < n
}

/// The lowest free local slot at or after `k`: it is free, and no free
/// slot comes before it.
pub proof fn lemma_first_free_local(so: Seq<Option<usize>>, local: Seq<bool>, k: int)
    requires
        0 <= k,
    ensures
        first_free_local(so, local, k) matches Some(s) ==> k <= s < so.len() && is_free_local(
            so,
            local,
            s,
        ) && forall|t: int| k <= t < s ==> !is_free_local(so, local, t),
        first_free_local(so, local, k) is None ==> forall|t: int|
            k <= t < so.len() ==> !is_free_local(so, local, t),
    decreases so.len() - k,
{
    if k < so.len() && !is_free_local(so, local, k) {
        lemma_first_free_local(so, local, k + 1);
    }
}

/// Facts about the assignments after sources `0..k`: consistency is kept,
/// there is one join flag per source considered, taken slots stay taken by
/// the same source, newly taken slots go to a joining source below `k` that
/// drove no slot before and pressed jump afresh, and no slot is newly taken
/// while a lower local slot is still free.
pub proof fn lemma_assign_through(
    so: Seq<Option<usize>>,
    local: Seq<bool>,
    prev: Seq<Input>,
    cur: Seq<Input>,
    k: int,
)
    requires
        assignments_ok(so, local),
        0 <= k <= prev.len(),
        k <= cur.len(),
        k <= usize::MAX,
    ensures
        assignments_ok(assign_through(so, local, prev, cur, k).0, local),
        assign_through(so, local, prev, cur, k).0.len() == so.len(),
        assign_through(so, local, prev, cur, k).1.len() == k,
        forall|s: int|
            0 <= s < so.len() && (#[trigger] so[s]) is Some ==> assign_through(
                so,
                local,
                prev,
                cur,
                k,
            ).0[s] == so[s],
        forall|s: int|
            0 <= s < so.len() && so[s] is None && (#[trigger] assign_through(
                so,
                local,
                prev,
                cur,
                k,
            ).0[s]) is Some ==> {
                let src = assign_through(so, local, prev, cur, k).0[s]->Some_0;
                &&& src < k
                &&& assign_through(so, local, prev, cur, k).1[src as int]
                &&& !so.contains(Some(src))
                &&& jump_edge(prev[src as int], cur[src as int])
                &&& forall|t: int|
                    0 <= t < s && local[t] ==> assign_through(so, local, prev, cur, k).0[t] is Some
            },
        forall|src: int|
            0 <= src < k && #[trigger] assign_through(so, local, prev, cur, k).1[src] ==> exists|
                s: int,
            |
                0 <= s < so.len() && so[s] is None && assign_through(so, local, prev, cur, k).0[s]
                    == Some(src as usize),
        forall|s: int|
            0 <= s < so.len() && (#[trigger] assign_through(so, local, prev, cur, k).0[s]) is Some
                ==> assign_through(so, local, prev, cur, k).0[s]->Some_0 < k || so[s] is Some,
    decreases k,
{
    if k > 0 {
        lemma_assign_through(so, local, prev, cur, k - 1);
        let (so1, joined1) = assign_through(so, local, prev, cur, k - 1);
        let src = k - 1;
        let (so2, joined2) = assign_through(so, local, prev, cur, k);
        if jump_edge(prev[src], cur[src]) && !so1.contains(Some(src as usize)) {
            lemma_first_free_local(so1, local, 0);
            match first_free_local(so1, local, 0) {
                Some(fs) => {
                    assert(so2 == so1.update(fs, Some(src as usize)));
                    assert(joined2 == joined1.push(true));
                    assert forall|s: int, t: int|
                        0 <= s < so2.len() && 0 <= t < so2.len() && s != t && (
                        #[trigger] so2[s]) is Some && (#[trigger] so2[t]) is Some implies so2[s]
                        != so2[t] by {
                        if s == fs {
                            assert(so1[t] == so2[t]);
                            assert(!so1.contains(Some(src as usize)));
                            if so1[t] == Some(src as usize) {
                                assert(so1.contains(Some(src as usize)));
                            }
                        } else if t == fs {
                            assert(so1[s] == so2[s]);
                            if so1[s] == Some(src as usize) {
                                assert(so1.contains(Some(src as usize)));
                            }
                        } else {
                            assert(so1[s] == so2[s]);
                            assert(so1[t] == so2[t]);
                        }
                    }
                    assert forall|s: int|
                        0 <= s < so.len() && so[s] is None && (#[trigger] so2[s]) is Some implies {
                        let x = so2[s]->Some_0;
                        &&& x < k
                        &&& joined2[x as int]
                        &&& !so.contains(Some(x))
                        &&& jump_edge(prev[x as int], cur[x as int])
                        &&& forall|t: int| 0 <= t < s && local[t] ==> so2[t] is Some
                    } by {
                        if s == fs {
                            assert(so2[s]->Some_0 == src as usize);
                            if so.contains(Some(src as usize)) {
                                let w = choose|w: int|
                                    0 <= w < so.len() && so[w] == Some(src as usize);
                                assert(so1[w] == so[w]);
                                assert(so1.contains(Some(src as usize)));
                            }
                            assert forall|t: int| 0 <= t < s && local[t] implies so2[t] is Some by {
                                assert(!is_free_local(so1, local, t));
                                assert(so2[t] == so1[t]);
                            }
                        } else {
                            assert(so2[s] == so1[s]);
                            let x = so1[s]->Some_0;
                            assert(joined2[x as int] == joined1[x as int]);
                            assert forall|t: int| 0 <= t < s && local[t] implies so2[t] is Some by {
                                if t != fs {
                                    assert(so2[t] == so1[t]);
                                }
                            }
                        }
                    }
                    assert forall|x: int| 0 <= x < k && #[trigger] joined2[x] implies exists|
                        s: int,
                    |
                        0 <= s < so.len() && so[s] is None && so2[s] == Some(x as usize) by {
                        if x == src {
                            assert(so[fs] is None) by {
                                if so[fs] is Some {
                                    assert(so1[fs] == so[fs]);
                                }
                            }
                            assert(so2[fs] == Some(x as usize));
                        } else {
                            assert(joined1[x]);
                            let s = choose|s: int|
                                0 <= s < so.len() && so[s] is None && so1[s] == Some(x as usize);
                            assert(s != fs);
                            assert(so2[s] == so1[s]);
                        }
                    }
                    assert forall|s: int| 0 <= s < so.len() && (#[trigger] so2[s]) is Some implies so2[s]->Some_0
                        < k || so[s] is Some by {
                        if s != fs {
                            assert(so2[s] == so1[s]);
                        }
                    }
                },
                None => {
                    assert(so2 == so1);
                    assert(joined2 == joined1.push(false));
                    assert forall|s: int|
                        0 <= s < so.len() && so[s] is None && (#[trigger] so2[s]) is Some implies {
                        let x = so2[s]->Some_0;
                        &&& x < k
                        &&& joined2[x as int]
                        &&& !so.contains(Some(x))
                        &&& jump_edge(prev[x as int], cur[x as int])
                        &&& forall|t: int| 0 <= t < s && local[t] ==> so2[t] is Some
                    } by {
                        let x = so1[s]->Some_0;
                        assert(joined2[x as int] == joined1[x as int]);
                    }
                    assert forall|x: int| 0 <= x < k && #[trigger] joined2[x] implies exists|
                        s: int,
                    |
                        0 <= s < so.len() && so[s] is None && so2[s] == Some(x as usize) by {
                        assert(joined1[x]);
                    }
                },
            }
        } else {
            assert(so2 == so1);
            assert(joined2 == joined1.push(false));
            assert forall|s: int|
                0 <= s < so.len() && so[s] is None && (#[trigger] so2[s]) is Some implies {
                let x = so2[s]->Some_0;
                &&& x < k
                &&& joined2[x as int]
                &&& !so.contains(Some(x))
                &&& jump_edge(prev[x as int], cur[x as int])
                &&& forall|t: int| 0 <= t < s && local[t] ==> so2[t] is Some
            } by {
                let x = so1[s]->Some_0;
                assert(joined2[x as int] == joined1[x as int]);
            }
            assert forall|x: int| 0 <= x < k && #[trigger] joined2[x] implies exists|s: int|
                0 <= s < so.len() && so[s] is None && so2[s] == Some(x as usize) by {
                assert(joined1[x]);
            }
        }
    }
}


impl Slots {
    /// The slots' invariant: assignments are consistent.
    pub open spec fn wf(&self) -> bool {
        assignments_ok(self@.source_of, self@.local)
    }

    /// `num_players` empty slots; `local` lists the slots a source on this
    /// machine may claim.
    pub fn new(num_players: usize, local: &[usize]) -> (r: Slots)
        requires
            forall|i: int| 0 <= i < local@.len() ==> local@[i] < num_players,
        ensures
            r.wf(),
            r@.source_of == Seq::new(num_players as nat, |s: int| None::<usize>),
            r@.local.len() == num_players,
            forall|s: int| 0 <= s < num_players ==> r@.local[s] == local@.contains(s as usize),
            r@.prev == Seq::<Input>::empty(),
    {
        let mut is_local: Vec<bool> = Vec::with_capacity(num_players);
        let mut source_of: Vec<Option<usize>> = Vec::with_capacity(num_players);
        let mut s: usize = 0;
        while s < num_players
            invariant
                s <= num_players,
                is_local@ == Seq::new(s as nat, |t: int| false),
                source_of@ == Seq::new(s as nat, |t: int| None::<usize>),
            decreases num_players - s,
        {
            is_local.push(false);
            source_of.push(None);
            s = s + 1;
            assert(is_local@ =~= Seq::new(s as nat, |t: int| false));
            assert(source_of@ =~= Seq::new(s as nat, |t: int| None::<usize>));
        }
        let mut i: usize = 0;
        while i < local.len()
            invariant
                i <= local@.len(),
                forall|j: int| 0 <= j < local@.len() ==> local@[j] < num_players,
                is_local@.len() == num_players,
                forall|t: int|
                    0 <= t < num_players ==> is_local@[t] == local@.take(i as int).contains(
                        t as usize,
                    ),
            decreases local@.len() - i,
        {
            let slot = local[i];
            is_local.set(slot, true);
            assert forall|t: int| 0 <= t < num_players implies is_local@[t] == local@.take(
                i + 1,
            ).contains(t as usize) by {
                let prefix = local@.take(i as int);
                let next = local@.take(i + 1);
                assert(next =~= prefix.push(slot));
                if prefix.contains(t as usize) {
                    let w = choose|w: int| 0 <= w < prefix.len() && prefix[w] == t as usize;
                    assert(next[w] == t as usize);
                }
                if next.contains(t as usize) && t != slot as int {
                    let w = choose|w: int| 0 <= w < next.len() && next[w] == t as usize;
                    assert(w < i);
                    assert(prefix[w] == t as usize);
                }
                if t == slot as int {
                    assert(next[i as int] == slot);
                }
            }
            i = i + 1;
        }
        assert(local@.take(local@.len() as int) =~= local@);
        Slots { source_of, local: is_local, prev: Vec::new() }
    }

    /// The source driving `slot`, if any.
    pub fn source_of(&self, slot: usize) -> (r: Option<usize>)
        requires
            slot < self@.source_of.len(),
        ensures
            r == self@.source_of[slot as int],
    {
        self.source_of[slot]
    }

    /// Whether `slot` is driven from this machine.
    pub fn is_local(&self, slot: usize) -> (r: bool)
        requires
            slot < self@.local.len(),
        ensures
            r == self@.local[slot as int],
    {
        self.local[slot]
    }

    /// Whether `src` drives some slot.
    fn is_assigned(&self, src: usize) -> (r: bool)
        ensures
            r == self@.source_of.contains(Some(src)),
    {
        let mut s: usize = 0;
        while s < self.source_of.len()
            invariant
                s <= self@.source_of.len(),
                forall|t: int| 0 <= t < s ==> self@.source_of[t] != Some(src),
            decreases self@.source_of.len() - s,
        {
            if let Some(x) = self.source_of[s] {
                if x == src {
                    assert(self@.source_of[s as int] == Some(src));
                    return true;
                }
            }
            s = s + 1;
        }
        false
    }

    /// The lowest local slot that no source drives.
    fn lowest_free_local_slot(&self) -> (r: Option<usize>)
        requires
            self.wf(),
        ensures
            r is None <==> first_free_local(self@.source_of, self@.local, 0) is None,
            r matches Some(s) ==> first_free_local(self@.source_of, self@.local, 0) == Some(
                s as int,
            ),
    {
        let mut s: usize = 0;
        while s < self.source_of.len()
            invariant
                self.wf(),
                s <= self@.source_of.len(),
                first_free_local(self@.source_of, self@.local, 0) == first_free_local(
                    self@.source_of,
                    self@.local,
                    s as int,
                ),
            decreases self@.source_of.len() - s,
        {
            if self.local[s] && self.source_of[s].is_none() {
                return Some(s);
            }
            s = s + 1;
        }
        None
    }

    /// Take this tick's polls (one per source), join newly pressed unassigned
    /// sources, and write one input per slot into `out`: the neutral input for
    /// empty and remote slots and for a slot whose source joined on this poll.
    pub fn tick(&mut self, polled: &[Input], out: &mut [Input])
        requires
            old(self).wf(),
            old(out)@.len() == old(self)@.source_of.len(),
            sources_below(old(self)@.source_of, polled@.len() as int),
        ensures
            final(self).wf(),
            final(self)@.source_of == tick_result(old(self)@, polled@).0,
            final(self)@.local == old(self)@.local,
            final(self)@.prev == polled@,
            final(out)@ == slot_outputs(
                tick_result(old(self)@, polled@).0,
                tick_result(old(self)@, polled@).1,
                polled@,
            ),
    {
        let n = polled.len();
        let ghost v0 = self@;
        // Pad or cut last tick's polls to one per source.
        self.prev.truncate(n);
        while self.prev.len() < n
            invariant
                self.prev@.len() <= n == polled@.len(),
                self.prev@.len() >= (if v0.prev.len() < n { v0.prev.len() } else { n as nat }),
                self@.source_of == v0.source_of,
                self@.local == v0.local,
                out@.len() == v0.source_of.len(),
                forall|i: int|
                    0 <= i < self.prev@.len() ==> self.prev@[i] == padded_prev(v0.prev, n as int)[i],
            decreases n - self.prev@.len(),
        {
            self.prev.push(Input::default());
        }
        assert(self.prev@ =~= padded_prev(v0.prev, n as int));
        let ghost pprev = self.prev@;
        let mut joined: Vec<bool> = Vec::with_capacity(n);
        let mut src: usize = 0;
        proof {
            lemma_assign_through(v0.source_of, v0.local, pprev, polled@, 0);
        }
        while src < n
            invariant
                n == polled@.len(),
                src <= n,
                self.prev@ == pprev,
                pprev.len() == n,
                self.local@ == v0.local,
                out@.len() == v0.source_of.len(),
                assignments_ok(v0.source_of, v0.local),
                self.wf(),
                (self.source_of@, joined@) == assign_through(
                    v0.source_of,
                    v0.local,
                    pprev,
                    polled@,
                    src as int,
                ),
            decreases n - src,
        {
            proof {
                lemma_assign_through(v0.source_of, v0.local, pprev, polled@, src + 1);
            }
            let edge = polled[src].pressed(JUMP) && !self.prev[src].pressed(JUMP);
            if edge && !self.is_assigned(src) {
                match self.lowest_free_local_slot() {
                    Some(free) => {
                        proof {
                            lemma_first_free_local(self@.source_of, self@.local, 0);
                        }
                        self.source_of.set(free, Some(src));
                        joined.push(true);
                    },
                    None => {
                        joined.push(false);
                    },
                }
            } else {
                joined.push(false);
            }
            src = src + 1;
        }
        proof {
            lemma_assign_through(v0.source_of, v0.local, pprev, polled@, n as int);
        }
        // Remember this tick's polls for next tick's edge detection.
        let mut i: usize = 0;
        while i < n
            invariant
                n == polled@.len() == self.prev@.len(),
                i <= n,
                forall|j: int| 0 <= j < i ==> self.prev@[j] == polled@[j],
                self@.source_of == tick_result(v0, polled@).0,
                joined@ == tick_result(v0, polled@).1,
                self@.local == v0.local,
                out@.len() == v0.source_of.len(),
                self.wf(),
            decreases n - i,
        {
            self.prev.set(i, polled[i]);
            i = i + 1;
        }
        assert(self.prev@ =~= polled@);
        let ghost so = self.source_of@;
        let mut slot: usize = 0;
        while slot < self.source_of.len()
            invariant
                self.source_of@ == so,
                so == tick_result(v0, polled@).0,
                joined@ == tick_result(v0, polled@).1,
                joined@.len() == n == polled@.len(),
                out@.len() == so.len(),
                slot <= so.len(),
                sources_below(v0.source_of, n as int),
                forall|s: int|
                    0 <= s < so.len() && (#[trigger] so[s]) is Some ==> so[s]->Some_0 < n
                        || v0.source_of[s] is Some,
                forall|s: int|
                    0 <= s < so.len() && (#[trigger] v0.source_of[s]) is Some ==> so[s]
                        == v0.source_of[s],
                so.len() == v0.source_of.len(),
                forall|s: int|
                    0 <= s < slot ==> out@[s] == slot_outputs(so, joined@, polled@)[s],
            decreases so.len() - slot,
        {
            let value = match self.source_of[slot] {
                Some(src) => {
                    if !joined[src] {
                        polled[src]
                    } else {
                        Input::default()
                    }
                },
                None => Input::default(),
            };
            out[slot] = value;
            slot = slot + 1;
        }
        assert(out@ =~= slot_outputs(so, joined@, polled@));
    }
}


/// No local slot is free.
pub open spec fn roster_full(so: Seq<Option<usize>>, local: Seq<bool>) -> bool {
    forall|t: int| !is_free_local(so, local, t)
}

/// Order facts about the assignments after sources `0..k`: slots taken in
/// this pass go to their sources in ascending order (a lower slot to a lower
/// source), and a source that pressed jump afresh while driving nothing, yet
/// did not join, found no free local slot, and none is free afterwards.
pub proof fn lemma_assign_order(
    so: Seq<Option<usize>>,
    local: Seq<bool>,
    prev: Seq<Input>,
    cur: Seq<Input>,
    k: int,
)
    requires
        assignments_ok(so, local),
        0 <= k <= prev.len(),
        k <= cur.len(),
        k <= usize::MAX,
    ensures
        forall|s: int, t: int|
            0 <= s < t < so.len() && so[s] is None && so[t] is None && (
            #[trigger] assign_through(so, local, prev, cur, k).0[s]) is Some && (
            #[trigger] assign_through(so, local, prev, cur, k).0[t]) is Some
                ==> assign_through(so, local, prev, cur, k).0[s]->Some_0 < assign_through(
                so,
                local,
                prev,
                cur,
                k,
            ).0[t]->Some_0,
        forall|src: int|
            0 <= src < k && jump_edge(prev[src], cur[src]) && !so.contains(Some(src as usize))
                && !(#[trigger] assign_through(so, local, prev, cur, k).1[src]) ==> roster_full(
                assign_through(so, local, prev, cur, k).0,
                local,
            ),
    decreases k,
{
    if k > 0 {
        lemma_assign_order(so, local, prev, cur, k - 1);
        lemma_assign_through(so, local, prev, cur, k - 1);
        lemma_assign_through(so, local, prev, cur, k);
        let (so1, joined1) = assign_through(so, local, prev, cur, k - 1);
        let (so2, joined2) = assign_through(so, local, prev, cur, k);
        let src = k - 1;
        lemma_first_free_local(so1, local, 0);
        // A source below `src` that joined in this pass is not `src`, so
        // `src` drives a slot after the earlier sources only if it did before.
        assert(so1.contains(Some(src as usize)) ==> so.contains(Some(src as usize))) by {
            if so1.contains(Some(src as usize)) {
                let w = choose|w: int| 0 <= w < so1.len() && so1[w] == Some(src as usize);
                if so[w] is None {
                    assert(so1[w]->Some_0 < k - 1);
                } else {
                    assert(so[w] == so1[w]);
                }
            }
        }
        let tried = jump_edge(prev[src], cur[src]) && !so1.contains(Some(src as usize));
        if tried && first_free_local(so1, local, 0) is Some {
            let fs = first_free_local(so1, local, 0)->Some_0;
            assert(so2 == so1.update(fs, Some(src as usize)));
            assert(joined2 == joined1.push(true));
            // Every slot taken earlier in this pass lies below `fs`.
            assert forall|s: int|
                0 <= s < so.len() && so[s] is None && (#[trigger] so1[s]) is Some implies s < fs
                && so1[s]->Some_0 < src by {
                if fs < s {
                    assert(local[fs]);
                    assert(so1[fs] is Some);
                }
            }
            assert forall|s: int, t: int|
                0 <= s < t < so.len() && so[s] is None && so[t] is None && (#[trigger] so2[s])
                    is Some && (#[trigger] so2[t]) is Some implies so2[s]->Some_0
                < so2[t]->Some_0 by {
                if t == fs {
                    assert(so2[s] == so1[s]);
                    assert(so1[s] is Some);
                } else if s == fs {
                    assert(so2[t] == so1[t]);
                    assert(so1[t] is Some);
                } else {
                    assert(so2[s] == so1[s]);
                    assert(so2[t] == so1[t]);
                }
            }
            assert forall|x: int|
                0 <= x < k && jump_edge(prev[x], cur[x]) && !so.contains(Some(x as usize))
                    && !(#[trigger] joined2[x]) implies roster_full(so2, local) by {
                assert(x != src);
                assert(joined2[x] == joined1[x]);
                assert(roster_full(so1, local));
                assert forall|t: int| !is_free_local(so2, local, t) by {
                    if t != fs {
                        assert(!is_free_local(so1, local, t));
                    }
                }
            }
        } else {
            assert(so2 == so1);
            assert(joined2 == joined1.push(false));
            assert forall|x: int|
                0 <= x < k && jump_edge(prev[x], cur[x]) && !so.contains(Some(x as usize))
                    && !(#[trigger] joined2[x]) implies roster_full(so2, local) by {
                if x == src {
                    assert(tried);
                    assert forall|t: int| !is_free_local(so2, local, t) by {
                        if 0 <= t < so1.len() {
                            assert(!is_free_local(so1, local, t));
                        }
                    }
                } else {
                    assert(joined2[x] == joined1[x]);
                }
            }
        }
    }
}

/// What a tick guarantees of the slots, whatever the polls: taken slots
/// keep their source; only local slots are ever taken; no source drives two
/// slots; a slot is newly taken only by a source that drove nothing and
/// pressed jump afresh (jump held on this poll and not on the last one), and only when every lower local slot is taken;
/// joiners take slots in ascending source order; and a source that pressed
/// jump afresh while driving nothing but did not join found the local
/// slots full, and they stay full.
pub proof fn lemma_tick_assignments(v: SlotsView, cur: Seq<Input>)
    requires
        assignments_ok(v.source_of, v.local),
        cur.len() <= usize::MAX,
    ensures
        assignments_ok(tick_result(v, cur).0, v.local),
        tick_result(v, cur).0.len() == v.source_of.len(),
        forall|s: int|
            0 <= s < v.source_of.len() && (#[trigger] v.source_of[s]) is Some ==> tick_result(
                v,
                cur,
            ).0[s] == v.source_of[s],
        forall|s: int|
            0 <= s < v.source_of.len() && (#[trigger] tick_result(v, cur).0[s]) is Some
                ==> v.local[s],
        forall|s: int|
            0 <= s < v.source_of.len() && v.source_of[s] is None && (#[trigger] tick_result(
                v,
                cur,
            ).0[s]) is Some ==> {
                let src = tick_result(v, cur).0[s]->Some_0;
                &&& src < cur.len()
                &&& !v.source_of.contains(Some(src))
                &&& jump_edge(padded_prev(v.prev, cur.len() as int)[src as int], cur[src as int])
                &&& cur[src as int].buttons & JUMP != 0
                &&& !(src < v.prev.len() && v.prev[src as int].buttons & JUMP != 0)
                &&& forall|t: int| 0 <= t < s && v.local[t] ==> tick_result(v, cur).0[t] is Some
            },
        forall|s: int, t: int|
            0 <= s < t < v.source_of.len() && v.source_of[s] is None && v.source_of[t] is None && (
            #[trigger] tick_result(v, cur).0[s]) is Some && (#[trigger] tick_result(v, cur).0[t])
                is Some ==> tick_result(v, cur).0[s]->Some_0 < tick_result(v, cur).0[t]->Some_0,
        forall|src: int|
            0 <= src < cur.len() && jump_edge(padded_prev(v.prev, cur.len() as int)[src], cur[src])
                && !v.source_of.contains(Some(src as usize)) && !(#[trigger] tick_result(
                v,
                cur,
            ).1[src]) ==> roster_full(tick_result(v, cur).0, v.local),
{
    lemma_assign_order(
        v.source_of,
        v.local,
        padded_prev(v.prev, cur.len() as int),
        cur,
        cur.len() as int,
    );
    lemma_assign_through(
        v.source_of,
        v.local,
        padded_prev(v.prev, cur.len() as int),
        cur,
        cur.len() as int,
    );
    assert(0u16 & JUMP == 0) by (bit_vector);
}

/// What each slot emits after a tick: a slot its source already drove emits
/// that source's poll; a slot taken on this tick emits the neutral input
/// (the joining press does not jump); an empty slot emits the neutral input.
pub proof fn lemma_tick_outputs(v: SlotsView, cur: Seq<Input>, s: int)
    requires
        assignments_ok(v.source_of, v.local),
        cur.len() <= usize::MAX,
        sources_below(v.source_of, cur.len() as int),
        0 <= s < v.source_of.len(),
    ensures
        v.source_of[s] matches Some(src) ==> slot_outputs(
            tick_result(v, cur).0,
            tick_result(v, cur).1,
            cur,
        )[s] == cur[src as int],
        v.source_of[s] is None ==> slot_outputs(
            tick_result(v, cur).0,
            tick_result(v, cur).1,
            cur,
        )[s] == neutral_input(),
{
    let pprev = padded_prev(v.prev, cur.len() as int);
    lemma_assign_through(v.source_of, v.local, pprev, cur, cur.len() as int);
    let (so, joined) = tick_result(v, cur);
    if let Some(src) = v.source_of[s] {
        assert(so[s] == v.source_of[s]);
        assert(src < cur.len());
        if joined[src as int] {
            let w = choose|w: int|
                0 <= w < v.source_of.len() && v.source_of[w] is None && so[w] == Some(src);
            assert(w != s);
            assert(so[w] == so[s]);
        }
    } else {
        if so[s] is Some {
            let src = so[s]->Some_0;
            assert(joined[src as int]);
        }
    }
}

} // verus!
