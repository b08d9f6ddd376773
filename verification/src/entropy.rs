//! A non-cryptographic byte stream for handshake nonces on platforms without
//! an OS entropy source: xorshift64* seeded once from the wall clock.

use crate::math::rng::XORSHIFT_STAR_MULTIPLIER;
use vstd::prelude::*;

verus! {

/// One xorshift64 step (shifts 13, 7, 17).
pub open spec fn entropy_step(x: u64) -> u64 {
    let a = x ^ (x << 13u64);
    let b = a ^ (a >> 7u64);
    b ^ (b << 17u64)
}

/// The state the stream starts from: the stored state, or, before the first
/// draw, the clock reading with its low bit forced on.
pub open spec fn entropy_seeded(state: u64, clock: u64) -> u64 {
    if state == 0 {
        clock | 1u64
    } else {
        state
    }
}

/// The state after `k` draws from `s`.
pub open spec fn entropy_state_after(s: u64, k: nat) -> u64
    decreases k,
{
    if k == 0 {
        s
    } else {
        entropy_step(entropy_state_after(s, (k - 1) as nat))
    }
}

/// The 64-bit value of the draw that leaves the state at `x`.
pub open spec fn entropy_output(x: u64) -> u64 {
    vstd::wrapping::u64_specs::wrapping_mul(x, XORSHIFT_STAR_MULTIPLIER)
}

/// Byte `j` (little-endian) of `v`.
pub open spec fn le_byte(v: u64, j: int) -> u8 {
    (v >> ((8 * j) as u64)) as u8
}

/// Byte `i` of the stream started at `s`: byte `i % 8` of draw `i / 8 + 1`.
pub open spec fn entropy_byte(s: u64, i: int) -> u8 {
    le_byte(entropy_output(entropy_state_after(s, (i / 8 + 1) as nat)), i % 8)
}

/// A xorshift step never reaches the all-zero state from a non-zero one.
pub proof fn lemma_entropy_step_nonzero(x: u64)
    requires
        x != 0,
    ensures
        entropy_step(x) != 0,
{
    let a = x ^ (x << 13u64);
    assert(a != 0) by (bit_vector)
        requires
            x != 0,
            a == x ^ (x << 13u64),
    ;
    let b = a ^ (a >> 7u64);
    assert(b != 0) by (bit_vector)
        requires
            a != 0,
            b == a ^ (a >> 7u64),
    ;
    let c = b ^ (b << 17u64);
    assert(c != 0) by (bit_vector)
        requires
            b != 0,
            c == b ^ (b << 17u64),
    ;
}

/// The stream's state is never zero once seeded: the seed has its low bit
/// set and no step reaches zero.
pub proof fn lemma_entropy_state_nonzero(state: u64, clock: u64, k: nat)
    ensures
        entropy_state_after(entropy_seeded(state, clock), k) != 0,
    decreases k,
{
    if k == 0 {
        let c = clock | 1u64;
        assert(c != 0) by (bit_vector)
            requires
                c == clock | 1u64,
        ;
    } else {
        lemma_entropy_state_nonzero(state, clock, (k - 1) as nat);
        lemma_entropy_step_nonzero(entropy_state_after(entropy_seeded(state, clock), (k - 1) as nat));
    }
}

/// Fill `dest` with the next bytes of the stream whose state is `*state`
/// (zero before the first draw, when `clock` seeds it): eight bytes per draw,
/// little-endian, the last draw cut to fit. An empty `dest` draws nothing.
pub fn fill_entropy(state: &mut u64, clock: u64, dest: &mut [u8])
    ensures
        final(dest)@.len() == old(dest)@.len(),
        forall|i: int|
            0 <= i < old(dest)@.len() ==> final(dest)@[i] == entropy_byte(
                entropy_seeded(*old(state), clock),
                i,
            ),
        old(dest)@.len() == 0 ==> *final(state) == *old(state),
        old(dest)@.len() > 0 ==> *final(state) == entropy_state_after(
            entropy_seeded(*old(state), clock),
            ((old(dest)@.len() + 7) / 8) as nat,
        ),
{
    let n = dest.len();
    if n == 0 {
        return;
    }
    let ghost s0 = entropy_seeded(*state, clock);
    let mut x: u64 = *state;
    if x == 0 {
        x = clock | 1u64;
    }
    let mut draws: usize = 0;
    let mut i: usize = 0;
    while i < n
        invariant
            n == dest@.len() == old(dest)@.len(),
            s0 == entropy_seeded(*old(state), clock),
            i <= n,
            i % 8 == 0,
            draws == i / 8,
            x == entropy_state_after(s0, draws as nat),
            forall|j: int| 0 <= j < i ==> dest@[j] == entropy_byte(s0, j),
        decreases n - i,
    {
        let mut y = x;
        y = y ^ (y << 13u64);
        y = y ^ (y >> 7u64);
        y = y ^ (y << 17u64);
        x = y;
        draws = draws + 1;
        let v = x.wrapping_mul(XORSHIFT_STAR_MULTIPLIER);
        let mut j: usize = 0;
        while j < 8 && i + j < n
            invariant
                n == dest@.len(),
                s0 == entropy_seeded(*old(state), clock),
                i < n,
                i % 8 == 0,
                draws == i / 8 + 1,
                x == entropy_state_after(s0, draws as nat),
                v == entropy_output(x),
                j <= 8,
                i + j <= n,
                forall|k: int| 0 <= k < i + j ==> dest@[k] == entropy_byte(s0, k),
            decreases 8 - j,
        {
            let byte = #[verifier::truncate] ((v >> ((8 * j) as u64)) as u8);
            assert((i + j) as int / 8 == i as int / 8 && (i + j) as int % 8 == j as int);
            dest[i + j] = byte;
            j = j + 1;
        }
        if n - i <= 8 {
            assert(i + j == n);
            assert(draws == (n + 7) / 8);
            *state = x;
            return;
        }
        i = i + 8;
    }
    *state = x;
}

} // verus!
