//! The desync checksum: a 128-bit FNV-1a hash of a world's bytes, every
//! field encoded in a fixed order.

use crate::world::{ActionState, Fighter, Stage, World};
use vstd::prelude::*;

verus! {

/// FNV-1a offset basis for 128-bit hashes.
pub const FNV_OFFSET: u128 = 0x6c62_272e_07bb_0142_62b8_2175_6295_c58d;

/// FNV-1a prime for 128-bit hashes.
pub const FNV_PRIME: u128 = 0x0000_0000_0100_0000_0000_0000_0000_013B;

/// One FNV-1a round: xor in the byte, then multiply by the prime (mod 2^128).
pub open spec fn fnv1a_byte(h: u128, b: u8) -> u128 {
    vstd::wrapping::u128_specs::wrapping_mul(h ^ (b as u128), FNV_PRIME)
}

/// FNV-1a of `bytes`, starting from the hash state `h`.
pub open spec fn fnv1a_spec(h: u128, bytes: Seq<u8>) -> u128
    decreases bytes.len(),
{
    if bytes.len() == 0 {
        h
    } else {
        fnv1a_byte(fnv1a_spec(h, bytes.drop_last()), bytes.last())
    }
}

/// Hashing two byte strings one after the other is hashing their
/// concatenation.
pub proof fn lemma_fnv1a_append(h: u128, a: Seq<u8>, b: Seq<u8>)
    ensures
        fnv1a_spec(fnv1a_spec(h, a), b) == fnv1a_spec(h, a + b),
    decreases b.len(),
{
    if b.len() == 0 {
        assert(a + b =~= a);
    } else {
        lemma_fnv1a_append(h, a, b.drop_last());
        assert((a + b).drop_last() =~= a + b.drop_last());
        assert((a + b).last() == b.last());
    }
}

/// The little-endian bytes of a `u32`.
pub open spec fn le_u32(x: u32) -> Seq<u8> {
    seq![x as u8, (x >> 8u32) as u8, (x >> 16u32) as u8, (x >> 24u32) as u8]
}

/// The little-endian bytes of an `i32` (its two's complement bits).
pub open spec fn le_i32(x: i32) -> Seq<u8> {
    le_u32(x as u32)
}

/// The byte an action state is encoded as: its position in the declaration.
pub open spec fn action_state_byte(s: ActionState) -> u8 {
    match s {
        ActionState::Idle => 0,
        ActionState::Walk => 1,
        ActionState::Airborne => 2,
        ActionState::Hitstun => 3,
    }
}

/// The byte a flag is encoded as.
pub open spec fn bool_byte(b: bool) -> u8 {
    if b {
        1
    } else {
        0
    }
}

/// The bytes one fighter contributes to the checksum, in field order.
pub open spec fn encode_fighter(p: Fighter) -> Seq<u8> {
    le_i32(p.pos.x.bits) + le_i32(p.pos.y.bits) + le_i32(p.vel.x.bits) + le_i32(p.vel.y.bits)
        + seq![action_state_byte(p.state), bool_byte(p.facing_right)]
}

/// The bytes of all fighters, in roster order.
pub open spec fn encode_players(ps: Seq<Fighter>) -> Seq<u8>
    decreases ps.len(),
{
    if ps.len() == 0 {
        Seq::empty()
    } else {
        encode_players(ps.drop_last()) + encode_fighter(ps.last())
    }
}

/// The little-endian bytes of a `u64`.
pub open spec fn le_u64(x: u64) -> Seq<u8> {
    seq![
        x as u8,
        (x >> 8u64) as u8,
        (x >> 16u64) as u8,
        (x >> 24u64) as u8,
        (x >> 32u64) as u8,
        (x >> 40u64) as u8,
        (x >> 48u64) as u8,
        (x >> 56u64) as u8,
    ]
}

/// The bytes the checksum hashes: the fighter count, every fighter, the
/// stage, the frame number and the generator state, in that fixed order.
pub open spec fn encode_world(ps: Seq<Fighter>, stage: Stage, frame: u32, rng: u64) -> Seq<u8> {
    le_u32(ps.len() as u32) + encode_players(ps) + le_i32(stage.floor_y.bits) + le_i32(
        stage.left.bits,
    ) + le_i32(stage.right.bits) + le_u32(frame) + le_u64(rng)
}

/// The 128-bit FNV-1a checksum of a state.
pub open spec fn checksum_spec(ps: Seq<Fighter>, stage: Stage, frame: u32, rng: u64) -> u128 {
    fnv1a_spec(FNV_OFFSET, encode_world(ps, stage, frame, rng))
}

/// Distinct `u32`s have distinct little-endian bytes.
proof fn lemma_le_u32_injective(a: u32, b: u32)
    requires
        le_u32(a) == le_u32(b),
    ensures
        a == b,
{
    assert(le_u32(a)[0] == le_u32(b)[0]);
    assert(le_u32(a)[1] == le_u32(b)[1]);
    assert(le_u32(a)[2] == le_u32(b)[2]);
    assert(le_u32(a)[3] == le_u32(b)[3]);
    let (a0, a1, a2, a3) = (a as u8, (a >> 8u32) as u8, (a >> 16u32) as u8, (a >> 24u32) as u8);
    let (b0, b1, b2, b3) = (b as u8, (b >> 8u32) as u8, (b >> 16u32) as u8, (b >> 24u32) as u8);
    assert(a0 == b0 && a1 == b1 && a2 == b2 && a3 == b3);
    assert(a as u8 == b as u8 && (a >> 8u32) as u8 == (b >> 8u32) as u8 && (a >> 16u32) as u8
        == (b >> 16u32) as u8 && (a >> 24u32) as u8 == (b >> 24u32) as u8 ==> a == b)
        by (bit_vector);
}

/// Distinct `i32`s have distinct little-endian bytes.
proof fn lemma_le_i32_injective(a: i32, b: i32)
    requires
        le_i32(a) == le_i32(b),
    ensures
        a == b,
{
    lemma_le_u32_injective(a as u32, b as u32);
    assert(a as u32 == b as u32 ==> a == b) by (bit_vector);
}

/// Distinct `u64`s have distinct little-endian bytes.
proof fn lemma_le_u64_injective(a: u64, b: u64)
    requires
        le_u64(a) == le_u64(b),
    ensures
        a == b,
{
    let (x, y) = (le_u64(a), le_u64(b));
    assert(x[0] == y[0] && x[1] == y[1] && x[2] == y[2] && x[3] == y[3]);
    assert(x[4] == y[4] && x[5] == y[5] && x[6] == y[6] && x[7] == y[7]);
    assert(a as u8 == b as u8 && (a >> 8u64) as u8 == (b >> 8u64) as u8 && (a >> 16u64) as u8
        == (b >> 16u64) as u8 && (a >> 24u64) as u8 == (b >> 24u64) as u8 && (a >> 32u64) as u8
        == (b >> 32u64) as u8 && (a >> 40u64) as u8 == (b >> 40u64) as u8 && (a >> 48u64) as u8
        == (b >> 48u64) as u8 && (a >> 56u64) as u8 == (b >> 56u64) as u8 ==> a == b)
        by (bit_vector);
}

/// A fighter is encoded as eighteen bytes: the four little-endian bytes of
/// each of its position's and velocity's components (x before y, position
/// before velocity), then its state byte and its facing byte. Two fighters
/// with the same encoding are the same fighter, so any difference between
/// fighters, in velocity as much as in position, shows in the bytes hashed.
pub proof fn lemma_encode_fighter(p: Fighter, q: Fighter)
    ensures
        encode_fighter(p).len() == 18,
        encode_fighter(p).subrange(0, 4) == le_i32(p.pos.x.bits),
        encode_fighter(p).subrange(4, 8) == le_i32(p.pos.y.bits),
        encode_fighter(p).subrange(8, 12) == le_i32(p.vel.x.bits),
        encode_fighter(p).subrange(12, 16) == le_i32(p.vel.y.bits),
        encode_fighter(p)[16] == action_state_byte(p.state),
        encode_fighter(p)[17] == bool_byte(p.facing_right),
        encode_fighter(p) == encode_fighter(q) ==> p == q,
{
    let e = encode_fighter(p);
    let f = encode_fighter(q);
    assert(e.subrange(0, 4) =~= le_i32(p.pos.x.bits));
    assert(e.subrange(4, 8) =~= le_i32(p.pos.y.bits));
    assert(e.subrange(8, 12) =~= le_i32(p.vel.x.bits));
    assert(e.subrange(12, 16) =~= le_i32(p.vel.y.bits));
    if e == f {
        assert(f.subrange(0, 4) =~= le_i32(q.pos.x.bits));
        assert(f.subrange(4, 8) =~= le_i32(q.pos.y.bits));
        assert(f.subrange(8, 12) =~= le_i32(q.vel.x.bits));
        assert(f.subrange(12, 16) =~= le_i32(q.vel.y.bits));
        lemma_le_i32_injective(p.pos.x.bits, q.pos.x.bits);
        lemma_le_i32_injective(p.pos.y.bits, q.pos.y.bits);
        lemma_le_i32_injective(p.vel.x.bits, q.vel.x.bits);
        lemma_le_i32_injective(p.vel.y.bits, q.vel.y.bits);
        assert(e[16] == f[16] && e[17] == f[17]);
        assert(p.state == q.state);
        assert(p.facing_right == q.facing_right);
    }
}

/// The roster's encoding is eighteen bytes per fighter, and two rosters of
/// the same size with the same encoding are the same roster.
pub proof fn lemma_encode_players(ps: Seq<Fighter>, qs: Seq<Fighter>)
    ensures
        encode_players(ps).len() == 18 * ps.len(),
        ps.len() == qs.len() && encode_players(ps) == encode_players(qs) ==> ps == qs,
    decreases ps.len(),
{
    if ps.len() > 0 {
        lemma_encode_fighter(ps.last(), ps.last());
        if qs.len() == ps.len() {
            lemma_encode_players(ps.drop_last(), qs.drop_last());
            lemma_encode_players(qs.drop_last(), qs.drop_last());
            lemma_encode_fighter(ps.last(), qs.last());
            lemma_encode_fighter(qs.last(), ps.last());
            let n = 18 * (ps.len() - 1);
            let e = encode_players(ps);
            let f = encode_players(qs);
            if e == f {
                assert(e.subrange(0, n) =~= encode_players(ps.drop_last()));
                assert(f.subrange(0, n) =~= encode_players(qs.drop_last()));
                assert(e.subrange(n, n + 18) =~= encode_fighter(ps.last()));
                assert(f.subrange(n, n + 18) =~= encode_fighter(qs.last()));
                assert(ps =~= ps.drop_last().push(ps.last()));
                assert(qs =~= qs.drop_last().push(qs.last()));
            }
        } else {
            lemma_encode_players(ps.drop_last(), ps.drop_last());
        }
    }
}

/// The bytes a checksum is taken of tell worlds apart: two states with the
/// same encoding have the same fighters, stage, frame number and generator
/// state (for rosters whose size fits the four bytes it is counted in).
pub proof fn lemma_encode_world_injective(
    ps: Seq<Fighter>,
    stage: Stage,
    frame: u32,
    rng: u64,
    qs: Seq<Fighter>,
    stage2: Stage,
    frame2: u32,
    rng2: u64,
)
    requires
        ps.len() <= u32::MAX,
        qs.len() <= u32::MAX,
    ensures
        encode_world(ps, stage, frame, rng) == encode_world(qs, stage2, frame2, rng2) ==> ps == qs
            && stage == stage2 && frame == frame2 && rng == rng2,
{
    let e = encode_world(ps, stage, frame, rng);
    let f = encode_world(qs, stage2, frame2, rng2);
    if e == f {
        assert(e.subrange(0, 4) =~= le_u32(ps.len() as u32));
        assert(f.subrange(0, 4) =~= le_u32(qs.len() as u32));
        lemma_le_u32_injective(ps.len() as u32, qs.len() as u32);
        assert(ps.len() == qs.len());
        lemma_encode_players(ps, qs);
        lemma_encode_players(qs, ps);
        let n: int = 4 + 18 * ps.len() as int;
        assert(e.subrange(4, n) =~= encode_players(ps));
        assert(f.subrange(4, n) =~= encode_players(qs));
        assert(e.subrange(n, n + 4) =~= le_i32(stage.floor_y.bits));
        assert(f.subrange(n, n + 4) =~= le_i32(stage2.floor_y.bits));
        assert(e.subrange(n + 4, n + 8) =~= le_i32(stage.left.bits));
        assert(f.subrange(n + 4, n + 8) =~= le_i32(stage2.left.bits));
        assert(e.subrange(n + 8, n + 12) =~= le_i32(stage.right.bits));
        assert(f.subrange(n + 8, n + 12) =~= le_i32(stage2.right.bits));
        assert(e.subrange(n + 12, n + 16) =~= le_u32(frame));
        assert(f.subrange(n + 12, n + 16) =~= le_u32(frame2));
        assert(e.subrange(n + 16, n + 24) =~= le_u64(rng));
        assert(f.subrange(n + 16, n + 24) =~= le_u64(rng2));
        lemma_le_i32_injective(stage.floor_y.bits, stage2.floor_y.bits);
        lemma_le_i32_injective(stage.left.bits, stage2.left.bits);
        lemma_le_i32_injective(stage.right.bits, stage2.right.bits);
        lemma_le_u32_injective(frame, frame2);
        lemma_le_u64_injective(rng, rng2);
    }
}

/// Fold `bytes` into the FNV-1a hash state `h`.
pub fn fnv1a(h: &mut u128, bytes: &[u8])
    ensures
        *final(h) == fnv1a_spec(*old(h), bytes@),
{
    let ghost h0 = *h;
    let mut i: usize = 0;
    while i < bytes.len()
        invariant
            i <= bytes@.len(),
            *h == fnv1a_spec(h0, bytes@.take(i as int)),
        decreases bytes@.len() - i,
    {
        assert(bytes@.take(i + 1).drop_last() =~= bytes@.take(i as int));
        *h = *h ^ (bytes[i] as u128);
        *h = h.wrapping_mul(FNV_PRIME);
        i = i + 1;
    }
    assert(bytes@.take(bytes@.len() as int) =~= bytes@);
}

/// The little-endian bytes of `x`.
fn le_bytes_u32(x: u32) -> (r: [u8; 4])
    ensures
        r@ == le_u32(x),
{
    let r = [x as u8, (x >> 8u32) as u8, (x >> 16u32) as u8, (x >> 24u32) as u8];
    assert(r@ =~= le_u32(x));
    r
}

/// The little-endian bytes of `x`.
fn le_bytes_u64(x: u64) -> (r: [u8; 8])
    ensures
        r@ == le_u64(x),
{
    let r = [
        x as u8,
        (x >> 8u64) as u8,
        (x >> 16u64) as u8,
        (x >> 24u64) as u8,
        (x >> 32u64) as u8,
        (x >> 40u64) as u8,
        (x >> 48u64) as u8,
        (x >> 56u64) as u8,
    ];
    assert(r@ =~= le_u64(x));
    r
}

/// The little-endian bytes of `x`.
fn le_bytes_i32(x: i32) -> (r: [u8; 4])
    ensures
        r@ == le_i32(x),
{
    le_bytes_u32(x as u32)
}

/// The checksum byte of an action state.
fn state_byte(s: ActionState) -> (r: u8)
    ensures
        r == action_state_byte(s),
{
    match s {
        ActionState::Idle => 0,
        ActionState::Walk => 1,
        ActionState::Airborne => 2,
        ActionState::Hitstun => 3,
    }
}

/// Hash `chunk` into `h`, tracking the bytes hashed so far.
fn hash_chunk(h: &mut u128, chunk: &[u8], Ghost(done): Ghost<Seq<u8>>)
    requires
        *old(h) == fnv1a_spec(FNV_OFFSET, done),
    ensures
        *final(h) == fnv1a_spec(FNV_OFFSET, done + chunk@),
{
    fnv1a(h, chunk);
    proof {
        lemma_fnv1a_append(FNV_OFFSET, done, chunk@);
    }
}

impl World {
    /// A 128-bit FNV-1a hash of the full state, used for desync detection.
    /// Encodes every field in a fixed order, the generator's state included.
    pub fn checksum(&self) -> (r: u128)
        ensures
            r == checksum_spec(self.players@, self.stage, self.frame, self.rng.state()),
    {
        let mut h = FNV_OFFSET;
        let n = self.players.len();
        let ghost mut done: Seq<u8> = Seq::empty();
        assert(h == fnv1a_spec(FNV_OFFSET, done));
        let count = le_bytes_u32(n as u32);
        hash_chunk(&mut h, &count, Ghost(done));
        proof {
            done = done + count@;
        }
        let mut i: usize = 0;
        while i < n
            invariant
                n == self.players@.len(),
                i <= n,
                h == fnv1a_spec(FNV_OFFSET, done),
                done == le_u32(n as u32) + encode_players(self.players@.take(i as int)),
            decreases n - i,
        {
            let p = self.players[i];
            let ghost start = done;
            let b = le_bytes_i32(p.pos.x.bits);
            hash_chunk(&mut h, &b, Ghost(done));
            proof { done = done + b@; }
            let b = le_bytes_i32(p.pos.y.bits);
            hash_chunk(&mut h, &b, Ghost(done));
            proof { done = done + b@; }
            let b = le_bytes_i32(p.vel.x.bits);
            hash_chunk(&mut h, &b, Ghost(done));
            proof { done = done + b@; }
            let b = le_bytes_i32(p.vel.y.bits);
            hash_chunk(&mut h, &b, Ghost(done));
            proof { done = done + b@; }
            let flags = [state_byte(p.state), if p.facing_right { 1u8 } else { 0u8 }];
            hash_chunk(&mut h, &flags, Ghost(done));
            proof {
                done = done + flags@;
                assert(self.players@.take(i + 1).drop_last() =~= self.players@.take(i as int));
                assert(flags@ =~= seq![action_state_byte(p.state), bool_byte(p.facing_right)]);
                assert(done =~= le_u32(n as u32) + encode_players(self.players@.take(i + 1)));
            }
            i = i + 1;
        }
        assert(self.players@.take(n as int) =~= self.players@);
        let b = le_bytes_i32(self.stage.floor_y.bits);
        hash_chunk(&mut h, &b, Ghost(done));
        proof { done = done + b@; }
        let b = le_bytes_i32(self.stage.left.bits);
        hash_chunk(&mut h, &b, Ghost(done));
        proof { done = done + b@; }
        let b = le_bytes_i32(self.stage.right.bits);
        hash_chunk(&mut h, &b, Ghost(done));
        proof { done = done + b@; }
        let b = le_bytes_u32(self.frame);
        hash_chunk(&mut h, &b, Ghost(done));
        proof { done = done + b@; }
        let b = le_bytes_u64(self.rng.to_bits());
        hash_chunk(&mut h, &b, Ghost(done));
        proof {
            done = done + b@;
            assert(done =~= encode_world(self.players@, self.stage, self.frame, self.rng.state()));
        }
        h
    }
}

} // verus!
