use pfengine::{Fx, Rng, V2};

#[test]
fn fixed_point_arithmetic_goes_through_i16f16() {
    let a = Fx::from_num(3);
    let b = Fx::from_num(-2);
    assert_eq!(a.to_bits(), 3 << 16);
    assert_eq!(a.add(b).to_bits(), 1 << 16);
    assert_eq!(a.sub(b).to_bits(), 5 << 16);
    assert_eq!(a.mul(b).to_bits(), -6 << 16);
    assert_eq!(a.div(b).to_bits(), -(3 << 15));
}

#[test]
fn multiplication_rounds_toward_negative_infinity() {
    // 1/65536 * 0.5 = 1/131072, rounded down to 0; -1/65536 * 0.5 rounds to -1/65536.
    let tiny = Fx::from_bits(1);
    let half = Fx::from_bits(1 << 15);
    assert_eq!(tiny.mul(half).to_bits(), 0);
    assert_eq!(Fx::from_bits(-1).mul(half).to_bits(), -1);
}

#[test]
fn division_rounds_toward_zero() {
    let one = Fx::from_num(1);
    let three = Fx::from_num(3);
    assert_eq!(one.div(three).to_bits(), 21845);
    assert_eq!(Fx::from_num(-1).div(three).to_bits(), -21845);
}

#[test]
fn vector_operations_are_componentwise() {
    let p = V2::new(Fx::from_num(1), Fx::from_num(2));
    let q = V2::new(Fx::from_num(10), Fx::from_num(-20));
    assert_eq!(p.add(q), V2::new(Fx::from_num(11), Fx::from_num(-18)));
    assert_eq!(p.sub(q), V2::new(Fx::from_num(-9), Fx::from_num(22)));
    assert_eq!(q.scale(Fx::from_bits(1 << 15)), V2::new(Fx::from_num(5), Fx::from_num(-10)));
    assert_eq!(V2::zero(), V2::default());
}

fn reference_next(state: &mut u64) -> u32 {
    let mut x = *state;
    x ^= x >> 12;
    x ^= x << 25;
    x ^= x >> 27;
    *state = x;
    (x.wrapping_mul(0x2545_F491_4F6C_DD1D) >> 32) as u32
}

#[test]
fn rng_is_xorshift64_star() {
    let mut rng = Rng::new(0);
    let mut state = 1u64;
    for _ in 0..100 {
        assert_eq!(rng.next_u32(), reference_next(&mut state));
    }
}

#[test]
fn rng_seed_forces_a_nonzero_state() {
    // Seeds 0 and 1 give the same generator, since the low bit is forced on.
    let mut a = Rng::new(0);
    let mut b = Rng::new(1);
    assert_eq!(a, b);
    for _ in 0..10 {
        assert_eq!(a.next_u32(), b.next_u32());
    }
    assert_ne!(Rng::new(2), Rng::new(4));
}

#[test]
fn next_fx_is_in_unit_interval() {
    let mut rng = Rng::new(0x1234_5678);
    let mut copy = rng;
    for _ in 0..1000 {
        let f = rng.next_fx();
        assert!(f >= Fx::zero() && f < Fx::from_num(1));
        assert_eq!(f.to_bits(), (copy.next_u32() >> 16) as i32);
    }
}
