use pfengine::buttons;
use pfengine::{ActionState, Fx, Input, World};

fn all_on_stage(w: &World) -> bool {
    w.players.iter().all(|f| {
        f.pos.x >= w.stage.left && f.pos.x <= w.stage.right && f.pos.y == w.stage.floor_y
    })
}

#[test]
fn new_spawns_requested_number_of_fighters_on_stage() {
    for n in [0, 1, 4, 100] {
        let w = World::new(n);
        assert_eq!(w.players.len(), n, "n = {n}");
        assert!(all_on_stage(&w), "n = {n}");
    }
}

#[test]
fn fighters_face_the_center() {
    let w = World::new(4);
    assert!(w.players[0].facing_right);
    assert!(w.players[1].facing_right);
    assert!(!w.players[2].facing_right);
    assert!(!w.players[3].facing_right);
}

#[test]
fn advance_rejects_wrong_input_count() {
    let w = World::new(2);
    assert!(!w.can_advance(&[Input::default()]));
    assert!(w.can_advance(&[Input::default(); 2]));
}

#[test]
fn advance_steps_every_fighter() {
    let mut w = World::new(3);
    let right = Input {
        stick_x: 127,
        ..Input::default()
    };
    assert!(w.can_advance(&[right; 3]));
    w.advance(&[right; 3]);
    for (i, f) in w.players.iter().enumerate() {
        assert!(f.vel.x > Fx::zero(), "fighter {i} did not move");
    }
}

#[test]
fn checksum_differs_by_player_count() {
    assert_ne!(World::new(2).checksum(), World::new(3).checksum());
}

#[test]
fn new_world_layout_is_exact() {
    let w = World::new(3);
    // step = 400 / 4 = 100 units; spawn points at -100, 0, 100.
    let xs: Vec<i32> = w.players.iter().map(|f| f.pos.x.to_bits()).collect();
    assert_eq!(xs, vec![-100 << 16, 0, 100 << 16]);
    assert_eq!(w.stage.left.to_bits(), -200 << 16);
    assert_eq!(w.stage.right.to_bits(), 200 << 16);
    assert_eq!(w.stage.floor_y.to_bits(), 0);
    assert_eq!(w.frame, 0);
    assert!(w.players.iter().all(|f| f.state == ActionState::Idle));
    // x == 0 counts as left of centre, so it faces right.
    assert!(w.players[1].facing_right);
}

#[test]
fn default_world_has_two_fighters() {
    let w = World::default();
    assert_eq!(w, World::new(2));
}

#[test]
fn new_world_with_many_players_stays_evenly_spread() {
    let w = World::new(32766);
    assert_eq!(w.players.len(), 32766);
    assert!(all_on_stage(&w));
    let step = w.players[1].pos.x.to_bits() - w.players[0].pos.x.to_bits();
    assert!(step > 0);
    for pair in w.players.windows(2) {
        assert_eq!(pair[1].pos.x.to_bits() - pair[0].pos.x.to_bits(), step);
    }
}

#[test]
fn advance_counts_frames_and_keeps_stage() {
    let mut w = World::new(2);
    let stage = w.stage;
    for _ in 0..10 {
        w.advance(&[Input::default(); 2]);
    }
    assert_eq!(w.frame, 10);
    assert_eq!(w.stage, stage);
}

#[test]
fn jump_then_fall_back_to_the_floor() {
    let mut w = World::new(1);
    let jump = Input {
        buttons: buttons::JUMP,
        ..Input::default()
    };
    w.advance(&[jump]);
    assert_eq!(w.players[0].vel.y.to_bits(), 8 << 16);
    assert_eq!(w.players[0].pos.y.to_bits(), 8 << 16);
    assert_eq!(w.players[0].state, ActionState::Airborne);
    // Airborne: gravity takes half a unit per tick off the velocity.
    w.advance(&[Input::default()]);
    assert_eq!(w.players[0].vel.y.to_bits(), (8 << 16) - (1 << 15));
    let mut ticks = 0;
    while w.players[0].state == ActionState::Airborne {
        w.advance(&[Input::default()]);
        ticks += 1;
        assert!(ticks < 100);
    }
    // The arc lands exactly on the floor after 33 ticks, still moving down.
    assert_eq!(ticks, 31);
    assert_eq!(w.players[0].pos.y.to_bits(), 0);
    assert_eq!(w.players[0].vel.y.to_bits(), -8 << 16);
    // Standing on the floor, the next tick's fall is caught and stopped.
    w.advance(&[Input::default()]);
    assert_eq!(w.players[0].pos.y.to_bits(), 0);
    assert_eq!(w.players[0].vel.y.to_bits(), 0);
    assert_eq!(w.players[0].state, ActionState::Idle);
}

#[test]
fn walls_stop_fighters() {
    let mut w = World::new(1);
    let left = Input {
        stick_x: -128,
        ..Input::default()
    };
    for _ in 0..200 {
        w.advance(&[left]);
    }
    assert_eq!(w.players[0].pos.x, w.stage.left);
    assert!(!w.players[0].facing_right);
}

#[test]
fn checksum_tracks_every_field() {
    let w = World::new(2);
    let base = w.checksum();
    assert_eq!(w.snapshot().checksum(), base);
    let mut moved = w.snapshot();
    moved.players[1].pos.y = Fx::from_bits(1);
    assert_ne!(moved.checksum(), base);
    let mut later = w.snapshot();
    later.frame = 1;
    assert_ne!(later.checksum(), base);
    // The generator's state is part of the checksum too.
    let mut drawn = w.snapshot();
    drawn.rng.next_u32();
    assert_ne!(drawn.checksum(), base);
}

#[test]
fn checksum_of_empty_world_is_fnv1a_of_its_bytes() {
    // Bytes: count 0, floor 0, left, right, frame 0, generator state
    // (little-endian).
    let mut bytes = Vec::new();
    bytes.extend_from_slice(&0u32.to_le_bytes());
    bytes.extend_from_slice(&0i32.to_le_bytes());
    bytes.extend_from_slice(&(-200i32 << 16).to_le_bytes());
    bytes.extend_from_slice(&(200i32 << 16).to_le_bytes());
    bytes.extend_from_slice(&0u32.to_le_bytes());
    bytes.extend_from_slice(&0x9E37_79B9_7F4A_7C15u64.to_le_bytes());
    let mut h: u128 = 0x6c62_272e_07bb_0142_62b8_2175_6295_c58d;
    for b in bytes {
        h ^= b as u128;
        h = h.wrapping_mul(0x0000_0000_0100_0000_0000_0000_0000_013B);
    }
    assert_eq!(World::new(0).checksum(), h);
}

#[test]
fn fnv1a_of_empty_input_keeps_the_state() {
    let mut h: u128 = 12345;
    pfengine::checksum::fnv1a(&mut h, &[]);
    assert_eq!(h, 12345);
    pfengine::checksum::fnv1a(&mut h, &[0]);
    assert_eq!(h, 12345u128.wrapping_mul(0x0000_0000_0100_0000_0000_0000_0000_013B));
}

#[test]
fn a_world_built_and_advanced_can_always_advance() {
    let n = 8;
    let mut w = World::new(n);
    for frame in 0..5000u32 {
        let inputs: Vec<Input> = (0..n)
            .map(|h| {
                let mut i = pfengine::scripted_input(h, frame);
                // Jump on every tick some of the time to reach the top of the arc.
                if (frame / 300) % 2 == 1 {
                    i.buttons |= buttons::JUMP;
                }
                i
            })
            .collect();
        assert!(w.can_advance(&inputs), "frame {frame}");
        w.advance(&inputs);
        for f in &w.players {
            assert!(f.pos.y.to_bits() >= 0 && f.pos.y.to_bits() <= 137 << 15);
        }
    }
}
