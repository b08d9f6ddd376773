use pfengine::session::{
    after_refused_advance, confirmed_frame_from, frame_count_from, fulfil_request,
    fulfil_requests, local_handles, Request, SessionFailure,
};
use pfengine::{scripted_input, Advanced, Input, SessionError, World, MAX_NETPLAY_MACHINES};

#[test]
fn local_session_rejects_zero_players() {
    assert!(matches!(local_handles(0), Err(SessionError::NoPlayers)));
}

#[test]
fn local_session_has_no_player_cap() {
    let n = MAX_NETPLAY_MACHINES * 2;
    assert_eq!(local_handles(n).unwrap().len(), n);
}

#[test]
fn local_session_marks_every_handle_local() {
    let handles = local_handles(3).unwrap();
    assert_eq!(handles.len(), 3);
    assert_eq!(handles, vec![0, 1, 2]);
    // A fresh session is at frame 0 with no confirmed frame (-1).
    assert_eq!(frame_count_from(0), 0);
    assert_eq!(confirmed_frame_from(-1), None);
}

#[test]
fn frame_counters_read_the_engine_frames() {
    assert_eq!(frame_count_from(-1), 0);
    assert_eq!(frame_count_from(0), 0);
    assert_eq!(frame_count_from(299), 299);
    assert_eq!(confirmed_frame_from(-1), None);
    assert_eq!(confirmed_frame_from(0), Some(0));
    assert_eq!(confirmed_frame_from(299), Some(299));
}

#[test]
fn routine_refusals_run_no_frame_and_others_are_errors() {
    assert_eq!(
        after_refused_advance(SessionFailure::NotSynchronized),
        Ok(Advanced::default())
    );
    assert_eq!(
        after_refused_advance(SessionFailure::PredictionThreshold),
        Ok(Advanced {
            frames: 0,
            rolled_back: false
        })
    );
    let bad = SessionFailure::InvalidRequest {
        info: "missing local input".to_string(),
    };
    assert_eq!(
        after_refused_advance(bad.clone()),
        Err(SessionError::Ggrs(bad))
    );
    assert_eq!(
        after_refused_advance(SessionFailure::SpectatorTooFarBehind),
        Err(SessionError::Ggrs(SessionFailure::SpectatorTooFarBehind))
    );
}

fn frame_inputs(n: usize, frame: u32) -> Vec<Input> {
    (0..n).map(|h| scripted_input(h, frame)).collect()
}

#[test]
fn fulfilling_advance_requests_matches_direct_stepping() {
    for n in [1, 2, 4, 8] {
        let mut through_requests = World::new(n);
        let mut direct = World::new(n);
        for frame in 0..300 {
            let inputs = frame_inputs(n, frame);
            let (advanced, saved) = fulfil_request(
                &mut through_requests,
                Advanced::default(),
                Request::Advance {
                    inputs: inputs.clone(),
                },
            );
            assert_eq!(
                advanced,
                Advanced {
                    frames: 1,
                    rolled_back: false
                }
            );
            assert!(saved.is_none());
            direct.advance(&inputs);
        }
        assert_eq!(through_requests, direct, "{n} players");
        assert_eq!(through_requests.checksum(), direct.checksum(), "{n} players");
    }
}

#[test]
fn save_leaves_the_world_and_load_rewinds_it() {
    let mut world = World::new(2);
    for frame in 0..10 {
        world.advance(&frame_inputs(2, frame));
    }
    let before = world.clone();
    let (advanced, saved) =
        fulfil_request(&mut world, Advanced::default(), Request::Save { frame: 10 });
    assert_eq!(advanced, Advanced::default());
    assert_eq!(world, before);
    let saved = saved.expect("a save hands back a snapshot");
    assert_eq!(saved.frame, 10);
    assert_eq!(saved.state, before);
    assert_eq!(saved.checksum, before.checksum());

    for frame in 10..20 {
        world.advance(&frame_inputs(2, frame));
    }
    assert_ne!(world, before);
    let (advanced, none) = fulfil_request(
        &mut world,
        advanced,
        Request::Load {
            state: saved.state.clone(),
        },
    );
    assert!(none.is_none());
    assert_eq!(
        advanced,
        Advanced {
            frames: 0,
            rolled_back: true
        }
    );
    assert_eq!(world, before);
}

#[test]
fn rollback_resimulation_reproduces_checksums() {
    // What a determinism check does every frame: save, run ahead, rewind,
    // re-run with the same inputs, and compare checksums.
    let n = 4;
    let mut world = World::new(n);
    let mut progress = Advanced::default();
    for frame in 0..100u32 {
        let (p, saved) =
            fulfil_request(&mut world, progress, Request::Save { frame: frame as i32 });
        progress = p;
        let saved = saved.unwrap();
        let mut ahead = Vec::new();
        for k in 0..3 {
            let (p, _) = fulfil_request(
                &mut world,
                progress,
                Request::Advance {
                    inputs: frame_inputs(n, frame + k),
                },
            );
            progress = p;
            ahead.push(world.checksum());
        }
        let (p, _) = fulfil_request(&mut world, progress, Request::Load { state: saved.state.clone() });
        progress = p;
        assert_eq!(world.checksum(), saved.checksum);
        for (k, expected) in ahead.iter().enumerate() {
            let (p, _) = fulfil_request(
                &mut world,
                progress,
                Request::Advance {
                    inputs: frame_inputs(n, frame + k as u32),
                },
            );
            progress = p;
            assert_eq!(world.checksum(), *expected, "frame {frame}, step {k}");
        }
        // Rewind the extra re-simulated frames so the world moves one frame.
        let (p, _) = fulfil_request(&mut world, progress, Request::Load { state: saved.state });
        progress = p;
        let (p, _) = fulfil_request(
            &mut world,
            progress,
            Request::Advance {
                inputs: frame_inputs(n, frame),
            },
        );
        progress = p;
    }
    assert!(progress.rolled_back);
    assert_eq!(world.frame, 100);
}

#[test]
fn a_local_tick_batch_is_one_direct_step() {
    for n in [1, 2, 4, 8] {
        let mut through_batches = World::new(n);
        let mut direct = World::new(n);
        for frame in 0..300u32 {
            let inputs = frame_inputs(n, frame);
            let (advanced, snapshots, done) = fulfil_requests(
                &mut through_batches,
                Advanced::default(),
                vec![
                    Request::Save {
                        frame: frame as i32,
                    },
                    Request::Advance {
                        inputs: inputs.clone(),
                    },
                ],
            );
            assert_eq!(done, 2);
            assert_eq!(
                advanced,
                Advanced {
                    frames: 1,
                    rolled_back: false
                }
            );
            assert_eq!(snapshots.len(), 1);
            assert_eq!(snapshots[0].frame, frame as i32);
            assert_eq!(snapshots[0].state, direct);
            assert_eq!(snapshots[0].checksum, direct.checksum());
            direct.advance(&inputs);
            assert_eq!(through_batches.frame, direct.frame);
        }
        assert_eq!(through_batches, direct, "{n} players");
    }
}

#[test]
fn a_batch_stops_before_an_advance_it_cannot_run() {
    let mut world = World::new(2);
    let start = world.clone();
    let (advanced, snapshots, done) = fulfil_requests(
        &mut world,
        Advanced::default(),
        vec![
            Request::Save { frame: 0 },
            Request::Advance {
                inputs: frame_inputs(2, 0),
            },
            Request::Save { frame: 1 },
            Request::Advance {
                inputs: frame_inputs(3, 1),
            },
            Request::Save { frame: 2 },
        ],
    );
    assert_eq!(done, 3);
    assert_eq!(advanced.frames, 1);
    assert_eq!(snapshots.len(), 2);
    assert_eq!(snapshots[0].state, start);
    assert_eq!(snapshots[1].frame, 1);
    assert_eq!(snapshots[1].state, world);
    assert_eq!(world.frame, 1);
}

#[test]
fn a_batch_with_a_load_rewinds_and_resimulates() {
    let mut world = World::new(2);
    let (_, saved, _) = fulfil_requests(
        &mut world,
        Advanced::default(),
        vec![
            Request::Save { frame: 0 },
            Request::Advance {
                inputs: frame_inputs(2, 0),
            },
            Request::Advance {
                inputs: frame_inputs(2, 1),
            },
        ],
    );
    let after_two = world.clone();
    let (advanced, _, done) = fulfil_requests(
        &mut world,
        Advanced::default(),
        vec![
            Request::Load {
                state: saved[0].state.clone(),
            },
            Request::Advance {
                inputs: frame_inputs(2, 0),
            },
            Request::Advance {
                inputs: frame_inputs(2, 1),
            },
        ],
    );
    assert_eq!(done, 3);
    assert_eq!(
        advanced,
        Advanced {
            frames: 2,
            rolled_back: true
        }
    );
    assert_eq!(world, after_two);
}

#[test]
fn an_empty_batch_leaves_the_world_untouched() {
    let mut world = World::new(3);
    let before = world.clone();
    let (advanced, snapshots, done) =
        fulfil_requests(&mut world, Advanced::default(), Vec::new());
    assert_eq!((advanced, snapshots.len(), done), (Advanced::default(), 0, 0));
    assert_eq!(world, before);
}
