use pfengine::buttons;
use pfengine::{check_netplay_machines, scripted_input, Input, TooManyMachines, MAX_NETPLAY_MACHINES};

#[test]
fn netplay_allows_up_to_max_machines() {
    for n in 1..=MAX_NETPLAY_MACHINES {
        assert!(check_netplay_machines(n).is_ok(), "n = {n}");
    }
}

#[test]
fn netplay_rejects_more_than_max_machines() {
    let requested = MAX_NETPLAY_MACHINES + 1;
    assert_eq!(
        check_netplay_machines(requested),
        Err(TooManyMachines {
            requested,
            max: MAX_NETPLAY_MACHINES
        })
    );
}

#[test]
fn scripted_input_swings_and_jumps() {
    let first = scripted_input(0, 0);
    assert_eq!(
        first,
        Input {
            buttons: buttons::JUMP,
            stick_x: 110,
            ..Input::default()
        }
    );
    assert_eq!(scripted_input(0, 19).stick_x, 110);
    assert_eq!(scripted_input(0, 20).stick_x, -110);
    assert_eq!(scripted_input(0, 40).stick_x, 110);
    assert!(!scripted_input(0, 44).pressed(buttons::JUMP));
    assert!(scripted_input(0, 45).pressed(buttons::JUMP));
    // Handle 1 runs the same script 17 frames ahead.
    assert_eq!(scripted_input(1, 3), scripted_input(0, 20));
    assert_eq!(scripted_input(1, 28), scripted_input(0, 45));
    // The phase wraps around at the end of the frame counter.
    assert_eq!(scripted_input(1, u32::MAX - 16), scripted_input(0, 0));
}
