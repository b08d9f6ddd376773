use pfengine::buttons;
use pfengine::entropy::fill_entropy;
use pfengine::keyboard::keyboard_input;
use pfengine::Input;

#[test]
fn pressed_tests_any_button_of_the_mask() {
    let input = Input {
        buttons: buttons::JUMP | buttons::GRAB,
        ..Input::default()
    };
    assert!(input.pressed(buttons::JUMP));
    assert!(input.pressed(buttons::GRAB | buttons::SHIELD));
    assert!(!input.pressed(buttons::ATTACK | buttons::SPECIAL));
    assert!(!input.pressed(0));
}

#[test]
fn default_input_is_neutral() {
    let input = Input::default();
    assert_eq!(
        (input.buttons, input.stick_x, input.stick_y, input.cstick_x, input.cstick_y),
        (0, 0, 0, 0, 0)
    );
}

#[test]
fn keyboard_keys_push_the_stick_and_press_jump() {
    assert_eq!(keyboard_input(false, false, false), Input::default());
    assert_eq!(keyboard_input(true, false, false).stick_x, -110);
    assert_eq!(keyboard_input(false, true, false).stick_x, 110);
    assert_eq!(keyboard_input(true, true, false).stick_x, 0);
    assert_eq!(
        keyboard_input(false, false, true),
        Input {
            buttons: buttons::JUMP,
            ..Input::default()
        }
    );
}

fn reference_stream(seed: u64, len: usize) -> (Vec<u8>, u64) {
    let mut x = seed;
    let mut out = Vec::new();
    while out.len() < len {
        x ^= x << 13;
        x ^= x >> 7;
        x ^= x << 17;
        let v = x.wrapping_mul(0x2545_F491_4F6C_DD1D);
        out.extend_from_slice(&v.to_le_bytes());
    }
    out.truncate(len);
    (out, x)
}

#[test]
fn entropy_fills_from_a_clock_seeded_xorshift() {
    let mut state = 0u64;
    let mut dest = [0u8; 13];
    fill_entropy(&mut state, 1_000_000, &mut dest);
    let (expected, after) = reference_stream(1_000_001, 13);
    assert_eq!(dest.to_vec(), expected);
    assert_eq!(state, after);
    // Once seeded, the clock is ignored.
    let mut more = [0u8; 8];
    let mut copy = state;
    fill_entropy(&mut state, 42, &mut more);
    let (expected, _) = reference_stream(copy, 8);
    assert_eq!(more.to_vec(), expected);
    // An empty request draws nothing.
    copy = state;
    fill_entropy(&mut state, 42, &mut []);
    assert_eq!(state, copy);
}
