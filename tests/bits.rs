use hidpipe::bits::{bit_is_set, set_bits};
use hidpipe::probe::is_joystick;
use hidpipe::registry::is_event_node;

fn mask(len: usize, bits: &[usize]) -> Vec<u8> {
    let mut m = vec![0u8; len];
    for &b in bits {
        m[b / 8] |= 1 << (b % 8);
    }
    m
}

#[test]
fn bits_are_little_endian_within_bytes() {
    let m = vec![0b0000_0101u8, 0b1000_0000];
    assert!(bit_is_set(&m, 0));
    assert!(!bit_is_set(&m, 1));
    assert!(bit_is_set(&m, 2));
    assert!(bit_is_set(&m, 15));
    assert!(!bit_is_set(&m, 16));
    assert_eq!(set_bits(&m, 16), vec![0, 2, 15]);
    assert_eq!(set_bits(&m, 3), vec![0, 2]);
    assert_eq!(set_bits(&[], 8), Vec::<u16>::new());
}

#[test]
fn gamepad_is_joystick() {
    let props = mask(4, &[]);
    let events = mask(4, &[0, 1, 3]);
    let axes = mask(8, &[0, 1, 3, 4]);
    let keys = mask(96, &[0x130]);
    assert!(is_joystick(&props, &events, &axes, &keys));
}

#[test]
fn flight_stick_with_throttle_is_joystick() {
    let axes = mask(8, &[0, 1, 6]);
    assert!(is_joystick(&mask(4, &[]), &mask(4, &[3]), &axes, &mask(96, &[])));
}

#[test]
fn touchpad_is_not_joystick() {
    let events = mask(4, &[3]);
    let axes = mask(8, &[0, 1, 3]);
    let keys = mask(96, &[0x120]);
    for prop in [2usize, 3, 4, 5, 6] {
        assert!(!is_joystick(&mask(4, &[prop]), &events, &axes, &keys));
    }
    assert!(is_joystick(&mask(4, &[0]), &events, &axes, &keys));
}

#[test]
fn no_absolute_events_is_not_joystick() {
    assert!(!is_joystick(&mask(4, &[]), &mask(4, &[1]), &mask(8, &[0, 1]), &mask(96, &[0x101])));
}

#[test]
fn missing_y_axis_is_not_joystick() {
    assert!(!is_joystick(&mask(4, &[]), &mask(4, &[3]), &mask(8, &[0]), &mask(96, &[0x101])));
}

#[test]
fn plain_xy_without_controls_is_not_joystick() {
    assert!(!is_joystick(&mask(4, &[]), &mask(4, &[3]), &mask(8, &[0, 1, 2]), &mask(96, &[0x110])));
}

#[test]
fn event_node_names() {
    assert!(is_event_node(b"event12"));
    assert!(is_event_node(b"event"));
    assert!(!is_event_node(b"js0"));
    assert!(!is_event_node(b"even"));
    assert!(!is_event_node(b"mouse0"));
}
