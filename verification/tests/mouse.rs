//! Console mouse records as SGR sequences.

use rawterm::mouse::{
    BUTTON_MASK, FROM_LEFT_1ST_BUTTON, FROM_LEFT_2ND_BUTTON, LEFT_ALT_PRESSED, LEFT_CTRL_PRESSED,
    MOUSE_MOVED, MOUSE_WHEELED, RIGHTMOST_BUTTON, RIGHT_ALT_PRESSED, RIGHT_CTRL_PRESSED,
    SHIFT_PRESSED,
};
use rawterm::{encode_mouse, Coord, Decoder, Event, Key, MouseRecord};

fn rec(x: i16, y: i16, buttons: u32, flags: u32, ctrl: u32) -> MouseRecord {
    MouseRecord {
        position: Coord { x, y },
        button_state: buttons,
        control_key_state: ctrl,
        event_flags: flags,
    }
}

#[test]
fn left_click_press_and_release() {
    let mut prev: u32 = 0;
    // Press left at (0,0) → Cb=0, Cx=1, Cy=1, 'M'.
    let down = rec(0, 0, FROM_LEFT_1ST_BUTTON, 0, 0);
    assert_eq!(encode_mouse(&down, &mut prev).unwrap(), b"\x1b[<0;1;1M");
    // Release (button now up) → Cb=0, 'm'.
    let up = rec(0, 0, 0, 0, 0);
    assert_eq!(encode_mouse(&up, &mut prev).unwrap(), b"\x1b[<0;1;1m");
}

#[test]
fn right_and_middle_press() {
    let mut prev: u32 = 0;
    let right = rec(4, 2, RIGHTMOST_BUTTON, 0, 0);
    // Cx = 4+1 = 5, Cy = 2+1 = 3, Cb = 2.
    assert_eq!(encode_mouse(&right, &mut prev).unwrap(), b"\x1b[<2;5;3M");

    let mut prev: u32 = 0;
    let middle = rec(0, 0, FROM_LEFT_2ND_BUTTON, 0, 0);
    assert_eq!(encode_mouse(&middle, &mut prev).unwrap(), b"\x1b[<1;1;1M");
}

#[test]
fn wheel_up_and_down() {
    let mut prev: u32 = 0;
    // High word positive → up → Cb=64, 'M'.
    let up = rec(0, 0, 1u32 << 16, MOUSE_WHEELED, 0);
    assert_eq!(encode_mouse(&up, &mut prev).unwrap(), b"\x1b[<64;1;1M");
    // High word negative (0xFFFF as i16 = -1) → down → Cb=65, 'M'.
    let down = rec(0, 0, 0xFFFFu32 << 16, MOUSE_WHEELED, 0);
    assert_eq!(encode_mouse(&down, &mut prev).unwrap(), b"\x1b[<65;1;1M");
}

#[test]
fn motion_with_button_is_a_drag() {
    let mut prev: u32 = FROM_LEFT_1ST_BUTTON; // left already down
    let drag = rec(1, 1, FROM_LEFT_1ST_BUTTON, MOUSE_MOVED, 0);
    // Left drag → base 0 + 32 = 32, press-style 'M', Cx=Cy=2.
    assert_eq!(encode_mouse(&drag, &mut prev).unwrap(), b"\x1b[<32;2;2M");
}

#[test]
fn plain_motion_no_button_is_dropped() {
    let mut prev: u32 = 0;
    let moved = rec(3, 3, 0, MOUSE_MOVED, 0);
    assert_eq!(encode_mouse(&moved, &mut prev), None);
}

#[test]
fn modifiers_fold_into_button_code() {
    let mut prev: u32 = 0;
    // Ctrl+Shift left press → Cb = 0 + 16 + 4 = 20.
    let ctrl_shift = rec(
        0,
        0,
        FROM_LEFT_1ST_BUTTON,
        0,
        SHIFT_PRESSED | LEFT_CTRL_PRESSED,
    );
    assert_eq!(
        encode_mouse(&ctrl_shift, &mut prev).unwrap(),
        b"\x1b[<20;1;1M"
    );
}

#[test]
fn release_reports_the_button_that_went_up() {
    let mut prev: u32 = RIGHTMOST_BUTTON; // right was down
    let up = rec(0, 0, 0, 0, 0); // all up now
    // Right release → Cb=2, 'm'.
    assert_eq!(encode_mouse(&up, &mut prev).unwrap(), b"\x1b[<2;1;1m");
    assert_eq!(prev, 0);
}

#[test]
fn every_modifier_has_its_bit() {
    let cases: [(u32, &[u8]); 6] = [
        (SHIFT_PRESSED, b"\x1b[<4;1;1M"),
        (LEFT_ALT_PRESSED, b"\x1b[<8;1;1M"),
        (RIGHT_ALT_PRESSED, b"\x1b[<8;1;1M"),
        (LEFT_CTRL_PRESSED, b"\x1b[<16;1;1M"),
        (RIGHT_CTRL_PRESSED, b"\x1b[<16;1;1M"),
        (
            SHIFT_PRESSED | LEFT_ALT_PRESSED | RIGHT_ALT_PRESSED | RIGHT_CTRL_PRESSED,
            b"\x1b[<28;1;1M",
        ),
    ];
    for (ctrl, expected) in cases {
        let mut prev: u32 = 0;
        let press = rec(0, 0, FROM_LEFT_1ST_BUTTON, 0, ctrl);
        assert_eq!(encode_mouse(&press, &mut prev).unwrap(), expected);
    }
}

#[test]
fn cells_are_one_based_and_never_negative() {
    let mut prev: u32 = 0;
    let far = rec(i16::MAX, 9, FROM_LEFT_1ST_BUTTON, 0, 0);
    assert_eq!(
        encode_mouse(&far, &mut prev).unwrap(),
        b"\x1b[<0;32768;10M"
    );
    let mut prev: u32 = 0;
    let off = rec(-5, i16::MIN, FROM_LEFT_1ST_BUTTON, 0, 0);
    assert_eq!(encode_mouse(&off, &mut prev).unwrap(), b"\x1b[<0;1;1M");
}

#[test]
fn a_press_with_another_button_held_names_the_new_button() {
    let mut prev: u32 = FROM_LEFT_1ST_BUTTON;
    let both = rec(0, 0, FROM_LEFT_1ST_BUTTON | RIGHTMOST_BUTTON, 0, 0);
    assert_eq!(encode_mouse(&both, &mut prev).unwrap(), b"\x1b[<2;1;1M");
    assert_eq!(prev, FROM_LEFT_1ST_BUTTON | RIGHTMOST_BUTTON);
    let one = rec(0, 0, FROM_LEFT_1ST_BUTTON, 0, 0);
    assert_eq!(encode_mouse(&one, &mut prev).unwrap(), b"\x1b[<2;1;1m");
    assert_eq!(prev, FROM_LEFT_1ST_BUTTON);
}

#[test]
fn an_unchanged_state_reports_nothing() {
    let mut prev: u32 = FROM_LEFT_1ST_BUTTON;
    let same = rec(0, 0, FROM_LEFT_1ST_BUTTON, 0, 0);
    assert_eq!(encode_mouse(&same, &mut prev), None);
    assert_eq!(prev, FROM_LEFT_1ST_BUTTON);
}

#[test]
fn other_buttons_are_not_tracked() {
    let mut prev: u32 = 0;
    let side = rec(0, 0, 0x0008, 0, 0);
    assert_eq!(encode_mouse(&side, &mut prev), None);
    assert_eq!(prev & BUTTON_MASK, prev);
}

#[test]
fn every_record_sets_the_buttons() {
    // The wheel, with no button down any more.
    let mut prev: u32 = FROM_LEFT_1ST_BUTTON;
    let up = rec(0, 0, 1u32 << 16, MOUSE_WHEELED, 0);
    assert_eq!(encode_mouse(&up, &mut prev).unwrap(), b"\x1b[<64;1;1M");
    assert_eq!(prev, 0);
    // The wheel, with a button held.
    let down = rec(0, 0, (0xFF88u32 << 16) | RIGHTMOST_BUTTON, MOUSE_WHEELED, 0);
    assert_eq!(encode_mouse(&down, &mut prev).unwrap(), b"\x1b[<65;1;1M");
    assert_eq!(prev, RIGHTMOST_BUTTON);
    // Plain motion.
    let moved = rec(3, 3, 0, MOUSE_MOVED, 0);
    assert_eq!(encode_mouse(&moved, &mut prev), None);
    assert_eq!(prev, 0);
    // A drag.
    let drag = rec(0, 0, FROM_LEFT_2ND_BUTTON, MOUSE_MOVED, 0);
    assert_eq!(encode_mouse(&drag, &mut prev).unwrap(), b"\x1b[<33;1;1M");
    assert_eq!(prev, FROM_LEFT_2ND_BUTTON);
}

#[test]
fn the_lowest_button_bit_is_named() {
    let mut prev: u32 = 0;
    let two = rec(0, 0, RIGHTMOST_BUTTON | FROM_LEFT_2ND_BUTTON, 0, 0);
    assert_eq!(encode_mouse(&two, &mut prev).unwrap(), b"\x1b[<2;1;1M");
    let drag = rec(0, 0, BUTTON_MASK, MOUSE_MOVED, 0);
    assert_eq!(encode_mouse(&drag, &mut prev).unwrap(), b"\x1b[<32;1;1M");
    let left = rec(0, 0, FROM_LEFT_1ST_BUTTON, 0, 0);
    assert_eq!(encode_mouse(&left, &mut prev).unwrap(), b"\x1b[<2;1;1m");
}

#[test]
fn reports_are_no_keys() {
    let mut prev: u32 = 0;
    let press = rec(7, 3, RIGHTMOST_BUTTON, 0, SHIFT_PRESSED);
    let mut bytes = encode_mouse(&press, &mut prev).unwrap();
    bytes.push(b'x');
    let mut d = Decoder::new();
    assert_eq!(d.feed(&bytes), vec![Event::key(Key::Char('x'))]);
    assert!(!d.has_pending());
}
