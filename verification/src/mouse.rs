//! Translate a Windows console mouse record into an SGR mouse escape sequence
//! (`ESC [ < Cb ; Cx ; Cy` then `M` for press / `m` for release).
//!
//! ## What it covers
//! - Left / middle / right button **press** and **release**, derived from the
//!   transition in the button state against the previous state.
//! - **Drag** (motion with a button held): the button's code + 32, reported
//!   as a press (`M`).
//! - **Wheel** up / down, from the sign of the high word of the button state.
//! - Modifier folding (shift/alt/ctrl).
//!
//! ## What it omits
//! - Plain motion with **no** button held is dropped.
//! - Horizontal wheel and X1/X2 buttons are not encoded.
//! - Only single-button transitions are tracked; a truly simultaneous
//!   multi-button change reports one button per record as state settles.

use vstd::prelude::*;

use crate::item::ESC;
use crate::number::{decimal, write_decimal};

verus! {

/// A mouse record of the console.
#[derive(Clone, Copy)]
pub struct MouseRecord {
    /// 0-based cell column `x`, row `y`.
    pub position: Coord,
    /// The low word is the button bitmask; for a wheel event the high word is
    /// a signed rotation amount.
    pub button_state: u32,
    /// Keyboard modifier flags active at the event.
    pub control_key_state: u32,
    /// What happened: [`MOUSE_MOVED`], [`MOUSE_WHEELED`] and others.
    pub event_flags: u32,
}

/// Two 16-bit signed cell coordinates (0-based).
#[derive(Clone, Copy)]
pub struct Coord {
    pub x: i16,
    pub y: i16,
}

/// Event flag: the mouse moved.
pub const MOUSE_MOVED: u32 = 0x0001;

/// Event flag: the wheel turned.
pub const MOUSE_WHEELED: u32 = 0x0004;

/// Button bit: left.
pub const FROM_LEFT_1ST_BUTTON: u32 = 0x0001;

/// Button bit: right.
pub const RIGHTMOST_BUTTON: u32 = 0x0002;

/// Button bit: middle.
pub const FROM_LEFT_2ND_BUTTON: u32 = 0x0004;

/// The button bits that are tracked: left, right and middle.
pub const BUTTON_MASK: u32 = 0x0007;

/// Modifier bit: the right alt key.
pub const RIGHT_ALT_PRESSED: u32 = 0x0001;

/// Modifier bit: the left alt key.
pub const LEFT_ALT_PRESSED: u32 = 0x0002;

/// Modifier bit: the right ctrl key.
pub const RIGHT_CTRL_PRESSED: u32 = 0x0004;

/// Modifier bit: the left ctrl key.
pub const LEFT_CTRL_PRESSED: u32 = 0x0008;

/// Modifier bit: a shift key.
pub const SHIFT_PRESSED: u32 = 0x0010;

/// What shift adds to an SGR button code.
pub const SGR_SHIFT: u32 = 4;

/// What alt adds to an SGR button code.
pub const SGR_ALT: u32 = 8;

/// What ctrl adds to an SGR button code.
pub const SGR_CTRL: u32 = 16;

/// One of the three button bits that are tracked.
pub open spec fn is_button(bit: u32) -> bool {
    bit == FROM_LEFT_1ST_BUTTON || bit == RIGHTMOST_BUTTON || bit == FROM_LEFT_2ND_BUTTON
}

/// The SGR base code of a button: 0 for left, 1 for middle, 2 for right.
pub open spec fn bit_code(bit: u32) -> u32 {
    if bit == FROM_LEFT_1ST_BUTTON {
        0
    } else if bit == FROM_LEFT_2ND_BUTTON {
        1
    } else {
        2
    }
}

/// `bit` is the least button bit that is set in `buttons`.
pub open spec fn is_lowest_button(buttons: u32, bit: u32) -> bool {
    &&& is_button(bit)
    &&& buttons & bit != 0
    &&& forall|lower: u32| #[trigger] is_button(lower) && lower < bit ==> buttons & lower == 0
}

/// The SGR base code of the least button bit that is set in `buttons`, if one
/// is.
pub open spec fn button_code(buttons: u32) -> Option<u32> {
    if exists|bit: u32| is_lowest_button(buttons, bit) {
        Some(bit_code(choose|bit: u32| is_lowest_button(buttons, bit)))
    } else {
        None
    }
}

/// There is only one least button bit, and there is none only where no button
/// bit is set.
pub proof fn lemma_button_code(buttons: u32)
    ensures
        forall|bit: u32| #[trigger]
            is_lowest_button(buttons, bit) ==> button_code(buttons) == Some(bit_code(bit)),
        button_code(buttons) is None <==> (forall|bit: u32| #[trigger]
            is_button(bit) ==> buttons & bit == 0),
        button_code(buttons) matches Some(code) ==> code <= 2,
{
    assert forall|bit: u32| #[trigger] is_lowest_button(buttons, bit) implies button_code(buttons)
        == Some(bit_code(bit)) by {
        let chosen = choose|b: u32| is_lowest_button(buttons, b);
        assert(is_lowest_button(buttons, chosen));
        assert(is_button(bit) && is_button(chosen));
    }
    let (left, right, middle) = (FROM_LEFT_1ST_BUTTON, RIGHTMOST_BUTTON, FROM_LEFT_2ND_BUTTON);
    assert(is_button(left) && is_button(right) && is_button(middle));
    if buttons & left != 0 {
        assert(is_lowest_button(buttons, left));
    } else if buttons & right != 0 {
        assert(is_lowest_button(buttons, right));
    } else if buttons & middle != 0 {
        assert(is_lowest_button(buttons, middle));
    }
}

/// What the modifiers held add to an SGR button code.
pub open spec fn modifier_code(state: u32) -> u32 {
    let shift: u32 = if state & SHIFT_PRESSED != 0 {
        SGR_SHIFT
    } else {
        0
    };
    let alt: u32 = if state & LEFT_ALT_PRESSED != 0 || state & RIGHT_ALT_PRESSED != 0 {
        SGR_ALT
    } else {
        0
    };
    let ctrl: u32 = if state & LEFT_CTRL_PRESSED != 0 || state & RIGHT_CTRL_PRESSED != 0 {
        SGR_CTRL
    } else {
        0
    };
    (shift + alt + ctrl) as u32
}

/// A 0-based coordinate, counted from 1 and never below it.
pub open spec fn cell(c: i16) -> u32 {
    if c < 0 {
        1
    } else {
        (c + 1) as u32
    }
}

/// The bytes `ESC [ < cb ; cx ; cy` and then `M` for a press or `m` for a
/// release.
pub open spec fn sgr_bytes(cb: u32, cx: u32, cy: u32, press: bool) -> Seq<u8> {
    seq![ESC, 0x5Bu8, 0x3Cu8] + decimal(cb as nat) + seq![0x3Bu8] + decimal(cx as nat) + seq![
        0x3Bu8,
    ] + decimal(cy as nat) + seq![
        if press {
            0x4Du8
        } else {
            0x6Du8
        },
    ]
}

/// What a record means, given the buttons that were down before: the SGR
/// button code without modifiers, and whether it counts as a press. Nothing
/// where there is nothing to report.
pub open spec fn mouse_action(rec: MouseRecord, prev: u32) -> Option<(u32, bool)> {
    let buttons = rec.button_state & BUTTON_MASK;
    if rec.event_flags & MOUSE_WHEELED != 0 {
        // The high word is a signed rotation: positive = up.
        if rec.button_state < 0x8000_0000 {
            Some((64, true))
        } else {
            Some((65, true))
        }
    } else if rec.event_flags & MOUSE_MOVED != 0 {
        match button_code(buttons) {
            Some(code) => Some(((code + 32) as u32, true)),
            None => None,
        }
    } else {
        match button_code(buttons & !prev) {
            Some(code) => Some((code, true)),
            None => match button_code(prev & !buttons) {
                Some(code) => Some((code, false)),
                None => None,
            },
        }
    }
}

/// The bytes that report a record, given the buttons that were down before.
pub open spec fn mouse_report(rec: MouseRecord, prev: u32) -> Option<Seq<u8>> {
    match mouse_action(rec, prev) {
        Some((code, press)) => Some(
            sgr_bytes(
                (code + modifier_code(rec.control_key_state)) as u32,
                cell(rec.position.x),
                cell(rec.position.y),
                press,
            ),
        ),
        None => None,
    }
}

/// The buttons that are down as of a record.
pub open spec fn buttons_of(rec: MouseRecord) -> u32 {
    rec.button_state & BUTTON_MASK
}

/// Encode one mouse record as an SGR sequence, updating `prev_buttons` to this
/// record's button state. Returns `None` for events we do not surface (plain
/// motion with no button held).
///
/// `prev_buttons` is the caller-held low-word button bitmask from the previous
/// mouse record; comparing it to this record's mask is how a press is told
/// apart from a release (a click is a state *transition*).
pub fn encode_mouse(rec: &MouseRecord, prev_buttons: &mut u32) -> (bytes: Option<Vec<u8>>)
    ensures
        bytes is Some <==> mouse_report(*rec, *old(prev_buttons)) is Some,
        bytes matches Some(seq) ==> Some(seq@) == mouse_report(*rec, *old(prev_buttons)),
        *final(prev_buttons) == buttons_of(*rec),
{
    let buttons: u32 = rec.button_state & BUTTON_MASK;
    let prev: u32 = *prev_buttons;
    *prev_buttons = buttons;
    let mods: u32 = sgr_mods(rec.control_key_state);

    // 1-based cell coordinates (SGR is 1-based; the console's are 0-based).
    let cx: u32 = one_based(rec.position.x);
    let cy: u32 = one_based(rec.position.y);

    // Wheel: independent of button-state transitions.
    if rec.event_flags & MOUSE_WHEELED != 0 {
        let state: u32 = rec.button_state;
        let delta: i16 = #[verifier::truncate] ((state >> 16) as i16);
        assert(((state >> 16) as i16) >= 0 <==> state < 0x8000_0000) by (bit_vector);
        let cb: u32 = if delta >= 0 {
            64
        } else {
            65
        };
        return Some(sgr(cb + mods, cx, cy, true));
    }
    if rec.event_flags & MOUSE_MOVED != 0 {
        // Drag: motion with a button held → button code + 32, press-style.
        // Plain motion with no button is not surfaced.
        return match lowest_button_code(buttons) {
            Some(btn) => Some(sgr(btn + 32 + mods, cx, cy, true)),
            None => None,
        };
    }
    // A press adds bits, a release clears them. Encode the changed button.
    let pressed: u32 = buttons & !prev;
    let released: u32 = prev & !buttons;
    match lowest_button_code(pressed) {
        Some(btn) => Some(sgr(btn + mods, cx, cy, true)),
        None => match lowest_button_code(released) {
            Some(btn) => Some(sgr(btn + mods, cx, cy, false)),
            None => None,
        },
    }
}

/// The coordinate counted from 1.
fn one_based(c: i16) -> (n: u32)
    ensures
        n == cell(c),
        1 <= n <= 0x8000,
{
    if c < 0 {
        1
    } else {
        c as u32 + 1
    }
}

/// SGR base button code for the lowest set button bit, or `None` if no button.
fn lowest_button_code(buttons: u32) -> (code: Option<u32>)
    ensures
        code == button_code(buttons),
        code matches Some(c) ==> c <= 2,
{
    proof {
        lemma_button_code(buttons);
        assert(is_button(FROM_LEFT_1ST_BUTTON) && is_button(RIGHTMOST_BUTTON) && is_button(
            FROM_LEFT_2ND_BUTTON,
        ));
    }
    if buttons & FROM_LEFT_1ST_BUTTON != 0 {
        assert(is_lowest_button(buttons, FROM_LEFT_1ST_BUTTON));
        Some(0)  // left
    } else if buttons & RIGHTMOST_BUTTON != 0 {
        assert(is_lowest_button(buttons, RIGHTMOST_BUTTON));
        Some(2)  // right
    } else if buttons & FROM_LEFT_2ND_BUTTON != 0 {
        assert(is_lowest_button(buttons, FROM_LEFT_2ND_BUTTON));
        Some(1)  // middle
    } else {
        None
    }
}

/// What the modifiers held add to an SGR button code.
fn sgr_mods(control_key_state: u32) -> (m: u32)
    ensures
        m == modifier_code(control_key_state),
        m <= 28,
{
    let s: u32 = control_key_state;
    let mut m: u32 = 0;
    if s & SHIFT_PRESSED != 0 {
        m = m + SGR_SHIFT;
    }
    if s & LEFT_ALT_PRESSED != 0 || s & RIGHT_ALT_PRESSED != 0 {
        m = m + SGR_ALT;
    }
    if s & LEFT_CTRL_PRESSED != 0 || s & RIGHT_CTRL_PRESSED != 0 {
        m = m + SGR_CTRL;
    }
    m
}

/// Build `ESC [ < Cb ; Cx ; Cy (M|m)` as ASCII bytes.
fn sgr(cb: u32, cx: u32, cy: u32, press: bool) -> (bytes: Vec<u8>)
    ensures
        bytes@ == sgr_bytes(cb, cx, cy, press),
{
    let mut out: Vec<u8> = Vec::new();
    out.push(ESC);
    out.push(0x5B);
    out.push(0x3C);
    write_decimal(cb, &mut out);
    out.push(0x3B);
    write_decimal(cx, &mut out);
    out.push(0x3B);
    write_decimal(cy, &mut out);
    out.push(
        if press {
            0x4D
        } else {
            0x6D
        },
    );
    assert(out@ =~= sgr_bytes(cb, cx, cy, press));
    out
}

} // verus!
