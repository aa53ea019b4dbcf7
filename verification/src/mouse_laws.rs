//! What mouse reports promise.

use vstd::prelude::*;

use crate::decode::{fed, Pending};
use crate::decode_laws::{
    csi, items_are_independent, lemma_csi_item, lemma_next_field, lemma_one_field,
    lemma_short_decimal,
};
use crate::event::EventView;
use crate::item::{csi_key, fields, is_final, params};
use crate::mouse::{
    button_code, buttons_of, cell, is_button, is_lowest_button, lemma_button_code, modifier_code,
    mouse_action, mouse_report, sgr_bytes, MouseRecord, BUTTON_MASK, FROM_LEFT_1ST_BUTTON,
    FROM_LEFT_2ND_BUTTON, MOUSE_MOVED, MOUSE_WHEELED, RIGHTMOST_BUTTON,
};
use crate::number::{decimal, decimal_reads_back, is_digit};

verus! {

/// The numbers of an SGR sequence, as they stand between `<` and its end.
pub open spec fn sgr_numbers(cb: u32, cx: u32, cy: u32) -> Seq<u8> {
    decimal(cb as nat) + seq![0x3Bu8] + (decimal(cx as nat) + seq![0x3Bu8] + decimal(cy as nat))
}

/// An SGR sequence is a control sequence with `<` and its numbers.
proof fn lemma_sgr_is_csi(cb: u32, cx: u32, cy: u32, press: bool)
    ensures
        sgr_bytes(cb, cx, cy, press) == csi(
            seq![0x3Cu8] + sgr_numbers(cb, cx, cy),
            if press {
                0x4Du8
            } else {
                0x6Du8
            },
        ),
{
    assert(sgr_bytes(cb, cx, cy, press) =~= csi(
        seq![0x3Cu8] + sgr_numbers(cb, cx, cy),
        if press {
            0x4Du8
        } else {
            0x6Du8
        },
    ));
}

/// What a mouse report says can be read back from it: between `<` and the
/// last byte stand the button code and the two coordinates.
pub proof fn mouse_reports_read_back(cb: u16, cx: u16, cy: u16, press: bool)
    ensures
        ({
            let s = sgr_bytes(cb as u32, cx as u32, cy as u32, press);
            &&& params(s.subrange(3, s.len() - 1)) == seq![cb, cx, cy]
            &&& s.last() == (if press {
                0x4Du8
            } else {
                0x6Du8
            })
        }),
{
    let s = sgr_bytes(cb as u32, cx as u32, cy as u32, press);
    let numbers = sgr_numbers(cb as u32, cx as u32, cy as u32);
    let (a, b, c) = (decimal(cb as nat), decimal(cx as nat), decimal(cy as nat));
    lemma_sgr_is_csi(cb as u32, cx as u32, cy as u32, press);
    assert(s.subrange(3, s.len() - 1) =~= numbers);
    decimal_reads_back(cb as nat);
    decimal_reads_back(cx as nat);
    decimal_reads_back(cy as nat);
    lemma_one_field(c);
    lemma_next_field(b, c);
    lemma_next_field(a, b + seq![0x3Bu8] + c);
    assert(fields(numbers) =~= seq![a, b, c]);
    assert(params(numbers) =~= seq![cb, cx, cy]);
}

/// The numbers of a report are digits and `;` throughout.
proof fn lemma_sgr_numbers_not_final(cb: u16, cx: u16, cy: u16)
    ensures
        sgr_numbers(cb as u32, cx as u32, cy as u32).len() <= 17,
        forall|i: int|
            0 <= i < sgr_numbers(cb as u32, cx as u32, cy as u32).len() ==> !is_final(
                #[trigger] sgr_numbers(cb as u32, cx as u32, cy as u32)[i],
            ),
{
    let (a, b, c) = (decimal(cb as nat), decimal(cx as nat), decimal(cy as nat));
    let s = sgr_numbers(cb as u32, cx as u32, cy as u32);
    decimal_reads_back(cb as nat);
    decimal_reads_back(cx as nat);
    decimal_reads_back(cy as nat);
    lemma_short_decimal(cb as nat);
    lemma_short_decimal(cx as nat);
    lemma_short_decimal(cy as nat);
    assert forall|i: int| 0 <= i < s.len() implies !is_final(#[trigger] s[i]) by {
        let tail = b + seq![0x3Bu8] + c;
        if i < a.len() {
            assert(s[i] == a[i]);
            assert(is_digit(a[i]));
        } else if i > a.len() {
            let j = i - a.len() - 1;
            assert(s[i] == tail[j]);
            if j < b.len() {
                assert(tail[j] == b[j]);
                assert(is_digit(b[j]));
            } else if j > b.len() {
                assert(tail[j] == c[j - b.len() - 1]);
                assert(is_digit(c[j - b.len() - 1]));
            }
        }
    }
}

/// A mouse report that reaches the decoder is consumed silently and leaves it
/// in step: what follows decodes as if the report had not been there.
pub proof fn mouse_reports_are_no_keys(rec: MouseRecord, prev: u32, more: Seq<u8>)
    requires
        mouse_report(rec, prev) is Some,
    ensures
        fed(Pending::idle(), mouse_report(rec, prev)->Some_0 + more) == fed(Pending::idle(), more),
{
    let (code, press) = mouse_action(rec, prev)->Some_0;
    let buttons = buttons_of(rec);
    lemma_button_code(buttons);
    lemma_button_code(buttons & !prev);
    lemma_button_code(prev & !buttons);
    let cb = (code + modifier_code(rec.control_key_state)) as u16;
    let cx = cell(rec.position.x) as u16;
    let cy = cell(rec.position.y) as u16;
    let body = seq![0x3Cu8] + sgr_numbers(cb as u32, cx as u32, cy as u32);
    let last: u8 = if press {
        0x4D
    } else {
        0x6D
    };
    lemma_sgr_is_csi(cb as u32, cx as u32, cy as u32, press);
    lemma_sgr_numbers_not_final(cb, cx, cy);
    assert forall|i: int| 0 <= i < body.len() implies !is_final(#[trigger] body[i]) by {
        if i > 0 {
            assert(body[i] == sgr_numbers(cb as u32, cx as u32, cy as u32)[i - 1]);
        }
    }
    lemma_csi_item(body, last);
    items_are_independent(csi(body, last), more, csi_key(body, last));
    let o = fed(Pending::idle(), more);
    assert(o.after(Seq::<EventView>::empty()) =~= o);
}

/// A click is a press and a release of the same button: what goes down is
/// reported with the same code when it comes up again.
pub proof fn release_names_the_button_pressed(down: MouseRecord, up: MouseRecord, prev: u32)
    requires
        down.event_flags & MOUSE_WHEELED == 0,
        down.event_flags & MOUSE_MOVED == 0,
        up.event_flags & MOUSE_WHEELED == 0,
        up.event_flags & MOUSE_MOVED == 0,
        prev & BUTTON_MASK == prev,
        up.button_state & BUTTON_MASK == prev,
        prev & !(down.button_state & BUTTON_MASK) == 0,
        down.button_state & BUTTON_MASK != prev,
    ensures
        mouse_action(down, prev) is Some,
        mouse_action(down, prev)->Some_0.1,
        mouse_action(up, buttons_of(down)) == Some((mouse_action(down, prev)->Some_0.0, false)),
        buttons_of(up) == prev,
{
    let b = down.button_state & BUTTON_MASK;
    let state = down.button_state;
    assert((b & !prev) & 1 != 0 || (b & !prev) & 4 != 0 || (b & !prev) & 2 != 0) by (bit_vector)
        requires
            b == state & 7,
            prev & 7 == prev,
            prev & !b == 0,
            b != prev,
    ;
    lemma_button_code(b & !prev);
    assert(is_button(FROM_LEFT_1ST_BUTTON) && is_button(RIGHTMOST_BUTTON) && is_button(
        FROM_LEFT_2ND_BUTTON,
    ));
    assert(button_code(b & !prev) is Some);
    lemma_no_button();
    assert(button_code(prev & !b) is None);
}

/// Where no bit is set, no button is down.
proof fn lemma_no_button()
    ensures
        button_code(0) is None,
{
    lemma_button_code(0);
    assert(forall|bit: u32| 0u32 & bit == 0) by (bit_vector);
}

/// Two buttons down are told apart by their bits: the right one goes before
/// the middle one, and the left one before both.
pub proof fn lower_buttons_go_first(buttons: u32)
    ensures
        buttons & FROM_LEFT_1ST_BUTTON != 0 ==> button_code(buttons) == Some(0u32),
        buttons & FROM_LEFT_1ST_BUTTON == 0 && buttons & RIGHTMOST_BUTTON != 0 ==> button_code(
            buttons,
        ) == Some(2u32),
        buttons & FROM_LEFT_1ST_BUTTON == 0 && buttons & RIGHTMOST_BUTTON == 0 && buttons
            & FROM_LEFT_2ND_BUTTON != 0 ==> button_code(buttons) == Some(1u32),
{
    lemma_button_code(buttons);
    if buttons & FROM_LEFT_1ST_BUTTON != 0 {
        assert(is_lowest_button(buttons, FROM_LEFT_1ST_BUTTON));
    } else if buttons & RIGHTMOST_BUTTON != 0 {
        assert(is_lowest_button(buttons, RIGHTMOST_BUTTON));
    } else if buttons & FROM_LEFT_2ND_BUTTON != 0 {
        assert(is_lowest_button(buttons, FROM_LEFT_2ND_BUTTON));
    }
}

/// Only the three buttons are ever held to be down.
pub proof fn only_known_buttons_are_down(rec: MouseRecord)
    ensures
        buttons_of(rec) & BUTTON_MASK == buttons_of(rec),
{
    let state = rec.button_state;
    assert((state & 7) & 7 == state & 7) by (bit_vector);
}

/// The wheel is always reported, and as no button whatever the buttons do;
/// plain motion with no button held is dropped.
pub proof fn wheel_is_reported_and_plain_motion_is_not(rec: MouseRecord, prev: u32)
    ensures
        rec.event_flags & MOUSE_WHEELED != 0 ==> (mouse_action(rec, prev) == Some((64u32, true))
            || mouse_action(rec, prev) == Some((65u32, true))),
        rec.event_flags & MOUSE_WHEELED == 0 && rec.event_flags & MOUSE_MOVED != 0
            && rec.button_state & BUTTON_MASK == 0 ==> mouse_report(rec, prev) is None,
{
    lemma_no_button();
}

// ---------------------------------------------------------------------------
// Reports in full

/// The report of `code` at the place and with the modifiers of a record: `ESC`,
/// `[`, `<`, the code with 4 for shift, 8 for either alt and 16 for either ctrl,
/// the column and the row counted from 1 and never below, and `M` or `m`.
pub open spec fn says(rec: MouseRecord, code: int, press: bool) -> Seq<u8> {
    let held = rec.control_key_state;
    let shift = if held & 0x10 != 0 {
        4int
    } else {
        0
    };
    let alt = if held & 0x3 != 0 {
        8int
    } else {
        0
    };
    let ctrl = if held & 0xC != 0 {
        16int
    } else {
        0
    };
    let column = if rec.position.x < 0 {
        1int
    } else {
        rec.position.x + 1
    };
    let row = if rec.position.y < 0 {
        1int
    } else {
        rec.position.y + 1
    };
    seq![0x1B, '[' as u8, '<' as u8] + decimal((code + shift + alt + ctrl) as nat) + seq![
        ';' as u8,
    ] + decimal(column as nat) + seq![';' as u8] + decimal(row as nat) + seq![
        if press {
            'M' as u8
        } else {
            'm' as u8
        },
    ]
}

proof fn lemma_says(rec: MouseRecord, prev: u32, code: u32, press: bool)
    requires
        mouse_action(rec, prev) == Some((code, press)),
        code <= 65,
    ensures
        mouse_report(rec, prev) == Some(says(rec, code as int, press)),
{
    let held = rec.control_key_state;
    assert((held & 0x3 != 0 <==> held & 0x1 != 0 || held & 0x2 != 0) && (held & 0xC != 0 <==> held
        & 0x4 != 0 || held & 0x8 != 0)) by (bit_vector);
    let cb = (code + modifier_code(held)) as u32;
    assert(cb == code + modifier_code(held));
    assert(sgr_bytes(cb, cell(rec.position.x), cell(rec.position.y), press) =~= says(
        rec,
        code as int,
        press,
    ));
}

/// The wheel, whatever else the record says: the high word of the button state
/// is a signed rotation, and it is up, 64, if that is not negative, and down,
/// 65, if it is.
pub proof fn wheel_reports(rec: MouseRecord, prev: u32)
    requires
        rec.event_flags & 0x4 != 0,
    ensures
        ((rec.button_state >> 16) as i16) >= 0 ==> mouse_report(rec, prev) == Some(
            says(rec, 64, true),
        ),
        ((rec.button_state >> 16) as i16) < 0 ==> mouse_report(rec, prev) == Some(
            says(rec, 65, true),
        ),
{
    let state = rec.button_state;
    assert(((state >> 16) as i16) >= 0 <==> state < 0x8000_0000) by (bit_vector);
    lemma_says(rec, prev, mouse_action(rec, prev)->Some_0.0, true);
}

/// Motion with a button held is a drag, with 32 added to the code of the least
/// button bit: 0 for left, bit 1; 2 for right, bit 2; 1 for middle, bit 4.
/// Without a button it is nothing.
pub proof fn motion_reports(rec: MouseRecord, prev: u32)
    requires
        rec.event_flags & 0x4 == 0,
        rec.event_flags & 0x1 != 0,
    ensures
        ({
            let b = rec.button_state;
            let report = mouse_report(rec, prev);
            &&& b & 1 != 0 ==> report == Some(says(rec, 32, true))
            &&& b & 1 == 0 && b & 2 != 0 ==> report == Some(says(rec, 34, true))
            &&& b & 1 == 0 && b & 2 == 0 && b & 4 != 0 ==> report == Some(says(rec, 33, true))
            &&& b & 1 == 0 && b & 2 == 0 && b & 4 == 0 ==> report is None
        }),
{
    let b = rec.button_state;
    let buttons = b & BUTTON_MASK;
    lemma_masked(b);
    lower_buttons_go_first(buttons);
    lemma_button_code(buttons);
    if mouse_action(rec, prev) is Some {
        lemma_says(rec, prev, mouse_action(rec, prev)->Some_0.0, true);
    }
}

proof fn lemma_masked(b: u32)
    by (bit_vector)
    ensures
        (b & 7) & 1 == b & 1,
        (b & 7) & 2 == b & 2,
        (b & 7) & 4 == b & 4,
{
}

/// A bit of `b` that is not in `prev`, and one of `prev` that is not in `b`.
proof fn lemma_changed(b: u32, prev: u32, bit: u32)
    by (bit_vector)
    requires
        bit == 1 || bit == 2 || bit == 4,
    ensures
        ((b & 7) & !prev) & bit != 0 <==> b & bit != 0 && prev & bit == 0,
        (prev & !(b & 7)) & bit != 0 <==> b & bit == 0 && prev & bit != 0,
{
}

/// `bit` went down between `prev` and the record.
pub open spec fn went_down(rec: MouseRecord, prev: u32, bit: u32) -> bool {
    rec.button_state & bit != 0 && prev & bit == 0
}

/// `bit` came up between `prev` and the record.
pub open spec fn came_up(rec: MouseRecord, prev: u32, bit: u32) -> bool {
    rec.button_state & bit == 0 && prev & bit != 0
}

/// Where neither the wheel nor the mouse moved, a button that went down is a
/// press, and if none did, one that came up is a release; of several the least
/// button bit is named. Where no button changed there is nothing to report.
pub proof fn button_reports(rec: MouseRecord, prev: u32)
    requires
        rec.event_flags & 0x4 == 0,
        rec.event_flags & 0x1 == 0,
    ensures
        ({
            let report = mouse_report(rec, prev);
            let down = went_down(rec, prev, 1) || went_down(rec, prev, 2) || went_down(
                rec,
                prev,
                4,
            );
            &&& went_down(rec, prev, 1) ==> report == Some(says(rec, 0, true))
            &&& !went_down(rec, prev, 1) && went_down(rec, prev, 2) ==> report == Some(
                says(rec, 2, true),
            )
            &&& !went_down(rec, prev, 1) && !went_down(rec, prev, 2) && went_down(rec, prev, 4)
                ==> report == Some(says(rec, 1, true))
            &&& !down && came_up(rec, prev, 1) ==> report == Some(says(rec, 0, false))
            &&& !down && !came_up(rec, prev, 1) && came_up(rec, prev, 2) ==> report == Some(
                says(rec, 2, false),
            )
            &&& !down && !came_up(rec, prev, 1) && !came_up(rec, prev, 2) && came_up(rec, prev, 4)
                ==> report == Some(says(rec, 1, false))
            &&& !down && !came_up(rec, prev, 1) && !came_up(rec, prev, 2) && !came_up(
                rec,
                prev,
                4,
            ) ==> report is None
        }),
{
    let b = rec.button_state;
    let buttons = b & BUTTON_MASK;
    lemma_changed(b, prev, 1);
    lemma_changed(b, prev, 2);
    lemma_changed(b, prev, 4);
    lower_buttons_go_first(buttons & !prev);
    lower_buttons_go_first(prev & !buttons);
    lemma_button_code(buttons & !prev);
    lemma_button_code(prev & !buttons);
    if mouse_action(rec, prev) is Some {
        let (code, press) = mouse_action(rec, prev)->Some_0;
        lemma_says(rec, prev, code, press);
    }
}

/// After any record the buttons that count as down are those of the record:
/// bits 1, 2 and 4 of its button state and no others.
pub proof fn records_set_the_buttons(rec: MouseRecord, bit: u32)
    ensures
        bit == 1 || bit == 2 || bit == 4 ==> buttons_of(rec) & bit == rec.button_state & bit,
        buttons_of(rec) <= 7,
{
    let b = rec.button_state;
    lemma_masked(b);
    assert(b & 7 <= 7) by (bit_vector);
}

} // verus!
