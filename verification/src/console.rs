//! The Windows console: which modes raw input takes, how large the window is,
//! and how the records the console hands out become one stream of bytes.
//!
//! Key records become the UTF-8 of their characters and mouse records become
//! SGR mouse escape sequences, interleaved in stream order, so that clicks
//! travel the same way as keystrokes.

use vstd::prelude::*;

use crate::mouse::{buttons_of, encode_mouse, mouse_report, MouseRecord};
use crate::utf16::{
    batch_bytes, batch_pending, batches_do_not_matter, flush_units, is_high, ready_units, rejoined,
};

verus! {

// ---------------------------------------------------------------------------
// Modes

/// Input mode bit: ctrl+C and its like are handled by the system.
pub const ENABLE_PROCESSED_INPUT: u32 = 0x0001;

/// Input mode bit: input is handed out line by line.
pub const ENABLE_LINE_INPUT: u32 = 0x0002;

/// Input mode bit: what is typed is echoed.
pub const ENABLE_ECHO_INPUT: u32 = 0x0004;

/// Input mode bit: mouse events are reported.
pub const ENABLE_MOUSE_INPUT: u32 = 0x0010;

/// Input mode bit: the mouse selects text.
pub const ENABLE_QUICK_EDIT_MODE: u32 = 0x0040;

/// Input mode bit: the quick-edit bit is to be honored.
pub const ENABLE_EXTENDED_FLAGS: u32 = 0x0080;

/// Input mode bit: keys arrive as VT sequences.
pub const ENABLE_VIRTUAL_TERMINAL_INPUT: u32 = 0x0200;

/// Output mode bit: control characters are acted upon.
pub const ENABLE_PROCESSED_OUTPUT: u32 = 0x0001;

/// Output mode bit: VT sequences are acted upon.
pub const ENABLE_VIRTUAL_TERMINAL_PROCESSING: u32 = 0x0004;

/// The input mode of a raw console that was in mode `saved`: no echo, no
/// lines, no processing, keys as VT sequences. Either the mouse is captured or
/// it selects text.
pub open spec fn input_mode(saved: u32, mouse: bool) -> u32 {
    let raw = (saved & !(ENABLE_ECHO_INPUT | ENABLE_LINE_INPUT | ENABLE_PROCESSED_INPUT))
        | ENABLE_VIRTUAL_TERMINAL_INPUT | ENABLE_EXTENDED_FLAGS;
    if mouse {
        (raw & !ENABLE_QUICK_EDIT_MODE) | ENABLE_MOUSE_INPUT
    } else {
        (raw & !ENABLE_MOUSE_INPUT) | ENABLE_QUICK_EDIT_MODE
    }
}

/// The output mode of a raw console that was in mode `saved`.
pub open spec fn output_mode(saved: u32) -> u32 {
    saved | ENABLE_PROCESSED_OUTPUT | ENABLE_VIRTUAL_TERMINAL_PROCESSING
}

/// The input mode to set for raw input, with or without the mouse captured.
pub fn raw_input_mode(saved: u32, mouse: bool) -> (mode: u32)
    ensures
        mode == input_mode(saved, mouse),
{
    let raw: u32 = (saved & !(ENABLE_ECHO_INPUT | ENABLE_LINE_INPUT | ENABLE_PROCESSED_INPUT))
        | ENABLE_VIRTUAL_TERMINAL_INPUT | ENABLE_EXTENDED_FLAGS;
    if mouse {
        (raw & !ENABLE_QUICK_EDIT_MODE) | ENABLE_MOUSE_INPUT
    } else {
        (raw & !ENABLE_MOUSE_INPUT) | ENABLE_QUICK_EDIT_MODE
    }
}

/// The output mode to set so that ANSI output renders.
pub fn raw_output_mode(saved: u32) -> (mode: u32)
    ensures
        mode == output_mode(saved),
{
    saved | ENABLE_PROCESSED_OUTPUT | ENABLE_VIRTUAL_TERMINAL_PROCESSING
}

/// In raw mode nothing is echoed, collected into lines or processed, and the
/// mouse is captured or selects text, never both.
pub proof fn raw_input_is_raw(saved: u32, mouse: bool)
    ensures
        input_mode(saved, mouse) & ENABLE_ECHO_INPUT == 0,
        input_mode(saved, mouse) & ENABLE_LINE_INPUT == 0,
        input_mode(saved, mouse) & ENABLE_PROCESSED_INPUT == 0,
        input_mode(saved, mouse) & ENABLE_VIRTUAL_TERMINAL_INPUT != 0,
        mouse <==> input_mode(saved, mouse) & ENABLE_MOUSE_INPUT != 0,
        mouse <==> input_mode(saved, mouse) & ENABLE_QUICK_EDIT_MODE == 0,
        input_mode(saved, mouse) & ENABLE_EXTENDED_FLAGS != 0,
{
    let on = (((saved & !(0x4u32 | 0x2u32 | 0x1u32)) | 0x200u32 | 0x80u32) & !0x40u32) | 0x10u32;
    let off = (((saved & !(0x4u32 | 0x2u32 | 0x1u32)) | 0x200u32 | 0x80u32) & !0x10u32) | 0x40u32;
    assert(on & 4 == 0 && on & 2 == 0 && on & 1 == 0 && on & 0x200 != 0 && on & 0x10 != 0 && on
        & 0x40 == 0 && on & 0x80 != 0) by (bit_vector)
        requires
            on == (((saved & !(0x4u32 | 0x2u32 | 0x1u32)) | 0x200u32 | 0x80u32) & !0x40u32)
                | 0x10u32,
    ;
    assert(off & 4 == 0 && off & 2 == 0 && off & 1 == 0 && off & 0x200 != 0 && off & 0x10 == 0
        && off & 0x40 != 0 && off & 0x80 != 0) by (bit_vector)
        requires
            off == (((saved & !(0x4u32 | 0x2u32 | 0x1u32)) | 0x200u32 | 0x80u32) & !0x10u32)
                | 0x40u32,
    ;
}

/// Raw mode changes no other bit of the input mode.
pub proof fn raw_input_changes_nothing_else(saved: u32, mouse: bool)
    ensures
        input_mode(saved, mouse) & !0x2D7u32 == saved & !0x2D7u32,
{
    assert(((((saved & !(0x4u32 | 0x2u32 | 0x1u32)) | 0x200u32 | 0x80u32) & !0x40u32) | 0x10u32)
        & !0x2D7u32 == saved & !0x2D7u32) by (bit_vector);
    assert(((((saved & !(0x4u32 | 0x2u32 | 0x1u32)) | 0x200u32 | 0x80u32) & !0x10u32) | 0x40u32)
        & !0x2D7u32 == saved & !0x2D7u32) by (bit_vector);
}

/// In raw mode output is processed and VT sequences are acted upon, whatever
/// the mode was, and no other bit is changed.
pub proof fn raw_output_renders(saved: u32)
    ensures
        output_mode(saved) & 0x1 == 0x1,
        output_mode(saved) & 0x4 == 0x4,
        output_mode(saved) & !0x5u32 == saved & !0x5u32,
{
    let mode = saved | 0x1u32 | 0x4u32;
    assert(mode & 0x1 == 0x1 && mode & 0x4 == 0x4 && mode & !0x5u32 == saved & !0x5u32)
        by (bit_vector)
        requires
            mode == saved | 0x1u32 | 0x4u32,
    ;
}

/// Toggling mouse capture is idempotent and leaves no trace of what was set
/// before: only the last setting counts.
pub proof fn last_mouse_setting_counts(saved: u32, before: bool, now: bool)
    ensures
        input_mode(input_mode(saved, before), now) == input_mode(saved, now),
{
    let s = saved;
    assert(({
        let r = (s & !(0x4u32 | 0x2u32 | 0x1u32)) | 0x200u32 | 0x80u32;
        let on = (r & !0x40u32) | 0x10u32;
        let off = (r & !0x10u32) | 0x40u32;
        let r_on = (on & !(0x4u32 | 0x2u32 | 0x1u32)) | 0x200u32 | 0x80u32;
        let r_off = (off & !(0x4u32 | 0x2u32 | 0x1u32)) | 0x200u32 | 0x80u32;
        &&& (r_on & !0x40u32) | 0x10u32 == on
        &&& (r_off & !0x40u32) | 0x10u32 == on
        &&& (r_on & !0x10u32) | 0x40u32 == off
        &&& (r_off & !0x10u32) | 0x40u32 == off
    })) by (bit_vector);
}

// ---------------------------------------------------------------------------
// Size and timeouts

/// A rectangle of cells, its edges included.
#[derive(Clone, Copy)]
pub struct SmallRect {
    pub left: i16,
    pub top: i16,
    pub right: i16,
    pub bottom: i16,
}

/// How many cells lie from `first` to `last`, both included.
pub open spec fn extent(first: i16, last: i16) -> int {
    if last < first {
        0
    } else {
        last - first + 1
    }
}

/// Both edges count: one cell from an edge to itself, one more for each step
/// that the far edge is away, and none where the edges have crossed.
pub proof fn edges_are_counted(first: i16, last: i16)
    ensures
        extent(first, first) == 1,
        first <= last < i16::MAX ==> extent(first, (last + 1) as i16) == extent(first, last) + 1,
        last < first ==> extent(first, last) == 0,
        first <= last ==> extent(first, last) > 0 && first + extent(first, last) - 1 == last,
{
}

/// The size of the window as `(rows, cols)`.
pub fn window_size(window: &SmallRect) -> (size: (u16, u16))
    requires
        i16::MIN <= window.bottom - window.top < i16::MAX,
        i16::MIN <= window.right - window.left < i16::MAX,
    ensures
        size.0 == extent(window.top, window.bottom),
        size.1 == extent(window.left, window.right),
{
    let rows: i16 = window.bottom - window.top + 1;
    let cols: i16 = window.right - window.left + 1;
    (
        if rows < 0 {
            0
        } else {
            rows as u16
        },
        if cols < 0 {
            0
        } else {
            cols as u16
        },
    )
}

/// A timeout in milliseconds, as much of it as the wait can take.
pub fn wait_millis(millis: u128) -> (wait: u32)
    ensures
        wait as int == (if millis > u32::MAX {
            u32::MAX as int
        } else {
            millis as int
        }),
{
    if millis > u32::MAX as u128 {
        u32::MAX
    } else {
        millis as u32
    }
}

// ---------------------------------------------------------------------------
// Input records

/// How many records are read at a time.
pub const MAX_RECORDS: u32 = 128;

/// How many of `pending` records to read next.
pub fn records_to_read(pending: u32) -> (n: u32)
    ensures
        n as int == (if pending < MAX_RECORDS {
            pending as int
        } else {
            MAX_RECORDS as int
        }),
{
    if pending < MAX_RECORDS {
        pending
    } else {
        MAX_RECORDS
    }
}

/// What is read of a key record.
#[derive(Clone, Copy)]
pub struct KeyRecord {
    /// Nonzero if the key went down.
    pub key_down: i32,
    /// How often the key is held to have been pressed.
    pub repeat_count: u16,
    /// The UTF-16 unit the key stands for, 0 if none.
    pub unicode_char: u16,
}

/// A record of console input.
#[derive(Clone, Copy)]
pub enum InputRecord {
    /// A key went down or up.
    Key(KeyRecord),
    /// Something happened to the mouse.
    Mouse(MouseRecord),
    /// A focus, menu or buffer-size record, which is consumed and ignored.
    Other,
}

/// What the translation of records carries from one to the next.
pub struct Carried {
    /// A high surrogate held until its low half arrives.
    pub surrogate: Option<u16>,
    /// The mouse buttons that were down last.
    pub buttons: u32,
}

impl Carried {
    /// Only a high surrogate is ever held.
    pub open spec fn valid(self) -> bool {
        self.surrogate is Some ==> is_high(self.surrogate->Some_0)
    }
}

/// The UTF-16 units a key record stands for: its character, as often as the
/// key repeats, if the key went down and has one.
pub open spec fn key_units(key: KeyRecord) -> Seq<u16> {
    if key.key_down != 0 && key.unicode_char != 0 {
        repeated(
            key.unicode_char,
            if key.repeat_count == 0 {
                1
            } else {
                key.repeat_count as nat
            },
        )
    } else {
        Seq::empty()
    }
}

/// `unit`, `n` times.
pub open spec fn repeated(unit: u16, n: nat) -> Seq<u16> {
    Seq::new(n, |i: int| unit)
}

/// The bytes that one record adds to the stream.
pub open spec fn record_bytes(c: Carried, rec: InputRecord) -> Seq<u8> {
    match rec {
        InputRecord::Key(key) => batch_bytes(c.surrogate, key_units(key)),
        InputRecord::Mouse(mouse) => match mouse_report(mouse, c.buttons) {
            Some(bytes) => bytes,
            None => Seq::empty(),
        },
        InputRecord::Other => Seq::empty(),
    }
}

/// What is carried on after one record.
pub open spec fn carried_after(c: Carried, rec: InputRecord) -> Carried {
    match rec {
        InputRecord::Key(key) => Carried {
            surrogate: batch_pending(c.surrogate, key_units(key)),
            buttons: c.buttons,
        },
        InputRecord::Mouse(mouse) => Carried {
            surrogate: c.surrogate,
            buttons: buttons_of(mouse),
        },
        InputRecord::Other => c,
    }
}

/// What is carried on after `records`.
pub open spec fn carried_after_all(c: Carried, records: Seq<InputRecord>) -> Carried
    decreases records.len(),
{
    if records.len() == 0 {
        c
    } else {
        carried_after(carried_after_all(c, records.drop_last()), records.last())
    }
}

/// The bytes that `records` add to the stream, one after the other.
pub open spec fn stream_bytes(c: Carried, records: Seq<InputRecord>) -> Seq<u8>
    decreases records.len(),
{
    if records.len() == 0 {
        Seq::empty()
    } else {
        stream_bytes(c, records.drop_last()) + record_bytes(
            carried_after_all(c, records.drop_last()),
            records.last(),
        )
    }
}

/// Nothing comes of an empty batch, and what was held stays held.
pub proof fn lemma_empty_batch(surrogate: Option<u16>)
    requires
        surrogate is Some ==> is_high(surrogate->Some_0),
    ensures
        batch_bytes(surrogate, Seq::empty()) == Seq::<u8>::empty(),
        batch_pending(surrogate, Seq::empty()) == surrogate,
{
    let all = rejoined(surrogate, Seq::empty());
    assert(ready_units(all) =~= Seq::<u16>::empty());
}

/// Whatever is held after a batch is a high surrogate.
proof fn lemma_batch_holds_high(surrogate: Option<u16>, units: Seq<u16>)
    ensures
        batch_pending(surrogate, units) is Some ==> is_high(
            batch_pending(surrogate, units)->Some_0,
        ),
{
}

/// Translates console input records into bytes. Create one per console.
#[derive(Debug)]
pub struct ConsoleInput {
    pending_surrogate: Option<u16>,
    prev_buttons: u32,
}

impl View for ConsoleInput {
    type V = Carried;

    closed spec fn view(&self) -> Carried {
        Carried { surrogate: self.pending_surrogate, buttons: self.prev_buttons }
    }
}

impl ConsoleInput {
    /// A console that has reported nothing yet.
    pub fn new() -> (console: ConsoleInput)
        ensures
            console@ == (Carried { surrogate: None, buttons: 0 }),
            console@.valid(),
    {
        ConsoleInput { pending_surrogate: None, prev_buttons: 0 }
    }

    /// The bytes that `records` add to the stream, in order.
    pub fn translate(&mut self, records: &[InputRecord]) -> (out: Vec<u8>)
        requires
            old(self)@.valid(),
        ensures
            out@ == stream_bytes(old(self)@, records@),
            final(self)@ == carried_after_all(old(self)@, records@),
            final(self)@.valid(),
    {
        let mut out: Vec<u8> = Vec::new();
        // UTF-16 units from key records, buffered so surrogate pairs stay
        // whole across records; flushed to `out` (as UTF-8) in stream order
        // whenever a mouse record has to be emitted between keystrokes.
        let mut units: Vec<u16> = Vec::new();
        let ghost start = self@;
        let mut i: usize = 0;
        proof {
            lemma_empty_batch(start.surrogate);
            assert(records@.take(0) =~= Seq::<InputRecord>::empty());
            assert(out@ + batch_bytes(start.surrogate, units@) =~= Seq::<u8>::empty());
        }
        while i < records.len()
            invariant
                i <= records.len(),
                start == old(self)@,
                self@.valid(),
                stream_bytes(start, records@.take(i as int)) == out@ + batch_bytes(
                    self@.surrogate,
                    units@,
                ),
                carried_after_all(start, records@.take(i as int)) == (Carried {
                    surrogate: batch_pending(self@.surrogate, units@),
                    buttons: self@.buttons,
                }),
            decreases records.len() - i,
        {
            let ghost done = records@.take(i as int);
            let ghost next = records@.take(i + 1);
            let ghost held = self@.surrogate;
            let ghost before = units@;
            assert(next.drop_last() =~= done);
            assert(next.last() == records@[i as int]);
            match records[i] {
                InputRecord::Key(key) => {
                    if key.key_down != 0 && key.unicode_char != 0 {
                        push_repeated(&mut units, key.unicode_char, key.repeat_count);
                    }
                    proof {
                        assert(units@ =~= before + key_units(key));
                        batches_do_not_matter(held, before, key_units(key));
                        assert(stream_bytes(start, next) =~= out@ + batch_bytes(held, units@));
                    }
                },
                InputRecord::Mouse(mouse) => {
                    let report = encode_mouse(&mouse, &mut self.prev_buttons);
                    match report {
                        Some(seq) => {
                            flush_units(&mut units, &mut out, &mut self.pending_surrogate);
                            let mut seq = seq;
                            out.append(&mut seq);
                            proof {
                                lemma_batch_holds_high(held, before);
                                lemma_empty_batch(self@.surrogate);
                                assert(stream_bytes(start, next) =~= out@ + batch_bytes(
                                    self@.surrogate,
                                    units@,
                                ));
                            }
                        },
                        None => {
                            proof {
                                assert(stream_bytes(start, next) =~= out@ + batch_bytes(
                                    self@.surrogate,
                                    units@,
                                ));
                            }
                        },
                    }
                },
                InputRecord::Other => {
                    proof {
                        assert(stream_bytes(start, next) =~= out@ + batch_bytes(
                            self@.surrogate,
                            units@,
                        ));
                    }
                },
            }
            i = i + 1;
        }
        assert(records@.take(i as int) =~= records@);
        proof {
            lemma_batch_holds_high(self@.surrogate, units@);
        }
        flush_units(&mut units, &mut out, &mut self.pending_surrogate);
        out
    }
}

/// Appends `unit` as often as `count` says, and at least once.
fn push_repeated(units: &mut Vec<u16>, unit: u16, count: u16)
    ensures
        final(units)@ == old(units)@ + repeated(
            unit,
            if count == 0 {
                1
            } else {
                count as nat
            },
        ),
{
    let n: u16 = if count == 0 {
        1
    } else {
        count
    };
    let mut i: u16 = 0;
    while i < n
        invariant
            i <= n,
            units@ == old(units)@ + repeated(unit, i as nat),
        decreases n - i,
    {
        units.push(unit);
        i = i + 1;
        assert(units@ =~= old(units)@ + repeated(unit, i as nat));
    }
    assert(units@ =~= old(units)@ + repeated(unit, n as nat));
}

} // verus!
