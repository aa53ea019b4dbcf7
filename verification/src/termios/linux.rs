//! Terminal attributes on Linux.

use vstd::prelude::*;

verus! {

/// Number of control characters.
pub const NCCS: usize = 32;

/// The attributes of a terminal.
#[derive(Clone, Copy)]
pub struct Termios {
    pub c_iflag: u32,
    pub c_oflag: u32,
    pub c_cflag: u32,
    pub c_lflag: u32,
    pub c_line: u8,
    pub c_cc: [u8; NCCS],
    pub c_ispeed: u32,
    pub c_ospeed: u32,
}

/// Input flag: breaks are ignored.
pub const IGNBRK: u32 = 0o0001;

/// Input flag: a break raises a signal.
pub const BRKINT: u32 = 0o0002;

/// Input flag: parity errors are marked.
pub const PARMRK: u32 = 0o0010;

/// Input flag: the eighth bit is stripped.
pub const ISTRIP: u32 = 0o0040;

/// Input flag: newlines become carriage returns.
pub const INLCR: u32 = 0o0100;

/// Input flag: carriage returns are ignored.
pub const IGNCR: u32 = 0o0200;

/// Input flag: carriage returns become newlines.
pub const ICRNL: u32 = 0o0400;

/// Input flag: output is stopped and started by control characters.
pub const IXON: u32 = 0o2000;

/// Output flag: output is processed.
pub const OPOST: u32 = 0o0001;

/// Local flag: input is echoed.
pub const ECHO: u32 = 0o0010;

/// Local flag: newlines are echoed.
pub const ECHONL: u32 = 0o0100;

/// Local flag: input is handed out line by line.
pub const ICANON: u32 = 0o0002;

/// Local flag: control characters raise signals.
pub const ISIG: u32 = 0o0001;

/// Local flag: extended input processing.
pub const IEXTEN: u32 = 0o100000;

/// Control flags: the bits of a character, as a mask.
pub const CSIZE: u32 = 0o0060;

/// Control flag: parity is on.
pub const PARENB: u32 = 0o0400;

/// Control flags: eight bits to a character.
pub const CS8: u32 = 0o0060;

/// Control character: how many bytes a read waits for.
pub const VMIN: usize = 6;

/// Control character: how long a read waits.
pub const VTIME: usize = 5;

/// Raw mode clears these input flags: no break handling, no parity marks, no
/// stripping, no newline translation, no flow control.
pub open spec fn cooked_input() -> u32 {
    IGNBRK | BRKINT | PARMRK | ISTRIP | INLCR | IGNCR | ICRNL | IXON
}

/// Raw mode clears these local flags: no echo, no lines, no signals, no
/// extensions.
pub open spec fn cooked_local() -> u32 {
    ECHO | ECHONL | ICANON | ISIG | IEXTEN
}

/// `raw` is what raw mode makes of `saved`: bytes of eight bits pass unaltered
/// both ways, and a read returns at once with what there is.
pub open spec fn is_raw_of(raw: Termios, saved: Termios) -> bool {
    &&& raw.c_iflag == saved.c_iflag & !cooked_input()
    &&& raw.c_oflag == saved.c_oflag & !OPOST
    &&& raw.c_cflag == (saved.c_cflag & !(CSIZE | PARENB)) | CS8
    &&& raw.c_lflag == saved.c_lflag & !cooked_local()
    &&& raw.c_line == saved.c_line
    &&& raw.c_cc@ == saved.c_cc@.update(VMIN as int, 0).update(VTIME as int, 0)
    &&& raw.c_ispeed == saved.c_ispeed
    &&& raw.c_ospeed == saved.c_ospeed
}

impl Termios {
    /// These attributes, switched to raw mode.
    pub fn raw(&self) -> (raw: Termios)
        ensures
            is_raw_of(raw, *self),
    {
        let mut raw = *self;
        raw.c_iflag = raw.c_iflag & !(IGNBRK | BRKINT | PARMRK | ISTRIP | INLCR | IGNCR | ICRNL
            | IXON);
        raw.c_oflag = raw.c_oflag & !OPOST;
        raw.c_lflag = raw.c_lflag & !(ECHO | ECHONL | ICANON | ISIG | IEXTEN);
        raw.c_cflag = raw.c_cflag & !(CSIZE | PARENB);
        raw.c_cflag = raw.c_cflag | CS8;
        raw.c_cc[VMIN] = 0;  // reads return what is available;
        raw.c_cc[VTIME] = 0;  // blocking/timeouts are poll()'s job
        raw
    }
}

/// In raw mode no flag that alters input or output is set, and a character
/// has eight bits.
pub proof fn raw_is_raw(saved: Termios, raw: Termios)
    requires
        is_raw_of(raw, saved),
    ensures
        raw.c_iflag & cooked_input() == 0,
        raw.c_oflag & OPOST == 0,
        raw.c_lflag & cooked_local() == 0,
        raw.c_cflag & CSIZE == CS8,
        raw.c_cflag & PARENB == 0,
        raw.c_cc@[VMIN as int] == 0,
        raw.c_cc@[VTIME as int] == 0,
{
    let f = saved.c_cflag;
    assert(forall|f: u32, m: u32| #[trigger] ((f & !m) & m) == 0) by (bit_vector);
    assert(((f & !(CSIZE | PARENB)) | CS8) & CSIZE == CS8) by (bit_vector);
    assert(((f & !(CSIZE | PARENB)) | CS8) & PARENB == 0) by (bit_vector);
}

/// Raw mode is reached in one step: switching once more changes nothing.
pub proof fn raw_is_idempotent(saved: Termios, raw: Termios, again: Termios)
    requires
        is_raw_of(raw, saved),
        is_raw_of(again, raw),
    ensures
        again.c_iflag == raw.c_iflag,
        again.c_oflag == raw.c_oflag,
        again.c_cflag == raw.c_cflag,
        again.c_lflag == raw.c_lflag,
        again.c_cc@ == raw.c_cc@,
        again.c_line == raw.c_line,
        again.c_ispeed == raw.c_ispeed,
        again.c_ospeed == raw.c_ospeed,
{
    assert(forall|f: u32, m: u32| #[trigger] ((f & !m) & !m) == f & !m) by (bit_vector);
    assert(forall|f: u32, m: u32, s: u32|
        #[trigger] ((((f & !m) | s) & !m) | s) == (f & !m) | s) by (bit_vector);
    assert(again.c_cc@ =~= raw.c_cc@);
}

/// The flags that raw mode clears and sets, by their bits, and no other bit and
/// no other control character is touched.
pub proof fn raw_changes_nothing_else(saved: Termios, raw: Termios)
    requires
        is_raw_of(raw, saved),
    ensures
        raw.c_iflag & 0o2753u32 == 0,
        raw.c_iflag & !0o2753u32 == saved.c_iflag & !0o2753u32,
        raw.c_oflag & 1u32 == 0,
        raw.c_oflag & !1u32 == saved.c_oflag & !1u32,
        raw.c_lflag & 0o100113u32 == 0,
        raw.c_lflag & !0o100113u32 == saved.c_lflag & !0o100113u32,
        raw.c_cflag & (0o0060u32 | 0o0400u32) == 0o0060u32,
        raw.c_cflag & !(0o0060u32 | 0o0400u32) == saved.c_cflag & !(0o0060u32 | 0o0400u32),
        raw.c_line == saved.c_line,
        raw.c_ispeed == saved.c_ispeed,
        raw.c_ospeed == saved.c_ospeed,
        forall|i: int|
            0 <= i < NCCS ==> #[trigger] raw.c_cc@[i] == (if i == 6 || i == 5 {
                0u8
            } else {
                saved.c_cc@[i]
            }),
{
    assert(cooked_input() == 0o2753u32) by (bit_vector);
    assert(cooked_local() == 0o100113u32) by (bit_vector);
    let f = saved.c_cflag;
    let m = 0o0060u32 | 0o0400u32;
    assert(forall|f: u32, m: u32| #[trigger] ((f & !m) & m) == 0) by (bit_vector);
    assert(forall|f: u32, m: u32| #[trigger] ((f & !m) & !m) == f & !m) by (bit_vector);
    assert(((f & !m) | 0o0060u32) & m == 0o0060u32 && ((f & !m) | 0o0060u32) & !m == f & !m)
        by (bit_vector)
        requires
            m == 0o0060u32 | 0o0400u32,
    ;
}

} // verus!
