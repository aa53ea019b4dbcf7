//! Terminal attributes on macOS.

use vstd::prelude::*;

verus! {

/// Number of control characters.
pub const NCCS: usize = 20;

/// The attributes of a terminal.
#[derive(Clone, Copy)]
pub struct Termios {
    pub c_iflag: u64,
    pub c_oflag: u64,
    pub c_cflag: u64,
    pub c_lflag: u64,
    pub c_cc: [u8; NCCS],
    pub c_ispeed: u64,
    pub c_ospeed: u64,
}

/// Input flag: breaks are ignored.
pub const IGNBRK: u64 = 0x0001;

/// Input flag: a break raises a signal.
pub const BRKINT: u64 = 0x0002;

/// Input flag: parity errors are marked.
pub const PARMRK: u64 = 0x0008;

/// Input flag: the eighth bit is stripped.
pub const ISTRIP: u64 = 0x0020;

/// Input flag: newlines become carriage returns.
pub const INLCR: u64 = 0x0040;

/// Input flag: carriage returns are ignored.
pub const IGNCR: u64 = 0x0080;

/// Input flag: carriage returns become newlines.
pub const ICRNL: u64 = 0x0100;

/// Input flag: output is stopped and started by control characters.
pub const IXON: u64 = 0x0200;

/// Output flag: output is processed.
pub const OPOST: u64 = 0x0001;

/// Local flag: input is echoed.
pub const ECHO: u64 = 0x0008;

/// Local flag: newlines are echoed.
pub const ECHONL: u64 = 0x0010;

/// Local flag: input is handed out line by line.
pub const ICANON: u64 = 0x0100;

/// Local flag: control characters raise signals.
pub const ISIG: u64 = 0x0080;

/// Local flag: extended input processing.
pub const IEXTEN: u64 = 0x0400;

/// Control flags: the bits of a character, as a mask.
pub const CSIZE: u64 = 0x0300;

/// Control flag: parity is on.
pub const PARENB: u64 = 0x1000;

/// Control flags: eight bits to a character.
pub const CS8: u64 = 0x0300;

/// Control character: how many bytes a read waits for.
pub const VMIN: usize = 16;

/// Control character: how long a read waits.
pub const VTIME: usize = 17;

/// Raw mode clears these input flags: no break handling, no parity marks, no
/// stripping, no newline translation, no flow control.
pub open spec fn cooked_input() -> u64 {
    IGNBRK | BRKINT | PARMRK | ISTRIP | INLCR | IGNCR | ICRNL | IXON
}

/// Raw mode clears these local flags: no echo, no lines, no signals, no
/// extensions.
pub open spec fn cooked_local() -> u64 {
    ECHO | ECHONL | ICANON | ISIG | IEXTEN
}

/// `raw` is what raw mode makes of `saved`: bytes of eight bits pass unaltered
/// both ways, and a read returns at once with what there is.
pub open spec fn is_raw_of(raw: Termios, saved: Termios) -> bool {
    &&& raw.c_iflag == saved.c_iflag & !cooked_input()
    &&& raw.c_oflag == saved.c_oflag & !OPOST
    &&& raw.c_cflag == (saved.c_cflag & !(CSIZE | PARENB)) | CS8
    &&& raw.c_lflag == saved.c_lflag & !cooked_local()
    &&& raw.c_cc@ == saved.c_cc@.update(VMIN as int, 0).update(VTIME as int, 0)
    &&& raw.c_ispeed == saved.c_ispeed
    &&& raw.c_ospeed == saved.c_ospeed
}

impl Termios {
    /// These attributes, switched to raw mode.
    pub fn raw(&self) -> (raw: Termios)
        ensures
            is_raw_of(raw, *self),
    {
        let mut raw = *self;
        raw.c_iflag = raw.c_iflag & !(IGNBRK | BRKINT | PARMRK | ISTRIP | INLCR | IGNCR | ICRNL
            | IXON);
        raw.c_oflag = raw.c_oflag & !OPOST;
        raw.c_lflag = raw.c_lflag & !(ECHO | ECHONL | ICANON | ISIG | IEXTEN);
        raw.c_cflag = raw.c_cflag & !(CSIZE | PARENB);
        raw.c_cflag = raw.c_cflag | CS8;
        raw.c_cc[VMIN] = 0;  // reads return what is available;
        raw.c_cc[VTIME] = 0;  // blocking/timeouts are poll()'s job
        raw
    }
}

/// In raw mode no flag that alters input or output is set, and a character
/// has eight bits.
pub proof fn raw_is_raw(saved: Termios, raw: Termios)
    requires
        is_raw_of(raw, saved),
    ensures
        raw.c_iflag & cooked_input() == 0,
        raw.c_oflag & OPOST == 0,
        raw.c_lflag & cooked_local() == 0,
        raw.c_cflag & CSIZE == CS8,
        raw.c_cflag & PARENB == 0,
        raw.c_cc@[VMIN as int] == 0,
        raw.c_cc@[VTIME as int] == 0,
{
    let f = saved.c_cflag;
    assert(forall|f: u64, m: u64| #[trigger] ((f & !m) & m) == 0) by (bit_vector);
    assert(((f & !(CSIZE | PARENB)) | CS8) & CSIZE == CS8) by (bit_vector);
    assert(((f & !(CSIZE | PARENB)) | CS8) & PARENB == 0) by (bit_vector);
}

/// Raw mode is reached in one step: switching once more changes nothing.
pub proof fn raw_is_idempotent(saved: Termios, raw: Termios, again: Termios)
    requires
        is_raw_of(raw, saved),
        is_raw_of(again, raw),
    ensures
        again.c_iflag == raw.c_iflag,
        again.c_oflag == raw.c_oflag,
        again.c_cflag == raw.c_cflag,
        again.c_lflag == raw.c_lflag,
        again.c_cc@ == raw.c_cc@,
        again.c_ispeed == raw.c_ispeed,
        again.c_ospeed == raw.c_ospeed,
{
    assert(forall|f: u64, m: u64| #[trigger] ((f & !m) & !m) == f & !m) by (bit_vector);
    assert(forall|f: u64, m: u64, s: u64|
        #[trigger] ((((f & !m) | s) & !m) | s) == (f & !m) | s) by (bit_vector);
    assert(again.c_cc@ =~= raw.c_cc@);
}

/// The flags that raw mode clears and sets, by their bits, and no other bit and
/// no other control character is touched.
pub proof fn raw_changes_nothing_else(saved: Termios, raw: Termios)
    requires
        is_raw_of(raw, saved),
    ensures
        raw.c_iflag & 0x03EBu64 == 0,
        raw.c_iflag & !0x03EBu64 == saved.c_iflag & !0x03EBu64,
        raw.c_oflag & 1u64 == 0,
        raw.c_oflag & !1u64 == saved.c_oflag & !1u64,
        raw.c_lflag & 0x0598u64 == 0,
        raw.c_lflag & !0x0598u64 == saved.c_lflag & !0x0598u64,
        raw.c_cflag & (0x0300u64 | 0x1000u64) == 0x0300u64,
        raw.c_cflag & !(0x0300u64 | 0x1000u64) == saved.c_cflag & !(0x0300u64 | 0x1000u64),
        raw.c_ispeed == saved.c_ispeed,
        raw.c_ospeed == saved.c_ospeed,
        forall|i: int|
            0 <= i < NCCS ==> #[trigger] raw.c_cc@[i] == (if i == 16 || i == 17 {
                0u8
            } else {
                saved.c_cc@[i]
            }),
{
    assert(cooked_input() == 0x03EBu64) by (bit_vector);
    assert(cooked_local() == 0x0598u64) by (bit_vector);
    let f = saved.c_cflag;
    let m = 0x0300u64 | 0x1000u64;
    assert(forall|f: u64, m: u64| #[trigger] ((f & !m) & m) == 0) by (bit_vector);
    assert(forall|f: u64, m: u64| #[trigger] ((f & !m) & !m) == f & !m) by (bit_vector);
    assert(((f & !m) | 0x0300u64) & m == 0x0300u64 && ((f & !m) | 0x0300u64) & !m == f & !m)
        by (bit_vector)
        requires
            m == 0x0300u64 | 0x1000u64,
    ;
}

} // verus!
