//! Decisions of the Unix edge: how long to poll, what an answer of `poll`
//! or `read` means, and the sequences that switch mouse reporting.

use vstd::prelude::*;

verus! {

/// Poll event: there is input to read.
pub const POLLIN: i16 = 0x0001;

/// Poll event: the other side has hung up.
pub const POLLHUP: i16 = 0x0010;

/// What to do once `poll` or `read` has answered.
#[derive(Debug, Clone, Copy, PartialEq, Eq, Structural)]
pub enum Polled {
    /// Report the error.
    Fail,
    /// The wait timed out.
    TimedOut,
    /// Wait for the rest of the time.
    Again,
    /// Input is there to be read.
    Ready,
    /// No input will come any more.
    Closed,
}

/// A timeout in milliseconds, as much of it as `poll` can take.
pub fn poll_millis(millis: u128) -> (wait: i32)
    ensures
        wait as int == (if millis > i32::MAX {
            i32::MAX as int
        } else {
            millis as int
        }),
{
    if millis > i32::MAX as u128 {
        i32::MAX
    } else {
        millis as i32
    }
}

/// What `poll` answered: `n` as it returned it, whether the error was an
/// interruption, and the events it saw. Only a wait that timed out counts as
/// one: an interrupted wait goes on, and events without input mean that the
/// terminal is gone.
pub fn after_poll(n: i32, interrupted: bool, revents: i16) -> (polled: Polled)
    ensures
        polled == Polled::Fail <==> n < 0 && !interrupted,
        polled == Polled::Again <==> n < 0 && interrupted,
        polled == Polled::TimedOut <==> n == 0,
        polled == Polled::Ready <==> n > 0 && revents & POLLIN != 0,
        polled == Polled::Closed <==> n > 0 && revents & POLLIN == 0,
{
    if n < 0 {
        if interrupted {
            Polled::Again
        } else {
            Polled::Fail
        }
    } else if n == 0 {
        Polled::TimedOut
    } else if revents & POLLIN != 0 {
        Polled::Ready
    } else {
        Polled::Closed
    }
}

/// What a read that brought nothing means, with the events `poll` saw before
/// it: the end if the other side has hung up, and otherwise that the input
/// went elsewhere.
pub fn after_empty_read(revents: i16) -> (polled: Polled)
    ensures
        polled == (if revents & POLLHUP != 0 {
            Polled::Closed
        } else {
            Polled::Again
        }),
{
    if revents & POLLHUP != 0 {
        Polled::Closed
    } else {
        Polled::Again
    }
}

/// What to do after a wait with `left` of the time left: a wait that is to go
/// on has timed out once no time is left.
pub fn after_wait(polled: Polled, left: u128) -> (next: Polled)
    ensures
        next == (if polled == Polled::Again && left == 0 {
            Polled::TimedOut
        } else {
            polled
        }),
{
    match polled {
        Polled::Again => if left == 0 {
            Polled::TimedOut
        } else {
            Polled::Again
        },
        other => other,
    }
}

/// Asks the terminal to report clicks, as SGR sequences: `ESC[?1000h` and
/// `ESC[?1006h`.
pub open spec fn mouse_on() -> Seq<u8> {
    seq![
        0x1B, 0x5B, 0x3F, 0x31, 0x30, 0x30, 0x30, 0x68, 0x1B, 0x5B, 0x3F, 0x31, 0x30, 0x30, 0x36,
        0x68,
    ]
}

/// Takes both back in reverse order: `ESC[?1006l` and `ESC[?1000l`.
pub open spec fn mouse_off() -> Seq<u8> {
    seq![
        0x1B, 0x5B, 0x3F, 0x31, 0x30, 0x30, 0x36, 0x6C, 0x1B, 0x5B, 0x3F, 0x31, 0x30, 0x30, 0x30,
        0x6C,
    ]
}

/// The bytes to write to the terminal to switch mouse reporting.
pub fn mouse_switch(on: bool) -> (bytes: Vec<u8>)
    ensures
        bytes@ == (if on {
            mouse_on()
        } else {
            mouse_off()
        }),
{
    let bytes: Vec<u8> = if on {
        vec![
            0x1B, 0x5B, 0x3F, 0x31, 0x30, 0x30, 0x30, 0x68, 0x1B, 0x5B, 0x3F, 0x31, 0x30, 0x30,
            0x36, 0x68,
        ]
    } else {
        vec![
            0x1B, 0x5B, 0x3F, 0x31, 0x30, 0x30, 0x36, 0x6C, 0x1B, 0x5B, 0x3F, 0x31, 0x30, 0x30,
            0x30, 0x6C,
        ]
    };
    bytes
}

} // verus!
