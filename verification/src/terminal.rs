//! A terminal in raw mode, without its system calls.
//!
//! [`Terminal::read_event`] decides what to do next while waiting for an
//! event: it is told what the last call brought, and answers with the next
//! call to make or with the result.

use std::collections::VecDeque;

use vstd::prelude::*;

use crate::decode::{fed, flushed, Decoder, Pending};
use crate::event::{views, Event, EventView};
use crate::unix::{mouse_off, mouse_switch};

verus! {

/// How long to wait for the continuation of a lone `ESC` byte before
/// reporting it as the Esc key, in nanoseconds.
pub const ESC_GRACE: u64 = 15_000_000;

/// Poll granularity while waiting for input, so resizes are noticed even
/// with no keystrokes, in nanoseconds.
pub const POLL_TICK: u64 = 60_000_000;

/// What the caller of [`Terminal::read_event`] has found out.
#[derive(Debug)]
pub enum Reply {
    /// Nothing yet: an event is asked for.
    Begin,
    /// The size of the terminal, and how many nanoseconds are left until the
    /// deadline if there is one.
    Size { rows: u16, cols: u16, left: Option<u128> },
    /// The bytes that arrived, none if the wait timed out.
    Bytes(Vec<u8>),
    /// The bytes that arrived within the grace period.
    More(Vec<u8>),
}

/// What the caller of [`Terminal::read_event`] is to do.
#[derive(Debug, PartialEq, Eq)]
pub enum Request {
    /// Return this: an event, or nothing because the deadline has passed.
    Return(Option<Event>),
    /// Query the size and the time, and reply with [`Reply::Size`].
    QuerySize,
    /// Read for so many nanoseconds at most, and reply with [`Reply::Bytes`].
    Read(u64),
    /// Read for so many nanoseconds at most, and reply with [`Reply::More`].
    ReadMore(u64),
}

/// A reply as a value of mathematics.
pub enum ReplyView {
    Begin,
    Size { rows: u16, cols: u16, left: Option<u128> },
    Bytes(Seq<u8>),
    More(Seq<u8>),
}

/// A request as a value of mathematics.
pub enum RequestView {
    Return(Option<EventView>),
    QuerySize,
    Read(u64),
    ReadMore(u64),
}

impl View for Reply {
    type V = ReplyView;

    open spec fn view(&self) -> ReplyView {
        match *self {
            Reply::Begin => ReplyView::Begin,
            Reply::Size { rows, cols, left } => ReplyView::Size { rows, cols, left },
            Reply::Bytes(bytes) => ReplyView::Bytes(bytes@),
            Reply::More(bytes) => ReplyView::More(bytes@),
        }
    }
}

impl View for Request {
    type V = RequestView;

    open spec fn view(&self) -> RequestView {
        match *self {
            Request::Return(Some(event)) => RequestView::Return(Some(event@)),
            Request::Return(None) => RequestView::Return(None),
            Request::QuerySize => RequestView::QuerySize,
            Request::Read(wait) => RequestView::Read(wait),
            Request::ReadMore(wait) => RequestView::ReadMore(wait),
        }
    }
}

/// What a terminal knows.
#[verifier::ext_equal]
pub struct TerminalView {
    /// What its decoder holds.
    pub dec: Pending,
    /// Events that are decoded and not yet returned.
    pub queue: Seq<EventView>,
    /// The size that was seen last, as `(rows, cols)`.
    pub size: (u16, u16),
    /// Whether the mouse is captured.
    pub mouse: bool,
}

/// The terminal and what it asks for, after one reply.
#[verifier::ext_equal]
pub struct Turn {
    pub terminal: TerminalView,
    pub request: RequestView,
}

/// The first queued event is returned; without one, the size comes first.
pub open spec fn proceed(t: TerminalView) -> Turn {
    if t.queue.len() > 0 {
        Turn {
            terminal: TerminalView { queue: t.queue.drop_first(), ..t },
            request: RequestView::Return(Some(t.queue[0])),
        }
    } else {
        Turn { terminal: t, request: RequestView::QuerySize }
    }
}

/// The terminal with `bytes` decoded.
pub open spec fn taking(t: TerminalView, bytes: Seq<u8>) -> TerminalView {
    let o = fed(t.dec, bytes);
    TerminalView { dec: o.rest, queue: t.queue + o.events, ..t }
}

/// The terminal with what its decoder holds resolved.
pub open spec fn resolving(t: TerminalView) -> TerminalView {
    let o = flushed(t.dec);
    TerminalView { dec: o.rest, queue: t.queue + o.events, ..t }
}

/// What comes of a reply. An `ESC` that new bytes leave waiting with nothing
/// to return before it gets its grace period at once; a lone `ESC` that stayed
/// behind other events gets it when the terminal would otherwise wait for
/// input.
pub open spec fn turn(t: TerminalView, reply: ReplyView) -> Turn {
    match reply {
        ReplyView::Begin => proceed(t),
        ReplyView::Size { rows, cols, left } => if (rows, cols) != t.size {
            Turn {
                terminal: TerminalView { size: (rows, cols), ..t },
                request: RequestView::Return(Some(EventView::Resize { rows, cols })),
            }
        } else if left == Some(0u128) {
            Turn { terminal: t, request: RequestView::Return(None) }
        } else if t.dec.is_lone_esc() {
            Turn { terminal: t, request: RequestView::ReadMore(ESC_GRACE) }
        } else if left is Some && left->Some_0 < POLL_TICK {
            Turn { terminal: t, request: RequestView::Read(left->Some_0 as u64) }
        } else {
            Turn { terminal: t, request: RequestView::Read(POLL_TICK) }
        },
        ReplyView::Bytes(bytes) => if bytes.len() == 0 {
            proceed(t)
        } else if taking(t, bytes).queue.len() == 0 && taking(t, bytes).dec.waits_on_esc() {
            Turn { terminal: taking(t, bytes), request: RequestView::ReadMore(ESC_GRACE) }
        } else {
            proceed(taking(t, bytes))
        },
        ReplyView::More(bytes) => if bytes.len() > 0 {
            proceed(taking(t, bytes))
        } else if t.dec.waits_on_esc() {
            proceed(resolving(t))
        } else {
            proceed(t)
        },
    }
}

/// A terminal in raw mode.
#[derive(Debug)]
pub struct Terminal {
    dec: Decoder,
    queue: VecDeque<Event>,
    last_size: (u16, u16),
    mouse: bool,
}

impl View for Terminal {
    type V = TerminalView;

    closed spec fn view(&self) -> TerminalView {
        TerminalView {
            dec: self.dec@,
            queue: views(self.queue@),
            size: self.last_size,
            mouse: self.mouse,
        }
    }
}

/// Appends `events` in order.
fn enqueue(queue: &mut VecDeque<Event>, events: Vec<Event>)
    ensures
        views(final(queue)@) == views(old(queue)@) + views(events@),
{
    let mut left = events;
    let mut late: VecDeque<Event> = VecDeque::new();
    assert(left@ + late@ =~= events@);
    loop
        invariant
            left@ + late@ == events@,
        ensures
            late@ == events@,
        decreases left.len(),
    {
        match left.pop() {
            Some(event) => {
                late.push_front(event);
                assert(left@ + late@ =~= events@);
            },
            None => {
                assert(late@ =~= events@);
                break ;
            },
        }
    }
    queue.append(&mut late);
    assert(views(queue@) =~= views(old(queue)@) + views(events@));
}

impl Terminal {
    /// A terminal that has just entered raw mode, with its size. The mouse is
    /// not captured.
    pub fn raw(size: (u16, u16)) -> (terminal: Terminal)
        ensures
            terminal@ == (TerminalView {
                dec: Pending::idle(),
                queue: Seq::empty(),
                size,
                mouse: false,
            }),
    {
        let terminal = Terminal {
            dec: Decoder::new(),
            queue: VecDeque::new(),
            last_size: size,
            mouse: false,
        };
        assert(terminal@.queue =~= Seq::empty());
        terminal
    }

    /// Toggle mouse capture. **Off by default** so the user keeps native
    /// drag-to-select / copy. Turning it `on` makes clicks arrive as SGR mouse
    /// sequences (at the cost of plain selection, which then needs the
    /// terminal's Shift-drag override). Idempotent.
    pub fn set_mouse(&mut self, on: bool)
        ensures
            final(self)@ == (TerminalView { mouse: on, ..old(self)@ }),
    {
        self.mouse = on;
    }

    /// The bytes that put mouse reporting back as it was found, on a terminal
    /// that takes them.
    pub fn release_mouse(&self) -> (bytes: Vec<u8>)
        ensures
            bytes@ == (if self@.mouse {
                mouse_off()
            } else {
                Seq::empty()
            }),
    {
        if self.mouse {
            mouse_switch(false)
        } else {
            Vec::new()
        }
    }

    /// Takes note of a reply, and says what to do next. Start with
    /// [`Reply::Begin`]; whatever the request, do it and reply, until it is
    /// [`Request::Return`].
    pub fn read_event(&mut self, reply: Reply) -> (request: Request)
        ensures
            request@ == turn(old(self)@, reply@).request,
            final(self)@ == turn(old(self)@, reply@).terminal,
    {
        match reply {
            Reply::Begin => self.proceed(),
            Reply::Size { rows, cols, left } => {
                if rows != self.last_size.0 || cols != self.last_size.1 {
                    self.last_size = (rows, cols);
                    return Request::Return(Some(Event::Resize { rows, cols }));
                }
                let wait: u64 = match left {
                    None => POLL_TICK,
                    Some(nanos) => if nanos == 0 {
                        return Request::Return(None);
                    } else if nanos < POLL_TICK as u128 {
                        nanos as u64
                    } else {
                        POLL_TICK
                    },
                };
                // A lone ESC that stayed behind other events.
                if self.dec.is_lone_esc() {
                    return Request::ReadMore(ESC_GRACE);
                }
                Request::Read(wait)
            },
            Reply::Bytes(bytes) => {
                if bytes.is_empty() {
                    return self.proceed();
                }
                enqueue(&mut self.queue, self.dec.feed(bytes.as_slice()));
                // A pending lone ESC is ambiguous (key vs. sequence start): give
                // the continuation a short grace period, then resolve it.
                if self.queue.len() == 0 && self.dec.waits_on_esc() {
                    return Request::ReadMore(ESC_GRACE);
                }
                self.proceed()
            },
            Reply::More(bytes) => {
                if !bytes.is_empty() {
                    enqueue(&mut self.queue, self.dec.feed(bytes.as_slice()));
                } else if self.dec.waits_on_esc() {
                    // The grace period ran out: no continuation is coming.
                    enqueue(&mut self.queue, self.dec.flush());
                }
                self.proceed()
            },
        }
    }

    /// Returns the first queued event, or asks for the size.
    fn proceed(&mut self) -> (request: Request)
        ensures
            request@ == proceed(old(self)@).request,
            final(self)@ == proceed(old(self)@).terminal,
    {
        match self.queue.pop_front() {
            Some(event) => {
                assert(self@.queue =~= old(self)@.queue.drop_first());
                Request::Return(Some(event))
            },
            None => Request::QuerySize,
        }
    }
}

} // verus!
