//! Pure bytes → [`Event`] decoding for a terminal in raw + VT-input mode.
//!
//! No I/O here: [`Decoder::feed`] takes whatever bytes arrived (chunks may
//! split an escape sequence or a UTF-8 character anywhere) and returns the
//! events completed so far; unfinished input is buffered. A lone `ESC` is
//! ambiguous — the Esc key and the start of a sequence look identical — so
//! it is *not* resolved by `feed`; the caller decides when no continuation
//! is coming and calls [`Decoder::flush`] (the
//! [`Terminal`](crate::terminal::Terminal) does this after a short grace
//! period).

use vstd::prelude::*;

use crate::event::{views, Event, EventView};
use crate::item::{decode_one, flushed_item, item, Item, Step, ESC};
use crate::paste::{
    end_of, find_paste_end, has_end, held_len, lemma_held_is_unfinished, partial_terminator_len,
    END_LEN, MAX_PASTE,
};
use crate::text::{lossy, text_of};

verus! {

/// What a decoder has taken in and not yet reported.
#[verifier::ext_equal]
pub struct Pending {
    /// Bytes that are not decoded yet.
    pub bytes: Seq<u8>,
    /// The payload so far of a paste that is still open.
    pub paste: Option<Seq<u8>>,
}

/// What decoding comes to: the events reported, and what is left.
#[verifier::ext_equal]
pub struct Outcome {
    pub events: Seq<EventView>,
    pub rest: Pending,
}

impl Pending {
    /// Nothing taken in.
    pub open spec fn idle() -> Pending {
        Pending { bytes: Seq::empty(), paste: None }
    }

    /// The same with `more` bytes behind.
    pub open spec fn with(self, more: Seq<u8>) -> Pending {
        Pending { bytes: self.bytes + more, paste: self.paste }
    }

    /// What is buffered starts with an `ESC` that waits for its continuation.
    pub open spec fn waits_on_esc(self) -> bool {
        self.bytes.len() > 0 && self.bytes[0] == ESC
    }

    /// All there is is one `ESC`, outside a paste.
    pub open spec fn is_lone_esc(self) -> bool {
        self == (Pending { bytes: seq![ESC], paste: None })
    }

    /// A decoder comes to rest like this: what is buffered is unfinished, and
    /// an open paste is within its cap.
    pub open spec fn at_rest(self) -> bool {
        match self.paste {
            Some(payload) => {
                &&& payload.len() <= MAX_PASTE
                &&& !has_end(self.bytes)
                &&& held_len(self.bytes) == self.bytes.len()
            },
            None => item(self.bytes) is Incomplete,
        }
    }
}

impl Outcome {
    /// This outcome with `events` reported before.
    pub open spec fn after(self, events: Seq<EventView>) -> Outcome {
        Outcome { events: events + self.events, rest: self.rest }
    }
}

/// A paste of `payload`, as an event.
pub open spec fn pasted(payload: Seq<u8>) -> EventView {
    EventView::Paste(text_of(payload))
}

/// The front of the input, with `flush` saying that nothing more is coming.
pub open spec fn front(bytes: Seq<u8>, flush: bool) -> Item {
    if flush {
        flushed_item(bytes)
    } else {
        item(bytes)
    }
}

/// Decodes as far as the bytes go. An open paste takes everything up to its
/// terminator as payload; outside a paste the grammar takes one item after
/// the other.
pub open spec fn run(p: Pending, flush: bool) -> Outcome
    decreases p.bytes.len(),
{
    match p.paste {
        Some(payload) => {
            if has_end(p.bytes) {
                let end = end_of(p.bytes);
                if 0 <= end && end + END_LEN <= p.bytes.len() {
                    let next = Pending { bytes: p.bytes.skip(end + END_LEN), paste: None };
                    run(next, flush).after(seq![pasted(payload + p.bytes.take(end))])
                } else {
                    Outcome { events: Seq::empty(), rest: p }
                }
            } else {
                let split = p.bytes.len() - held_len(p.bytes);
                let next = Pending {
                    bytes: p.bytes.skip(split),
                    paste: Some(payload + p.bytes.take(split)),
                };
                Outcome { events: Seq::empty(), rest: next }
            }
        },
        None => match front(p.bytes, flush) {
            Item::Incomplete => Outcome { events: Seq::empty(), rest: p },
            Item::Consume(n, key) => if 0 < n <= p.bytes.len() {
                let next = Pending { bytes: p.bytes.skip(n), paste: None };
                let events = match key {
                    Some(k) => seq![EventView::Key(k)],
                    None => Seq::empty(),
                };
                run(next, flush).after(events)
            } else {
                Outcome { events: Seq::empty(), rest: p }
            },
            Item::PasteStart(n) => if 0 < n <= p.bytes.len() {
                run(Pending { bytes: p.bytes.skip(n), paste: Some(Seq::empty()) }, flush)
            } else {
                Outcome { events: Seq::empty(), rest: p }
            },
        },
    }
}

/// The payload of the paste that an outcome leaves open is over its cap.
pub open spec fn overruns(o: Outcome) -> bool {
    o.rest.paste is Some && o.rest.paste->Some_0.len() > MAX_PASTE
}

/// An outcome whose open paste is delivered as it is.
pub open spec fn closed_paste(o: Outcome) -> Outcome {
    Outcome {
        events: o.events.push(pasted(o.rest.paste->Some_0 + o.rest.bytes)),
        rest: Pending::idle(),
    }
}

/// What feeding `bytes` comes to.
pub open spec fn fed(p: Pending, bytes: Seq<u8>) -> Outcome {
    let o = run(p.with(bytes), false);
    if overruns(o) {
        closed_paste(o)
    } else {
        o
    }
}

/// What flushing comes to.
pub open spec fn flushed(p: Pending) -> Outcome {
    let o = run(p, true);
    if o.rest.paste is Some {
        closed_paste(o)
    } else {
        o
    }
}

/// The incremental input decoder. Create one per input stream.
#[derive(Debug)]
pub struct Decoder {
    buf: Vec<u8>,
    paste: Option<Vec<u8>>,
}

impl View for Decoder {
    type V = Pending;

    closed spec fn view(&self) -> Pending {
        Pending {
            bytes: self.buf@,
            paste: match self.paste {
                Some(payload) => Some(payload@),
                None => None,
            },
        }
    }
}

impl Default for Decoder {
    fn default() -> (decoder: Decoder)
        ensures
            decoder@ == Pending::idle(),
    {
        Decoder { buf: Vec::new(), paste: None }
    }
}

/// Removes the first `n` bytes.
fn drop_front(bytes: &mut Vec<u8>, n: usize)
    requires
        n <= old(bytes).len(),
    ensures
        final(bytes)@ == old(bytes)@.skip(n as int),
{
    let rest = bytes.split_off(n);
    *bytes = rest;
    assert(bytes@ =~= old(bytes)@.skip(n as int));
}

/// Appends the first `n` bytes of `from`.
fn append_front(to: &mut Vec<u8>, from: &Vec<u8>, n: usize)
    requires
        n <= from.len(),
    ensures
        final(to)@ == old(to)@ + from@.take(n as int),
{
    let part = vstd::slice::slice_subrange(from.as_slice(), 0, n);
    to.extend_from_slice(part);
    assert(to@ =~= old(to)@ + from@.take(n as int));
}

impl Decoder {
    /// A decoder that has taken in nothing.
    pub fn new() -> (decoder: Decoder)
        ensures
            decoder@ == Pending::idle(),
    {
        Decoder::default()
    }

    /// Feed newly-arrived bytes; returns the events they complete.
    pub fn feed(&mut self, bytes: &[u8]) -> (events: Vec<Event>)
        ensures
            views(events@) == fed(old(self)@, bytes@).events,
            final(self)@ == fed(old(self)@, bytes@).rest,
            final(self)@.at_rest(),
    {
        self.buf.extend_from_slice(bytes);
        assert(self@.bytes =~= old(self)@.bytes + bytes@);
        assert(self@ == old(self)@.with(bytes@));
        self.drain(false)
    }

    /// True if undecoded bytes are buffered (e.g. a lone `ESC` waiting to
    /// learn whether it starts a sequence).
    pub fn has_pending(&self) -> (pending: bool)
        ensures
            pending == (self@.bytes.len() > 0),
    {
        !self.buf.is_empty()
    }

    /// True if what is buffered starts with an `ESC` that waits to learn
    /// whether it starts a sequence.
    pub fn waits_on_esc(&self) -> (waits: bool)
        ensures
            waits == self@.waits_on_esc(),
    {
        !self.buf.is_empty() && self.buf[0] == ESC
    }

    /// True if all that is buffered is one `ESC`, and no paste is open.
    pub fn is_lone_esc(&self) -> (lone: bool)
        ensures
            lone == self@.is_lone_esc(),
    {
        let lone = self.buf.len() == 1 && self.buf[0] == ESC && self.paste.is_none();
        assert(lone ==> self@ =~= (Pending { bytes: seq![ESC], paste: None }));
        lone
    }

    /// Resolve buffered input on the assumption that no continuation is
    /// coming: a pending `ESC` becomes the Esc key, an unterminated paste is
    /// delivered as-is, and a character short of bytes is malformed.
    pub fn flush(&mut self) -> (events: Vec<Event>)
        ensures
            views(events@) == flushed(old(self)@).events,
            final(self)@ == flushed(old(self)@).rest,
            final(self)@ == Pending::idle(),
    {
        self.drain(true)
    }

    /// Decodes what is buffered.
    fn drain(&mut self, flush: bool) -> (out: Vec<Event>)
        ensures
            flush ==> views(out@) == flushed(old(self)@).events && final(self)@ == flushed(
                old(self)@,
            ).rest,
            flush ==> final(self)@ == Pending::idle(),
            !flush ==> views(out@) == fed(old(self)@, Seq::empty()).events && final(self)@ == fed(
                old(self)@,
                Seq::empty(),
            ).rest,
            final(self)@.at_rest(),
    {
        let mut out: Vec<Event> = Vec::new();
        let ghost start = self@;
        assert(start.with(Seq::empty()) =~= start);
        assert(views(out@) =~= Seq::empty());
        assert(run(start, flush) =~= run(self@, flush).after(views(out@)));
        loop
            invariant
                start == old(self)@,
                start.with(Seq::empty()) == start,
                run(start, flush) == run(self@, flush).after(views(out@)),
            decreases self@.bytes.len(),
        {
            let ghost here = self@;
            let ghost before = views(out@);
            match self.paste.take() {
                Some(mut payload) => {
                    match find_paste_end(self.buf.as_slice()) {
                        Some((end, after)) => {
                            append_front(&mut payload, &self.buf, end);
                            drop_front(&mut self.buf, after);
                            out.push(Event::Paste(lossy(payload.as_slice())));
                            assert(views(out@) =~= before.push(pasted(payload@)));
                            assert(run(here, flush).after(before) =~= run(self@, flush).after(
                                views(out@),
                            ));
                        },
                        None => {
                            // Keep any suffix that could begin the terminator.
                            let keep = partial_terminator_len(self.buf.as_slice());
                            let take: usize = self.buf.len() - keep;
                            append_front(&mut payload, &self.buf, take);
                            drop_front(&mut self.buf, take);
                            let ghost left = Pending { bytes: self.buf@, paste: Some(payload@) };
                            assert(run(here, flush).rest == left);
                            assert(run(start, flush).events =~= before);
                            if flush || payload.len() > MAX_PASTE {
                                payload.append(&mut self.buf);
                                out.push(Event::Paste(lossy(payload.as_slice())));
                                assert(views(out@) =~= before.push(pasted(payload@)));
                                assert(self@ =~= Pending::idle());
                            } else {
                                self.paste = Some(payload);
                                assert(self@ == left);
                                assert(left.at_rest()) by {
                                    lemma_held_is_unfinished(here.bytes);
                                }
                            }
                            return out;
                        },
                    }
                },
                None => {
                    let step = decode_one(self.buf.as_slice(), flush);
                    proof {
                        lemma_front_bounds(here.bytes, flush);
                    }
                    match step {
                        Step::Incomplete => {
                            assert(self@ =~= here);
                            assert(flush ==> self@ =~= Pending::idle());
                            assert(run(start, flush).events =~= before);
                            return out;
                        },
                        Step::Consume(n, key) => {
                            drop_front(&mut self.buf, n);
                            if let Some(k) = key {
                                out.push(Event::Key(k));
                                assert(views(out@) =~= before.push(EventView::Key(k)));
                            }
                            assert(run(here, flush).after(before) =~= run(self@, flush).after(
                                views(out@),
                            ));
                        },
                        Step::PasteStart(n) => {
                            drop_front(&mut self.buf, n);
                            self.paste = Some(Vec::new());
                            assert(self@ =~= (Pending {
                                bytes: here.bytes.skip(n as int),
                                paste: Some(Seq::empty()),
                            }));
                        },
                    }
                },
            }
        }
    }
}

/// An item takes at least one byte and no more than there are, and once
/// nothing more is coming no item is unfinished.
pub proof fn lemma_front_bounds(bytes: Seq<u8>, flush: bool)
    ensures
        match front(bytes, flush) {
            Item::Incomplete => item(bytes) is Incomplete && (flush ==> bytes.len() == 0),
            Item::Consume(n, _) => 0 < n <= bytes.len(),
            Item::PasteStart(n) => 0 < n <= bytes.len(),
        },
{
    if bytes.len() >= 2 {
        crate::item::lemma_body_len_means(bytes.skip(2));
    }
}

} // verus!
