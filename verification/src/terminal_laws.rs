//! What holds of a terminal whatever it is told: no event is lost or
//! reordered, a resize is reported once, a wait for input ends at the deadline,
//! and a lone `ESC` gets its grace period and is resolved after it.

use vstd::prelude::*;

use crate::decode::{fed, flushed, overruns, run, Pending};
use crate::decode_laws::{
    chunks_do_not_matter, fed_all, feeding_comes_to_rest, flush_settles, joined,
    lone_esc_resolves_on_flush, waiting_esc_is_reported_on_flush,
};
use crate::event::{bare, EventView, Key};
use crate::item::ESC;
use crate::terminal::{turn, ReplyView, RequestView, TerminalView, Turn, ESC_GRACE, POLL_TICK};

verus! {

// ---------------------------------------------------------------------------
// Events

/// The event taken off the queue in answer to `reply`.
pub open spec fn taken(t: TerminalView, reply: ReplyView) -> Seq<EventView> {
    match (reply, turn(t, reply).request) {
        (ReplyView::Size { .. }, _) => Seq::empty(),
        (_, RequestView::Return(Some(event))) => seq![event],
        _ => Seq::empty(),
    }
}

/// The events decoded because of `reply`.
pub open spec fn decoded(t: TerminalView, reply: ReplyView) -> Seq<EventView> {
    match reply {
        ReplyView::Bytes(bytes) if bytes.len() > 0 => fed(t.dec, bytes).events,
        ReplyView::More(bytes) => if bytes.len() > 0 {
            fed(t.dec, bytes).events
        } else if t.dec.waits_on_esc() {
            flushed(t.dec).events
        } else {
            Seq::empty()
        },
        _ => Seq::empty(),
    }
}

/// The terminal after all `replies`.
pub open spec fn after_all(t: TerminalView, replies: Seq<ReplyView>) -> TerminalView
    decreases replies.len(),
{
    if replies.len() == 0 {
        t
    } else {
        turn(after_all(t, replies.drop_last()), replies.last()).terminal
    }
}

/// The events taken off the queue in answer to all `replies`, in order.
pub open spec fn taken_all(t: TerminalView, replies: Seq<ReplyView>) -> Seq<EventView>
    decreases replies.len(),
{
    if replies.len() == 0 {
        Seq::empty()
    } else {
        taken_all(t, replies.drop_last()) + taken(
            after_all(t, replies.drop_last()),
            replies.last(),
        )
    }
}

/// The events decoded because of all `replies`, in order.
pub open spec fn decoded_all(t: TerminalView, replies: Seq<ReplyView>) -> Seq<EventView>
    decreases replies.len(),
{
    if replies.len() == 0 {
        Seq::empty()
    } else {
        decoded_all(t, replies.drop_last()) + decoded(
            after_all(t, replies.drop_last()),
            replies.last(),
        )
    }
}

/// Over one reply, what is returned and what stays queued is what was queued
/// and what is decoded.
proof fn lemma_one_reply(t: TerminalView, reply: ReplyView)
    ensures
        taken(t, reply) + turn(t, reply).terminal.queue == t.queue + decoded(t, reply),
{
    let all = t.queue + decoded(t, reply);
    assert(t.queue + Seq::<EventView>::empty() =~= t.queue);
    assert(taken(t, reply) + turn(t, reply).terminal.queue =~= all);
}

/// Two balances make one.
proof fn lemma_balances_add(
    out: Seq<EventView>,
    mid: Seq<EventView>,
    start: Seq<EventView>,
    made: Seq<EventView>,
    more_out: Seq<EventView>,
    end: Seq<EventView>,
    more_made: Seq<EventView>,
)
    requires
        out + mid == start + made,
        more_out + end == mid + more_made,
    ensures
        (out + more_out) + end == start + (made + more_made),
{
    assert((out + more_out) + end =~= out + (more_out + end));
    assert(out + (mid + more_made) =~= (out + mid) + more_made);
    assert((start + made) + more_made =~= start + (made + more_made));
}

/// No event is lost, made up or reordered: over any run of replies, what was
/// returned and what is still queued is what was queued and what was decoded.
pub proof fn no_event_is_lost(t: TerminalView, replies: Seq<ReplyView>)
    ensures
        taken_all(t, replies) + after_all(t, replies).queue == t.queue + decoded_all(t, replies),
    decreases replies.len(),
{
    if replies.len() == 0 {
        assert(taken_all(t, replies) + t.queue =~= t.queue + decoded_all(t, replies));
    } else {
        let init = replies.drop_last();
        let reply = replies.last();
        let s = after_all(t, init);
        no_event_is_lost(t, init);
        lemma_one_reply(s, reply);
        lemma_balances_add(
            taken_all(t, init),
            s.queue,
            t.queue,
            decoded_all(t, init),
            taken(s, reply),
            turn(s, reply).terminal.queue,
            decoded(s, reply),
        );
    }
}

/// The bytes that arrived, chunk by chunk.
pub open spec fn chunks(replies: Seq<ReplyView>) -> Seq<Seq<u8>>
    decreases replies.len(),
{
    if replies.len() == 0 {
        Seq::empty()
    } else {
        match replies.last() {
            ReplyView::Bytes(bytes) if bytes.len() > 0 => chunks(replies.drop_last()).push(bytes),
            ReplyView::More(bytes) if bytes.len() > 0 => chunks(replies.drop_last()).push(bytes),
            _ => chunks(replies.drop_last()),
        }
    }
}

/// No grace period ran out.
pub open spec fn never_resolved(replies: Seq<ReplyView>) -> bool {
    forall|i: int|
        0 <= i < replies.len() ==> #[trigger] replies[i] != ReplyView::More(Seq::empty())
}

/// The decoder of a terminal takes the chunks as they come.
proof fn lemma_chunks_are_fed(t: TerminalView, replies: Seq<ReplyView>)
    requires
        never_resolved(replies),
    ensures
        fed_all(t.dec, chunks(replies)).events == decoded_all(t, replies),
        fed_all(t.dec, chunks(replies)).rest == after_all(t, replies).dec,
    decreases replies.len(),
{
    if replies.len() > 0 {
        let init = replies.drop_last();
        let reply = replies.last();
        assert(never_resolved(init)) by {
            assert forall|i: int| 0 <= i < init.len() implies #[trigger] init[i]
                != ReplyView::More(Seq::empty()) by {
                assert(init[i] == replies[i]);
            }
        }
        lemma_chunks_are_fed(t, init);
        assert(replies[replies.len() - 1] != ReplyView::More(Seq::empty()));
        match reply {
            ReplyView::Bytes(bytes) if bytes.len() > 0 => {
                assert(chunks(replies).drop_last() =~= chunks(init));
            },
            ReplyView::More(bytes) => {
                if bytes.len() == 0 {
                    assert(bytes =~= Seq::empty());
                }
                assert(chunks(replies).drop_last() =~= chunks(init));
            },
            _ => {
                assert(decoded_all(t, replies) =~= decoded_all(t, init));
            },
        }
    }
}

/// What is typed arrives: unless a grace period runs out, a terminal hands out
/// the events of the byte stream as a whole, however the reads cut it up and
/// whatever else is asked in between, as long as no paste overruns its cap
/// before the last chunk.
pub proof fn reads_do_not_matter(t: TerminalView, replies: Seq<ReplyView>)
    requires
        never_resolved(replies),
        chunks(replies).len() > 0,
        forall|k: int|
            0 < k < chunks(replies).len() ==> !overruns(
                run(t.dec.with(#[trigger] joined(chunks(replies).take(k))), false),
            ),
    ensures
        taken_all(t, replies) + after_all(t, replies).queue == t.queue + fed(
            t.dec,
            joined(chunks(replies)),
        ).events,
        after_all(t, replies).dec == fed(t.dec, joined(chunks(replies))).rest,
{
    no_event_is_lost(t, replies);
    lemma_chunks_are_fed(t, replies);
    chunks_do_not_matter(t.dec, chunks(replies));
}

/// Queued events come before anything else, and one event is returned at a
/// time: a terminal asks for the size, or for the rest of what it was given,
/// only with an empty queue, and a size leaves the queue as it is.
pub proof fn queued_events_come_first(t: TerminalView, reply: ReplyView)
    ensures
        !(reply is Size) && !(turn(t, reply).request is Return) ==> turn(
            t,
            reply,
        ).terminal.queue.len() == 0,
        reply is Size ==> turn(t, reply).terminal.queue == t.queue,
{
}

/// Asking for an event takes nothing in and waits for nothing: the first queued
/// event is returned, or the size is asked for.
pub proof fn asking_waits_for_nothing(t: TerminalView)
    ensures
        t.queue.len() > 0 ==> turn(t, ReplyView::Begin).request == RequestView::Return(
            Some(t.queue[0]),
        ),
        t.queue.len() == 0 ==> turn(t, ReplyView::Begin) == (Turn {
            terminal: t,
            request: RequestView::QuerySize,
        }),
        turn(t, ReplyView::Begin).terminal.dec == t.dec,
{
}

// ---------------------------------------------------------------------------
// Resizes

/// A resize is reported if and only if the size differs from the one seen
/// last, with the new size, whatever else waits; nothing else is touched by it,
/// and it is reported once.
pub proof fn resize_is_reported_once(
    t: TerminalView,
    rows: u16,
    cols: u16,
    left: Option<u128>,
    later: Option<u128>,
)
    ensures
        ({
            let first = turn(t, ReplyView::Size { rows, cols, left });
            let again = turn(first.terminal, ReplyView::Size { rows, cols, left: later });
            let resize = RequestView::Return(Some(EventView::Resize { rows, cols }));
            &&& first.request == resize <==> (rows, cols) != t.size
            &&& first.terminal == TerminalView { size: (rows, cols), ..t }
            &&& again.request != resize
            &&& again.terminal == first.terminal
        }),
{
}

/// Only a size that was seen changes the size that is remembered.
pub proof fn size_is_kept(t: TerminalView, reply: ReplyView)
    requires
        !(reply is Size),
    ensures
        turn(t, reply).terminal.size == t.size,
{
}

// ---------------------------------------------------------------------------
// Waiting

/// Nothing is returned if and only if the deadline has passed and the size is
/// as it was, whatever waits to be resolved.
pub proof fn nothing_means_timeout(t: TerminalView, reply: ReplyView)
    ensures
        turn(t, reply).request == RequestView::Return(None) <==> reply == (ReplyView::Size {
            rows: t.size.0,
            cols: t.size.1,
            left: Some(0),
        }),
{
}

/// A wait for input is never empty, never longer than a tick, and never goes
/// beyond the deadline.
pub proof fn waits_are_bounded(t: TerminalView, rows: u16, cols: u16, left: Option<u128>)
    ensures
        turn(t, ReplyView::Size { rows, cols, left }).request matches RequestView::Read(wait) ==> {
            &&& 0 < wait <= POLL_TICK
            &&& left is Some ==> wait <= left->Some_0
        },
{
}

/// A wait for the continuation of an `ESC` is always the grace period, whatever
/// the deadline.
pub proof fn grace_is_fixed(t: TerminalView, reply: ReplyView)
    ensures
        turn(t, reply).request matches RequestView::ReadMore(wait) ==> wait == ESC_GRACE,
{
}

// ---------------------------------------------------------------------------
// A lone ESC

/// The decoder of a terminal is at rest whatever it is told.
pub proof fn terminal_stays_at_rest(t: TerminalView, reply: ReplyView)
    requires
        t.dec.at_rest(),
    ensures
        turn(t, reply).terminal.dec.at_rest(),
{
    match reply {
        ReplyView::Bytes(bytes) => {
            feeding_comes_to_rest(t.dec, bytes);
        },
        ReplyView::More(bytes) => {
            feeding_comes_to_rest(t.dec, bytes);
            flush_settles(t.dec);
        },
        _ => {},
    }
}

/// A lone `ESC` is never passed over: once the size is known to be as it was
/// and the deadline has not passed, its grace period comes before any other
/// wait.
pub proof fn lone_esc_is_never_passed_over(t: TerminalView, left: Option<u128>)
    requires
        t.dec.is_lone_esc(),
        left != Some(0u128),
    ensures
        turn(t, ReplyView::Size { rows: t.size.0, cols: t.size.1, left }) == (Turn {
            terminal: t,
            request: RequestView::ReadMore(ESC_GRACE),
        }),
{
}

/// A grace period is asked for only where an `ESC` waits, and without new bytes
/// only for a lone one: an unfinished sequence or an open paste that stayed
/// behind waits for its continuation however long that takes.
pub proof fn grace_is_for_esc_alone(t: TerminalView, reply: ReplyView)
    requires
        turn(t, reply).request is ReadMore,
    ensures
        turn(t, reply).terminal.dec.waits_on_esc(),
        reply matches ReplyView::Bytes(bytes) && bytes.len() > 0 || reply is Size && turn(
            t,
            reply,
        ).terminal.dec.is_lone_esc(),
{
}

/// Once the grace period runs out, an `ESC` that waited is resolved at once:
/// an event is returned, the Esc key outside a paste, and nothing stays
/// buffered.
pub proof fn grace_resolves(t: TerminalView)
    requires
        t.dec.at_rest(),
        t.dec.waits_on_esc(),
        t.queue.len() == 0,
    ensures
        ({
            let done = turn(t, ReplyView::More(Seq::empty()));
            &&& done.request == RequestView::Return(Some(flushed(t.dec).events[0]))
            &&& t.dec.paste is None ==> done.request == RequestView::Return(
                Some(EventView::Key(bare(Key::Esc))),
            )
            &&& done.terminal.dec == Pending::idle()
            &&& done.terminal.queue == flushed(t.dec).events.drop_first()
        }),
{
    waiting_esc_is_reported_on_flush(t.dec);
    flush_settles(t.dec);
    assert(t.queue + flushed(t.dec).events =~= flushed(t.dec).events);
}

/// Without new bytes, what is buffered stays as it is, unless a grace period
/// runs out with an `ESC` waiting: a character cut by two slow reads comes out
/// whole.
pub proof fn only_esc_is_resolved(t: TerminalView, reply: ReplyView)
    requires
        !(reply is More && t.dec.waits_on_esc()),
        reply matches ReplyView::Bytes(bytes) ==> bytes.len() == 0,
        reply matches ReplyView::More(bytes) ==> bytes.len() == 0,
    ensures
        turn(t, reply).terminal.dec == t.dec,
{
}

/// `n` times an event is asked for.
pub open spec fn begins(n: nat) -> Seq<ReplyView> {
    Seq::new(n, |i: int| ReplyView::Begin)
}

/// What is asked for in answer to the last of `replies`.
pub open spec fn last_request(t: TerminalView, replies: Seq<ReplyView>) -> RequestView {
    turn(after_all(t, replies.drop_last()), replies.last()).request
}

/// Asked for an event time and again, a terminal returns what is queued, one
/// by one.
proof fn lemma_queue_drains(t: TerminalView, replies: Seq<ReplyView>, n: nat)
    requires
        n <= after_all(t, replies).queue.len(),
    ensures
        after_all(t, replies + begins(n)) == (TerminalView {
            queue: after_all(t, replies).queue.skip(n as int),
            ..after_all(t, replies)
        }),
        taken_all(t, replies + begins(n)) == taken_all(t, replies) + after_all(
            t,
            replies,
        ).queue.take(n as int),
    decreases n,
{
    let s = after_all(t, replies);
    if n == 0 {
        assert(replies + begins(n) =~= replies);
        assert(s.queue.skip(0) =~= s.queue);
        assert(taken_all(t, replies) + s.queue.take(0) =~= taken_all(t, replies));
    } else {
        let m = (n - 1) as nat;
        let all = replies + begins(n);
        lemma_queue_drains(t, replies, m);
        assert(all.drop_last() =~= replies + begins(m));
        assert(all.last() == ReplyView::Begin);
        assert(s.queue.skip(m as int).drop_first() =~= s.queue.skip(n as int));
        assert(s.queue.skip(m as int)[0] == s.queue[m as int]);
        assert(taken_all(t, replies) + s.queue.take(m as int) + seq![s.queue[m as int]]
            =~= taken_all(t, replies) + s.queue.take(n as int));
    }
}

/// A chunk that ends in a lone `ESC`, on an idle terminal: the events before
/// the `ESC` are returned first, in order. Its grace period comes at once if
/// there are none, and otherwise as soon as the size is known to be as it was
/// and the deadline has not passed. If nothing follows, the Esc key is returned
/// and the terminal is idle again; if something does, the two are decoded
/// together.
pub proof fn lone_esc_gets_its_grace(
    t: TerminalView,
    bytes: Seq<u8>,
    left: Option<u128>,
    more: Seq<u8>,
)
    requires
        t.dec == Pending::idle(),
        t.queue.len() == 0,
        fed(Pending::idle(), bytes).rest.is_lone_esc(),
        left != Some(0u128),
        more.len() > 0,
    ensures
        ({
            let events = fed(Pending::idle(), bytes).events;
            let replies = seq![ReplyView::Bytes(bytes)] + begins(events.len());
            let waiting = after_all(t, replies);
            let sized = turn(waiting, ReplyView::Size { rows: t.size.0, cols: t.size.1, left });
            let alone = turn(waiting, ReplyView::More(Seq::empty()));
            let joined = turn(waiting, ReplyView::More(more));
            let together = fed(Pending { bytes: seq![ESC], paste: None }, more);
            &&& taken_all(t, replies) == events
            &&& last_request(t, replies) == (if events.len() == 0 {
                RequestView::ReadMore(ESC_GRACE)
            } else {
                RequestView::QuerySize
            })
            &&& sized.request == RequestView::ReadMore(ESC_GRACE)
            &&& sized.terminal == waiting
            &&& alone.request == RequestView::Return(Some(EventView::Key(bare(Key::Esc))))
            &&& alone.terminal == t
            &&& taken(waiting, ReplyView::More(more)) + joined.terminal.queue == together.events
            &&& joined.terminal.dec == together.rest
        }),
{
    let p = Pending::idle();
    let events = fed(p, bytes).events;
    let first = seq![ReplyView::Bytes(bytes)];
    let replies = first + begins(events.len());
    if bytes.len() == 0 {
        assert(p.with(bytes) =~= p);
        assert(fed(p, bytes).rest.bytes.len() == 0);
    }
    reveal_with_fuel(after_all, 2);
    reveal_with_fuel(taken_all, 2);
    assert(first.drop_last() =~= Seq::<ReplyView>::empty());
    assert(t.queue + events =~= events);
    let waiting = after_all(t, replies);
    if events.len() == 0 {
        assert(replies =~= first);
        assert(taken_all(t, first) =~= events);
    } else {
        let m = (events.len() - 1) as nat;
        let before = first + begins(m);
        assert(after_all(t, first).queue =~= events.drop_first());
        assert(taken_all(t, first) =~= seq![events[0]]);
        lemma_queue_drains(t, first, m);
        assert(replies.drop_last() =~= before);
        assert(replies.last() == ReplyView::Begin);
        assert(after_all(t, before).queue =~= Seq::<EventView>::empty());
        assert(taken_all(t, replies) =~= taken_all(t, before));
        assert(taken_all(t, replies) =~= events);
    }
    assert(waiting.dec == (Pending { bytes: seq![ESC], paste: None }));
    assert(waiting.queue =~= t.queue);
    lone_esc_resolves_on_flush();
    let esc = EventView::Key(bare(Key::Esc));
    assert(waiting.queue + flushed(waiting.dec).events =~= seq![esc]);
    assert(seq![esc].drop_first() =~= t.queue);
    assert(turn(waiting, ReplyView::More(Seq::empty())).terminal =~= t);
    lemma_one_reply(waiting, ReplyView::More(more));
    assert(waiting.queue + fed(waiting.dec, more).events =~= fed(waiting.dec, more).events);
}

// ---------------------------------------------------------------------------
// Reply by reply

/// A wait that brought nothing starts over like a call: a queued event, or the
/// size and the time, whatever the size of the terminal.
pub proof fn empty_reads_start_over(t: TerminalView)
    ensures
        t.queue.len() == 0 ==> {
            &&& turn(t, ReplyView::Bytes(Seq::empty())).request == RequestView::QuerySize
            &&& turn(t, ReplyView::Bytes(Seq::empty())).terminal == t
        },
        t.queue.len() > 0 ==> {
            &&& turn(t, ReplyView::Bytes(Seq::empty())).request == RequestView::Return(
                Some(t.queue[0]),
            )
            &&& turn(t, ReplyView::Bytes(Seq::empty())).terminal == TerminalView {
                queue: t.queue.skip(1),
                ..t
            }
        },
        t.dec.bytes.len() == 0 || t.dec.bytes[0] != 0x1B ==> turn(
            t,
            ReplyView::More(Seq::empty()),
        ) == turn(t, ReplyView::Bytes(Seq::empty())),
        turn(t, ReplyView::Begin) == turn(t, ReplyView::Bytes(Seq::empty())),
{
    assert(t.queue.len() > 0 ==> t.queue.drop_first() =~= t.queue.skip(1));
}

/// Between two waits the size and the deadline are always looked at: to wait
/// for input is only ever the answer to a size.
pub proof fn waits_follow_a_size(t: TerminalView, reply: ReplyView)
    requires
        turn(t, reply).request is Read,
    ensures
        reply is Size,
{
}

/// What a size decides. A new size is returned; with the old one, a deadline
/// that has passed ends the call; otherwise a lone `ESC` gets 15 milliseconds,
/// or there is a wait for the lesser of 60 milliseconds and the time left.
pub proof fn a_size_decides(t: TerminalView, rows: u16, cols: u16, left: Option<u128>)
    ensures
        ({
            let n = turn(t, ReplyView::Size { rows, cols, left });
            let known = rows == t.size.0 && cols == t.size.1;
            let lone = t.dec.paste is None && t.dec.bytes.len() == 1 && t.dec.bytes[0] == 0x1B;
            &&& n.terminal.dec == t.dec && n.terminal.queue == t.queue && n.terminal.mouse
                == t.mouse && n.terminal.size == (rows, cols)
            &&& !known ==> n.request == RequestView::Return(
                Some(EventView::Resize { rows, cols }),
            )
            &&& known && left == Some(0u128) ==> n.request == RequestView::Return(None)
            &&& known && left != Some(0u128) && lone ==> n.request == RequestView::ReadMore(
                15_000_000,
            )
            &&& known && left != Some(0u128) && !lone ==> {
                &&& n.request matches RequestView::Read(wait)
                &&& wait <= 60_000_000
                &&& left is Some ==> wait <= left->Some_0
                &&& wait == 60_000_000 || left == Some(wait as u128)
            }
        }),
{
    if t.dec.paste is None && t.dec.bytes.len() == 1 && t.dec.bytes[0] == 0x1B {
        assert(t.dec =~= (Pending { bytes: seq![ESC], paste: None }));
    }
}

/// What bytes decide. They are decoded behind what is queued, and the first
/// event of all is returned. Where there is none, an `ESC` in front of what is
/// left undecoded gets 15 milliseconds, and otherwise the size comes first.
pub proof fn bytes_decide(t: TerminalView, bytes: Seq<u8>)
    requires
        bytes.len() > 0,
    ensures
        ({
            let n = turn(t, ReplyView::Bytes(bytes));
            let o = fed(t.dec, bytes);
            let all = t.queue + o.events;
            &&& n.terminal.dec == o.rest && n.terminal.size == t.size && n.terminal.mouse
                == t.mouse
            &&& all.len() > 0 ==> n.request == RequestView::Return(Some(all[0]))
                && n.terminal.queue == all.skip(1)
            &&& all.len() == 0 ==> n.terminal.queue == all
            &&& all.len() == 0 && o.rest.bytes.len() > 0 && o.rest.bytes[0] == 0x1B ==> n.request
                == RequestView::ReadMore(15_000_000)
            &&& all.len() == 0 && !(o.rest.bytes.len() > 0 && o.rest.bytes[0] == 0x1B)
                ==> n.request == RequestView::QuerySize
        }),
{
    let all = t.queue + fed(t.dec, bytes).events;
    assert(all.len() > 0 ==> all.drop_first() =~= all.skip(1));
}

/// What a continuation decides: it is decoded behind what is queued, and the
/// first event of all is returned, or the size comes first.
pub proof fn a_continuation_decides(t: TerminalView, bytes: Seq<u8>)
    requires
        bytes.len() > 0,
    ensures
        ({
            let n = turn(t, ReplyView::More(bytes));
            let o = fed(t.dec, bytes);
            let all = t.queue + o.events;
            &&& n.terminal.dec == o.rest && n.terminal.size == t.size && n.terminal.mouse
                == t.mouse
            &&& all.len() > 0 ==> n.request == RequestView::Return(Some(all[0]))
                && n.terminal.queue == all.skip(1)
            &&& all.len() == 0 ==> n.request == RequestView::QuerySize && n.terminal.queue == all
        }),
{
    let all = t.queue + fed(t.dec, bytes).events;
    assert(all.len() > 0 ==> all.drop_first() =~= all.skip(1));
}

/// What a grace period decides that runs out with an `ESC` waiting: everything
/// is resolved behind what is queued, and the first event of all is returned.
pub proof fn silence_decides(t: TerminalView)
    requires
        t.dec.bytes.len() > 0,
        t.dec.bytes[0] == 0x1B,
    ensures
        ({
            let n = turn(t, ReplyView::More(Seq::empty()));
            let all = t.queue + flushed(t.dec).events;
            &&& n.terminal.dec == (Pending { bytes: Seq::empty(), paste: None })
            &&& n.terminal.size == t.size && n.terminal.mouse == t.mouse
            &&& all.len() > 0 ==> n.request == RequestView::Return(Some(all[0]))
                && n.terminal.queue == all.skip(1)
            &&& all.len() == 0 ==> n.request == RequestView::QuerySize && n.terminal.queue == all
        }),
{
    flush_settles(t.dec);
    let all = t.queue + flushed(t.dec).events;
    assert(all.len() > 0 ==> all.drop_first() =~= all.skip(1));
}

} // verus!
