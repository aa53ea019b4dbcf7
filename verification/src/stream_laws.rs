//! Whole streams: where they may be cut, what a paste comes to, and what a
//! flush makes of the end.

use vstd::prelude::*;
use vstd::utf8::{decode_utf8, valid_utf8};

use crate::decode::{fed, flushed, front, lemma_front_bounds, run, Pending};
use crate::decode_laws::{
    feeding_comes_to_rest, feeding_in_two_pieces, flush_settles, lemma_payload_grows,
    paste_arrives_whole, paste_start, runaway_paste_is_delivered, unterminated_paste_is_delivered,
};
use crate::event::{EventView, Key, KeyEvent, Mods};
use crate::item::{item, Item};
use crate::number::decimal;
use crate::paste::{
    end_of, ends_at, first_ends_at, has_end, held_len, lemma_held_len_exists, paste_end,
};
use crate::text::repaired_text;

verus! {

// ---------------------------------------------------------------------------
// Cuts

/// A stream may be cut anywhere: what is fed first is reported first, and what
/// is fed then is reported behind it, as if both had come at once. Only a paste
/// of more than 0x100000 bytes may tell the difference.
pub proof fn streams_may_be_cut(p: Pending, a: Seq<u8>, b: Seq<u8>)
    requires
        p.bytes.len() + a.len() + (if p.paste is Some {
            p.paste->Some_0.len()
        } else {
            0
        }) <= 0x10_0000,
    ensures
        fed(p, a + b).events == fed(p, a).events + fed(fed(p, a).rest, b).events,
        fed(p, a + b).rest == fed(fed(p, a).rest, b).rest,
{
    lemma_payload_grows(p.with(a));
    feeding_in_two_pieces(p, a, b);
}

// ---------------------------------------------------------------------------
// Pastes

/// `ESC [ 2 0 0 ~`.
pub open spec fn opening() -> Seq<u8> {
    seq![0x1B, '[' as u8, '2' as u8, '0' as u8, '0' as u8, '~' as u8]
}

/// `ESC [ 2 0 1 ~`.
pub open spec fn closing() -> Seq<u8> {
    seq![0x1B, '[' as u8, '2' as u8, '0' as u8, '1' as u8, '~' as u8]
}

/// The closing stands nowhere in `payload`.
pub open spec fn is_open(payload: Seq<u8>) -> bool {
    forall|i: int|
        0 <= i <= payload.len() - 6 ==> #[trigger] payload.subrange(i, i + 6) != closing()
}

/// A paste of `payload`: its text if it is UTF-8, and a repaired reading of it
/// if it is not.
pub open spec fn is_paste_of(e: EventView, payload: Seq<u8>) -> bool {
    &&& e is Paste
    &&& valid_utf8(payload) ==> e->Paste_0 == decode_utf8(payload)
    &&& !valid_utf8(payload) ==> e->Paste_0 == repaired_text(payload)
}

proof fn lemma_marks(payload: Seq<u8>)
    requires
        is_open(payload),
    ensures
        paste_start() == opening(),
        paste_end() == closing(),
        !has_end(payload),
{
    reveal_with_fuel(decimal, 4);
    assert(decimal(200) =~= seq![0x32u8, 0x30u8, 0x30u8]);
    assert(paste_start() =~= opening());
    assert(paste_end() =~= closing());
    if has_end(payload) {
        let i = end_of(payload);
        assert(first_ends_at(payload, i));
        assert(ends_at(payload, i));
        assert(payload.subrange(i, i + 6) == closing());
    }
}

/// Between its opening and its closing everything is payload, escape sequences
/// included, and is one event; what stands behind is read afresh.
pub proof fn pastes_decode(payload: Seq<u8>, more: Seq<u8>)
    requires
        is_open(payload),
    ensures
        ({
            let o = fed(Pending::idle(), opening() + payload + closing() + more);
            let rest = fed(Pending::idle(), more);
            &&& o.events.len() == rest.events.len() + 1
            &&& is_paste_of(o.events[0], payload)
            &&& o.events.skip(1) == rest.events
            &&& o.rest == rest.rest
        }),
{
    lemma_marks(payload);
    paste_arrives_whole(payload, more);
    let o = fed(Pending::idle(), opening() + payload + closing() + more);
    assert(o.events.skip(1) =~= fed(Pending::idle(), more).events);
}

/// As long as its closing has not come and it has not run over 0x100000 bytes,
/// a paste is held back; a flush delivers it as it is.
pub proof fn open_pastes_are_held(payload: Seq<u8>)
    requires
        is_open(payload),
        payload.len() <= 0x10_0000,
    ensures
        ({
            let o = fed(Pending::idle(), opening() + payload);
            let end = flushed(o.rest);
            &&& o.events == Seq::<EventView>::empty()
            &&& o.rest.paste is Some
            &&& end.events.len() == 1
            &&& is_paste_of(end.events[0], payload)
            &&& end.rest == (Pending { bytes: Seq::empty(), paste: None })
        }),
{
    lemma_marks(payload);
    lemma_held_len_exists(payload);
    unterminated_paste_is_delivered(payload);
    if fed(Pending::idle(), opening() + payload).rest.paste is None {
        let o = fed(Pending::idle(), opening() + payload);
        feeding_comes_to_rest(Pending::idle(), opening() + payload);
        lemma_nothing_pasted(o.rest);
    }
}

/// Without an open paste at rest, a flush reports no paste.
proof fn lemma_nothing_pasted(p: Pending)
    requires
        p.paste is None,
        p.at_rest(),
    ensures
        flushed(p).events.len() > 0 ==> flushed(p).events[0] is Key,
{
    if p.bytes.len() == 0 {
        assert(flushed(p).events =~= Seq::empty());
    } else {
        let next = Pending { bytes: p.bytes.skip(1), paste: None };
        assert(front(p.bytes, true) matches Item::Consume(n, Some(k)) && n == 1);
        assert(run(p, true).events[0] is Key);
    }
}

/// A paste that has run over 0x100000 bytes without its closing is delivered as
/// it is, and what comes then is read afresh. Only what may be the beginning of
/// the closing does not count yet.
pub proof fn runaway_pastes_are_delivered(payload: Seq<u8>)
    requires
        is_open(payload),
        payload.len() > 0x10_0000,
        payload.len() > 0x10_0000 + 6 || (forall|i: int|
            payload.len() - 6 <= i < payload.len() ==> #[trigger] payload[i] != 0x1B),
    ensures
        ({
            let o = fed(Pending::idle(), opening() + payload);
            &&& o.events.len() == 1
            &&& is_paste_of(o.events[0], payload)
            &&& o.rest == (Pending { bytes: Seq::empty(), paste: None })
        }),
{
    lemma_marks(payload);
    lemma_held_len_exists(payload);
    let n = held_len(payload);
    if 0 < n && payload.len() <= 0x10_0000 + 6 {
        assert(payload.skip(payload.len() - n)[0] == payload[payload.len() - n]);
        assert(paste_end().take(n)[0] == 0x1B);
    }
    runaway_paste_is_delivered(payload);
}

// ---------------------------------------------------------------------------
// Flushes

/// Where a stream decodes without a rest, a flush reports the same.
pub proof fn flush_agrees_with_feed(b: Seq<u8>)
    requires
        fed(Pending::idle(), b).rest == Pending::idle(),
    ensures
        flushed(Pending { bytes: b, paste: None }) == fed(Pending::idle(), b),
{
    let p = Pending { bytes: b, paste: None };
    assert(Pending::idle().with(b) =~= p);
    lemma_flush_agrees(p);
}

proof fn lemma_flush_agrees(p: Pending)
    requires
        run(p, false).rest.paste is Some || run(p, false).rest.bytes.len() == 0,
    ensures
        run(p, true) == run(p, false),
    decreases p.bytes.len(),
{
    if p.paste is Some {
        if has_end(p.bytes) {
            let end = end_of(p.bytes);
            assert(first_ends_at(p.bytes, end));
            lemma_flush_agrees(Pending { bytes: p.bytes.skip(end + 6), paste: None });
        }
    } else {
        lemma_front_bounds(p.bytes, false);
        match item(p.bytes) {
            Item::Consume(n, _) => {
                lemma_flush_agrees(Pending { bytes: p.bytes.skip(n), paste: None });
            },
            Item::PasteStart(n) => {
                lemma_flush_agrees(Pending { bytes: p.bytes.skip(n), paste: Some(Seq::empty()) });
            },
            Item::Incomplete => {},
        }
    }
}

/// Where a stream is held back whole, a flush makes its first byte the Esc key
/// if it is an `ESC` and U+FFFD if it is not, and reads on behind it. In the end
/// nothing is held back.
pub proof fn flush_resolves_byte_by_byte(b: Seq<u8>)
    requires
        b.len() > 0,
        fed(Pending::idle(), b).rest == (Pending { bytes: b, paste: None }),
    ensures
        ({
            let first = if b[0] == 0x1B {
                Key::Esc
            } else {
                Key::Char('\u{FFFD}')
            };
            let none = Mods { shift: false, alt: false, ctrl: false };
            let rest = flushed(Pending { bytes: b.skip(1), paste: None });
            let o = flushed(Pending { bytes: b, paste: None });
            &&& o.events == seq![EventView::Key(KeyEvent { key: first, mods: none })] + rest.events
            &&& o.rest == (Pending { bytes: Seq::empty(), paste: None })
        }),
{
    feeding_comes_to_rest(Pending::idle(), b);
    let p = Pending { bytes: b, paste: None };
    let next = Pending { bytes: b.skip(1), paste: None };
    flush_settles(p);
    flush_settles(next);
    assert(flushed(p).events =~= seq![flushed(p).events[0]] + flushed(next).events);
}

/// After a flush nothing is held back, and a second one reports nothing.
pub proof fn a_second_flush_is_idle(p: Pending)
    ensures
        flushed(p).rest == (Pending { bytes: Seq::empty(), paste: None }),
        flushed(flushed(p).rest).events == Seq::<EventView>::empty(),
{
    flush_settles(p);
}

} // verus!
