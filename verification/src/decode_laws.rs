//! What the decoder promises of whole streams, whatever the chunks they come
//! in.

use vstd::prelude::*;

use vstd::utf8::{
    char_is_scalar, char_u32_cast, codepoint_width_2, codepoint_width_3, decode_first_scalar,
    encode_scalar, encode_utf8, encode_utf8_decode_utf8, encode_utf8_first_scalar,
    encode_utf8_valid_utf8, has_width_1_encoding, valid_first_scalar,
};

use crate::decode::{
    fed, flushed, front, lemma_front_bounds, overruns, pasted, run, Outcome, Pending,
};
use crate::event::{add_alt, bare, no_mods, EventView, Key, KeyEvent};
use crate::item::{
    body_len, char_width, csi_key, cursor_key, fields, is_final, is_partial_char, item,
    lemma_body_len, lemma_body_len_means, lemma_field_len, modified, mods_of, param, params,
    plain_item, tilde_key, Item, ESC, MAX_SEQ, REPLACEMENT,
};
use crate::number::{decimal, decimal_reads_back, is_digit};
use crate::paste::{
    could_end, end_of, ends_at, first_ends_at, has_end, held_len, lemma_end_of, lemma_ends_at_skip,
    lemma_has_end, lemma_held_is_unfinished, lemma_held_len, lemma_held_len_exists, paste_end,
    END_LEN, MAX_PASTE,
};

verus! {

// ---------------------------------------------------------------------------
// Chunks

/// An item that is complete stays what it is when more bytes arrive.
pub proof fn complete_items_are_final(a: Seq<u8>, b: Seq<u8>)
    requires
        !(item(a) is Incomplete),
    ensures
        item(a + b) == item(a),
{
    let ab = a + b;
    if a[0] != ESC {
        lemma_plain_is_final(a, b);
    } else if a[1] == 0x5B {
        let rest = a.skip(2);
        assert(ab.skip(2) =~= rest + b);
        lemma_body_len_means(rest);
        lemma_body_len_means(rest + b);
        let n = body_len(rest);
        if n > MAX_SEQ {
            let m = body_len(rest + b);
            if m < n {
                assert((rest + b)[m] == rest[m]);
            }
        } else {
            assert forall|i: int| 0 <= i < n implies !is_final(
                #[trigger] (rest + b)[i],
            ) by {
                assert((rest + b)[i] == rest[i]);
            }
            lemma_body_len(rest + b, n);
            assert((rest + b).take(n) =~= rest.take(n));
        }
    } else if a[1] != ESC && a[1] != 0x4F {
        assert(ab.skip(1) =~= a.skip(1) + b);
        lemma_plain_is_final(a.skip(1), b);
    }
}

proof fn lemma_plain_is_final(a: Seq<u8>, b: Seq<u8>)
    requires
        a.len() > 0,
        !(plain_item(a) is Incomplete),
    ensures
        plain_item(a + b) == plain_item(a),
{
    assert((a + b)[0] == a[0]);
    assert(char_width(a[0]) <= a.len());
    assert(forall|i: int| 0 <= i < a.len() ==> (a + b)[i] == a[i]);
}

/// Where a paste ends is not changed by what follows.
proof fn lemma_end_is_final(a: Seq<u8>, b: Seq<u8>)
    requires
        has_end(a),
    ensures
        has_end(a + b),
        end_of(a + b) == end_of(a),
        first_ends_at(a, end_of(a)),
{
    let i = end_of(a);
    assert(first_ends_at(a, i));
    lemma_ends_at_prefix(a, b, i);
    assert forall|j: int| 0 <= j < i implies !ends_at(a + b, j) by {
        lemma_ends_at_prefix(a, b, j);
    }
    lemma_end_of(a + b, i);
}

/// Within `a` the terminator stands where it stands in `a + b`.
proof fn lemma_ends_at_prefix(a: Seq<u8>, b: Seq<u8>, i: int)
    requires
        i + END_LEN <= a.len(),
    ensures
        ends_at(a + b, i) <==> ends_at(a, i),
{
    if 0 <= i {
        assert((a + b).subrange(i, i + END_LEN) =~= a.subrange(i, i + END_LEN));
    }
}

/// A terminator that `b` completes begins in what `a` holds back.
proof fn lemma_end_begins_in_held(a: Seq<u8>, b: Seq<u8>, i: int)
    requires
        !has_end(a),
        ends_at(a + b, i),
    ensures
        a.len() - held_len(a) <= i,
{
    lemma_held_len_exists(a);
    if i + END_LEN <= a.len() {
        lemma_ends_at_prefix(a, b, i);
        lemma_has_end(a, i);
    } else if i < a.len() {
        let n = a.len() - i;
        assert(a.skip(i) =~= (a + b).subrange(i, i + END_LEN).take(n));
        assert(could_end(a, n));
    }
}

/// What `a + b` holds back is no longer than what `a` held back and `b`.
proof fn lemma_held_of_both(a: Seq<u8>, b: Seq<u8>)
    ensures
        held_len(a + b) <= held_len(a) + b.len(),
{
    lemma_held_len_exists(a);
    lemma_held_len_exists(a + b);
    let n = held_len(a + b);
    if n > b.len() {
        let k = n - b.len();
        assert(a.skip(a.len() - k) =~= (a + b).skip(a.len() + b.len() - n).take(k));
        assert(paste_end().take(n).take(k) =~= paste_end().take(k));
        assert(could_end(a, k));
    }
}

/// What is held back depends on the end of the bytes alone.
proof fn lemma_held_of_end(s: Seq<u8>, k: int)
    requires
        0 <= k <= s.len() - held_len(s),
    ensures
        held_len(s.skip(k)) == held_len(s),
{
    lemma_held_len_exists(s);
    let n = held_len(s);
    let t = s.skip(k);
    assert(t.skip(t.len() - n) =~= s.skip(s.len() - n));
    assert forall|m: int| n < m implies !could_end(t, m) by {
        if could_end(t, m) {
            assert(t.skip(t.len() - m) =~= s.skip(s.len() - m));
            assert(could_end(s, m));
        }
    }
    lemma_held_len(t, n);
}

/// A terminator that `b` completes stands where it stands behind what `a` held
/// back.
proof fn lemma_end_behind_held(a: Seq<u8>, b: Seq<u8>)
    requires
        !has_end(a),
    ensures
        ({
            let split = a.len() - held_len(a);
            let hb = a.skip(split) + b;
            &&& 0 <= split <= a.len()
            &&& hb == (a + b).skip(split)
            &&& has_end(hb) <==> has_end(a + b)
            &&& has_end(a + b) ==> {
                &&& first_ends_at(a + b, end_of(a + b))
                &&& split <= end_of(a + b)
                &&& end_of(hb) == end_of(a + b) - split
            }
        }),
{
    lemma_held_len_exists(a);
    let split = a.len() - held_len(a);
    let ab = a + b;
    let hb = a.skip(split) + b;
    assert(hb =~= ab.skip(split));
    if has_end(ab) {
        let i = end_of(ab);
        assert(first_ends_at(ab, i));
        lemma_end_begins_in_held(a, b, i);
        let j = i - split;
        lemma_ends_at_skip(ab, split, j);
        assert forall|l: int| 0 <= l < j implies !ends_at(hb, l) by {
            lemma_ends_at_skip(ab, split, l);
        }
        lemma_end_of(hb, j);
    } else if has_end(hb) {
        let j = end_of(hb);
        assert(first_ends_at(hb, j));
        lemma_ends_at_skip(ab, split, j);
        lemma_has_end(ab, split + j);
    }
}

/// An open paste goes on from what it held back as if all had come at once.
proof fn lemma_paste_resumes(a: Seq<u8>, b: Seq<u8>, payload: Seq<u8>)
    requires
        !has_end(a),
    ensures
        ({
            let split = a.len() - held_len(a);
            run(Pending { bytes: a + b, paste: Some(payload) }, false) == run(
                Pending { bytes: a.skip(split) + b, paste: Some(payload + a.take(split)) },
                false,
            )
        }),
{
    let split = a.len() - held_len(a);
    let ab = a + b;
    let hb = a.skip(split) + b;
    lemma_end_behind_held(a, b);
    if has_end(ab) {
        let i = end_of(ab);
        let j = i - split;
        assert(payload + ab.take(i) =~= payload + a.take(split) + hb.take(j));
        assert(ab.skip(i + END_LEN) =~= hb.skip(j + END_LEN));
    } else {
        lemma_held_of_both(a, b);
        lemma_held_len_exists(ab);
        lemma_held_of_end(ab, split);
        let n = held_len(ab);
        assert(ab.skip(ab.len() - n) =~= hb.skip(hb.len() - n));
        assert(payload + ab.take(ab.len() - n) =~= payload + a.take(split) + hb.take(
            hb.len() - n,
        ));
    }
}

/// Decoding `b` after what `p` left comes to decoding both at once.
pub open spec fn runs_in_two(p: Pending, b: Seq<u8>) -> bool {
    run(p.with(b), false) == run(run(p, false).rest.with(b), false).after(run(p, false).events)
}

proof fn lemma_after_twice(o: Outcome, first: Seq<EventView>, second: Seq<EventView>)
    ensures
        o.after(second).after(first) == o.after(first + second),
{
    assert(o.after(second).after(first) =~= o.after(first + second));
}

/// One step ahead of `next`, a stream in two pieces stays one.
proof fn lemma_step_in_two(p: Pending, b: Seq<u8>, next: Pending, events: Seq<EventView>)
    requires
        run(p, false) == run(next, false).after(events),
        run(p.with(b), false) == run(next.with(b), false).after(events),
        runs_in_two(next, b),
    ensures
        runs_in_two(p, b),
{
    let o = run(run(next, false).rest.with(b), false);
    lemma_after_twice(o, events, run(next, false).events);
}

/// The first step of decoding outside a paste.
proof fn lemma_first_step(p: Pending) -> (step: (Pending, Seq<EventView>))
    requires
        p.paste is None,
        !(item(p.bytes) is Incomplete),
    ensures
        step.0.bytes.len() < p.bytes.len(),
        run(p, false) == run(step.0, false).after(step.1),
        forall|b: Seq<u8>|
            run(#[trigger] p.with(b), false) == run(step.0.with(b), false).after(step.1),
{
    let a = p.bytes;
    lemma_front_bounds(a, false);
    let (n, paste, events) = match item(a) {
        Item::Consume(n, Some(k)) => (n, None, seq![EventView::Key(k)]),
        Item::Consume(n, None) => (n, None, Seq::empty()),
        Item::PasteStart(n) => (n, Some(Seq::<u8>::empty()), Seq::empty()),
        Item::Incomplete => (0, None, Seq::empty()),
    };
    let next = Pending { bytes: a.skip(n), paste };
    assert(run(p, false) =~= run(next, false).after(events));
    assert forall|b: Seq<u8>| run(#[trigger] p.with(b), false) == run(next.with(b), false).after(
        events,
    ) by {
        complete_items_are_final(a, b);
        assert((a + b).skip(n) =~= a.skip(n) + b);
        assert(run(p.with(b), false) =~= run(next.with(b), false).after(events));
    }
    (next, events)
}

/// Decoding may stop at any byte and go on later.
proof fn lemma_run_in_two(p: Pending, b: Seq<u8>)
    ensures
        runs_in_two(p, b),
    decreases p.bytes.len(),
{
    let a = p.bytes;
    if p.paste is Some {
        let payload = p.paste->Some_0;
        if has_end(a) {
            lemma_end_is_final(a, b);
            let end = end_of(a);
            let next = Pending { bytes: a.skip(end + END_LEN), paste: None };
            lemma_run_in_two(next, b);
            assert((a + b).skip(end + END_LEN) =~= next.bytes + b);
            assert((a + b).take(end) =~= a.take(end));
            lemma_step_in_two(p, b, next, seq![pasted(payload + a.take(end))]);
        } else {
            lemma_paste_resumes(a, b, payload);
            assert(runs_in_two(p, b)) by {
                let o = run(run(p, false).rest.with(b), false);
                assert(o.after(Seq::empty()) =~= o);
            }
        }
    } else if item(a) is Incomplete {
        assert(run(p, false).rest == p);
        assert(run(p.with(b), false).after(Seq::empty()) =~= run(p.with(b), false));
    } else {
        let (next, events) = lemma_first_step(p);
        lemma_run_in_two(next, b);
        lemma_step_in_two(p, b, next, events);
    }
}

/// Feeding `a` and then `b` reports the same events and leaves the same as
/// feeding both at once, unless `a` already overruns the cap on a paste.
pub proof fn feeding_in_two_pieces(p: Pending, a: Seq<u8>, b: Seq<u8>)
    requires
        !overruns(run(p.with(a), false)),
    ensures
        fed(p, a + b) == fed(fed(p, a).rest, b).after(fed(p, a).events),
{
    lemma_run_in_two(p.with(a), b);
    assert(p.with(a).with(b) =~= p.with(a + b));
    assert(fed(p, a + b) =~= fed(fed(p, a).rest, b).after(fed(p, a).events));
}

/// What feeding one chunk after the other comes to.
pub open spec fn fed_all(p: Pending, chunks: Seq<Seq<u8>>) -> Outcome
    decreases chunks.len(),
{
    if chunks.len() == 0 {
        Outcome { events: Seq::empty(), rest: p }
    } else {
        let before = fed_all(p, chunks.drop_last());
        fed(before.rest, chunks.last()).after(before.events)
    }
}

/// The chunks put together.
pub open spec fn joined(chunks: Seq<Seq<u8>>) -> Seq<u8>
    decreases chunks.len(),
{
    if chunks.len() == 0 {
        Seq::empty()
    } else {
        joined(chunks.drop_last()) + chunks.last()
    }
}

/// However a stream is cut into chunks, byte by byte included, the decoder
/// reports the same events and is left with the same, as long as no paste
/// overruns its cap before the last chunk.
pub proof fn chunks_do_not_matter(p: Pending, chunks: Seq<Seq<u8>>)
    requires
        chunks.len() > 0,
        forall|k: int|
            0 < k < chunks.len() ==> !overruns(
                run(p.with(#[trigger] joined(chunks.take(k))), false),
            ),
    ensures
        fed_all(p, chunks) == fed(p, joined(chunks)),
    decreases chunks.len(),
{
    let init = chunks.drop_last();
    if init.len() == 0 {
        assert(joined(chunks) =~= chunks.last());
        assert(fed_all(p, chunks) =~= fed(p, joined(chunks)));
    } else {
        assert forall|k: int| 0 < k < init.len() implies !overruns(
            run(p.with(#[trigger] joined(init.take(k))), false),
        ) by {
            assert(init.take(k) =~= chunks.take(k));
        }
        chunks_do_not_matter(p, init);
        assert(init =~= chunks.take(chunks.len() - 1));
        feeding_in_two_pieces(p, joined(init), chunks.last());
    }
}

/// The payload of an open paste never grows by more than the bytes fed.
pub proof fn lemma_payload_grows(p: Pending)
    ensures
        run(p, false).rest.paste is Some ==> run(p, false).rest.paste->Some_0.len()
            <= p.bytes.len() + (if p.paste is Some {
            p.paste->Some_0.len()
        } else {
            0
        }),
    decreases p.bytes.len(),
{
    if p.paste is Some {
        if has_end(p.bytes) {
            let end = end_of(p.bytes);
            assert(first_ends_at(p.bytes, end));
            lemma_payload_grows(Pending { bytes: p.bytes.skip(end + END_LEN), paste: None });
        } else {
            lemma_held_len_exists(p.bytes);
        }
    } else if !(item(p.bytes) is Incomplete) {
        lemma_front_bounds(p.bytes, false);
        match item(p.bytes) {
            Item::Consume(n, _) => {
                lemma_payload_grows(Pending { bytes: p.bytes.skip(n), paste: None });
            },
            Item::PasteStart(n) => {
                lemma_payload_grows(
                    Pending { bytes: p.bytes.skip(n), paste: Some(Seq::empty()) },
                );
            },
            Item::Incomplete => {},
        }
    }
}

/// A stream of no more bytes than the cap never overruns it, so that for such
/// a stream the chunks never matter.
pub proof fn short_streams_do_not_overrun(bytes: Seq<u8>)
    requires
        bytes.len() <= MAX_PASTE,
    ensures
        !overruns(run(Pending::idle().with(bytes), false)),
{
    lemma_payload_grows(Pending::idle().with(bytes));
}

// ---------------------------------------------------------------------------
// What is buffered

/// What a decoder buffers is bounded: no more undecoded bytes than the longest
/// sequence it waits for, and no more payload than the cap.
pub proof fn buffers_are_bounded(p: Pending)
    requires
        p.at_rest(),
    ensures
        p.bytes.len() <= MAX_SEQ + 2,
        p.paste is Some ==> p.bytes.len() < END_LEN && p.paste->Some_0.len() <= MAX_PASTE,
{
    if p.paste is Some {
        lemma_held_len_exists(p.bytes);
        if p.bytes.len() == END_LEN {
            assert(p.bytes.skip(0) =~= p.bytes);
            assert(p.bytes.subrange(0, END_LEN as int) =~= paste_end());
            lemma_has_end(p.bytes, 0);
        }
    } else if p.bytes.len() >= 2 && p.bytes[0] == ESC && p.bytes[1] == 0x5B {
        lemma_body_len_means(p.bytes.skip(2));
    }
}

/// At rest there is nothing to decode: feeding nothing changes nothing.
pub proof fn rest_is_stable(p: Pending)
    requires
        p.at_rest(),
    ensures
        fed(p, Seq::empty()) == (Outcome { events: Seq::empty(), rest: p }),
{
    assert(p.with(Seq::empty()) =~= p);
    if p.paste is Some {
        lemma_held_len_exists(p.bytes);
        let payload = p.paste->Some_0;
        assert(payload + p.bytes.take(0) =~= payload);
        assert(p.bytes.skip(0) =~= p.bytes);
        assert(run(p, false).rest.paste == p.paste);
    }
}

// ---------------------------------------------------------------------------
// Esc and flush

/// While more may come, the Esc key is reported only for an `ESC` that a
/// second one follows: a lone `ESC` is never guessed at.
pub proof fn esc_is_never_guessed(b: Seq<u8>, n: int, k: KeyEvent)
    requires
        item(b) == Item::Consume(n, Some(k)),
        k.key == Key::Esc,
    ensures
        b.len() >= 2,
        b[0] == ESC,
        b[1] == ESC,
        n == 1,
{
}

/// A lone `ESC` waits, and a flush makes it the Esc key.
pub proof fn lone_esc_resolves_on_flush()
    ensures
        fed(Pending::idle(), seq![ESC]) == (Outcome {
            events: Seq::empty(),
            rest: Pending { bytes: seq![ESC], paste: None },
        }),
        flushed(Pending { bytes: seq![ESC], paste: None }) == (Outcome {
            events: seq![EventView::Key(bare(Key::Esc))],
            rest: Pending::idle(),
        }),
{
    assert(Pending::idle().with(seq![ESC]).bytes =~= seq![ESC]);
    let p = Pending { bytes: seq![ESC], paste: None };
    assert(p.bytes.skip(1) =~= Seq::<u8>::empty());
    let next = Pending { bytes: p.bytes.skip(1), paste: None };
    assert(run(next, true) == (Outcome { events: Seq::empty(), rest: next }));
    assert(flushed(p) =~= (Outcome {
        events: seq![EventView::Key(bare(Key::Esc))],
        rest: Pending::idle(),
    }));
}

/// A flush decodes everything that is not payload of an open paste.
proof fn lemma_flush_decodes_all(p: Pending)
    ensures
        run(p, true).rest.paste is None ==> run(p, true).rest == Pending::idle(),
    decreases p.bytes.len(),
{
    if p.paste is Some {
        if has_end(p.bytes) {
            let end = end_of(p.bytes);
            assert(first_ends_at(p.bytes, end));
            lemma_flush_decodes_all(Pending { bytes: p.bytes.skip(end + END_LEN), paste: None });
        }
    } else {
        lemma_front_bounds(p.bytes, true);
        match front(p.bytes, true) {
            Item::Consume(n, _) => {
                lemma_flush_decodes_all(Pending { bytes: p.bytes.skip(n), paste: None });
            },
            Item::PasteStart(n) => {
                lemma_flush_decodes_all(
                    Pending { bytes: p.bytes.skip(n), paste: Some(Seq::empty()) },
                );
            },
            Item::Incomplete => {
                assert(p =~= Pending::idle());
            },
        }
    }
}

/// A flush resolves all there is: nothing stays buffered, no paste stays open,
/// and a second flush finds nothing to report.
pub proof fn flush_settles(p: Pending)
    ensures
        flushed(p).rest == Pending::idle(),
        flushed(Pending::idle()) == (Outcome { events: Seq::empty(), rest: Pending::idle() }),
{
    lemma_flush_decodes_all(p);
}

/// A character that is short of bytes when a flush comes goes out as U+FFFD,
/// byte by byte, as malformed bytes do.
pub proof fn flushed_partial_char_is_malformed(b: Seq<u8>)
    requires
        is_partial_char(b),
    ensures
        flushed(Pending { bytes: b, paste: None }) == flushed(
            Pending { bytes: b.skip(1), paste: None },
        ).after(seq![EventView::Key(bare(Key::Char(REPLACEMENT)))]),
{
    let p = Pending { bytes: b, paste: None };
    let next = Pending { bytes: b.skip(1), paste: None };
    let events = seq![EventView::Key(bare(Key::Char(REPLACEMENT)))];
    assert(run(p, true) == run(next, true).after(events));
    assert(flushed(p) =~= flushed(next).after(events));
}

/// Whatever is fed, the decoder comes to rest: nothing that could be decoded
/// stays behind.
pub proof fn feeding_comes_to_rest(p: Pending, bytes: Seq<u8>)
    ensures
        fed(p, bytes).rest.at_rest(),
{
    lemma_run_comes_to_rest(p.with(bytes));
    assert(Pending::idle().at_rest());
}

proof fn lemma_run_comes_to_rest(p: Pending)
    ensures
        !overruns(run(p, false)) ==> run(p, false).rest.at_rest(),
    decreases p.bytes.len(),
{
    if p.paste is Some {
        if has_end(p.bytes) {
            let end = end_of(p.bytes);
            assert(first_ends_at(p.bytes, end));
            lemma_run_comes_to_rest(Pending { bytes: p.bytes.skip(end + END_LEN), paste: None });
        } else {
            lemma_held_is_unfinished(p.bytes);
        }
    } else if !(item(p.bytes) is Incomplete) {
        let (next, events) = lemma_first_step(p);
        lemma_run_comes_to_rest(next);
    }
}

/// An `ESC` that waits at rest is resolved by a flush: something is reported,
/// and outside a paste it is the Esc key first.
pub proof fn waiting_esc_is_reported_on_flush(p: Pending)
    requires
        p.at_rest(),
        p.waits_on_esc(),
    ensures
        flushed(p).events.len() > 0,
        p.paste is None ==> flushed(p).events[0] == EventView::Key(bare(Key::Esc)),
{
}

// ---------------------------------------------------------------------------
// Characters

/// A complete item at the front is reported, and the rest is decoded as if
/// nothing had come before.
pub proof fn items_are_independent(x: Seq<u8>, y: Seq<u8>, key: Option<KeyEvent>)
    requires
        item(x) == Item::Consume(x.len() as int, key),
        x.len() > 0,
    ensures
        fed(Pending::idle(), x + y) == fed(Pending::idle(), y).after(
            match key {
                Some(k) => seq![EventView::Key(k)],
                None => Seq::empty(),
            },
        ),
{
    complete_items_are_final(x, y);
    let p = Pending::idle();
    assert(p.with(x + y).bytes =~= x + y);
    assert(p.with(y).bytes =~= y);
    assert((x + y).skip(x.len() as int) =~= y);
    let events = match key {
        Some(k) => seq![EventView::Key(k)],
        None => Seq::empty(),
    };
    let o = run(p.with(y), false);
    assert(run(p.with(x + y), false) == o.after(events));
    assert(fed(p, x + y) =~= fed(p, y).after(events));
}

/// A character that is not an ASCII control character.
pub open spec fn is_printable(c: char) -> bool {
    c as u32 >= 0x20 && c as u32 != 0x7F
}

/// The UTF-8 encoding of a printable character is that character's key.
pub proof fn lemma_char_item(c: char)
    requires
        is_printable(c),
    ensures
        plain_item(encode_scalar(c as u32)) == Item::Consume(
            encode_scalar(c as u32).len() as int,
            Some(bare(Key::Char(c))),
        ),
        encode_scalar(c as u32).len() > 0,
        encode_scalar(c as u32)[0] != ESC,
        encode_scalar(c as u32)[0] < 0x80 ==> encode_scalar(c as u32)[0] == c as u32,
{
    let one = seq![c];
    let v = c as u32;
    let b = encode_scalar(v);
    encode_utf8_first_scalar(one);
    assert(encode_utf8(one) =~= b) by {
        reveal_with_fuel(encode_utf8, 2);
        assert(one.drop_first() =~= Seq::<char>::empty());
    }
    char_is_scalar(c);
    char_u32_cast(c, v);
    if has_width_1_encoding(v) {
        assert((v & 0x7F) as u8 == v) by (bit_vector)
            requires
                v <= 0x7F,
        ;
        assert(b[0] as char == c);
    } else {
        assert(b.len() > 1);
        assert(char_width(b[0]) == b.len());
    }
}

/// The key presses that type `text`.
pub open spec fn typed(text: Seq<char>) -> Seq<EventView>
    decreases text.len(),
{
    if text.len() == 0 {
        Seq::empty()
    } else {
        seq![EventView::Key(bare(Key::Char(text[0])))] + typed(text.drop_first())
    }
}

/// Text arrives as it was typed: fed the UTF-8 encoding of printable
/// characters, the decoder reports each of them in order and holds nothing
/// back.
pub proof fn text_decodes_to_its_characters(text: Seq<char>)
    requires
        forall|i: int| 0 <= i < text.len() ==> is_printable(#[trigger] text[i]),
    ensures
        fed(Pending::idle(), encode_utf8(text)) == (Outcome {
            events: typed(text),
            rest: Pending::idle(),
        }),
    decreases text.len(),
{
    let p = Pending::idle();
    if text.len() == 0 {
        assert(p.with(encode_utf8(text)) =~= p);
    } else {
        let c = text[0];
        let rest = text.drop_first();
        lemma_char_item(c);
        assert forall|i: int| 0 <= i < rest.len() implies is_printable(#[trigger] rest[i]) by {
            assert(rest[i] == text[i + 1]);
        }
        text_decodes_to_its_characters(rest);
        items_are_independent(
            encode_scalar(c as u32),
            encode_utf8(rest),
            Some(bare(Key::Char(c))),
        );
    }
}

/// An `ESC` before a printable character other than `[` and `O` is alt held
/// with it, whatever follows.
pub proof fn esc_prefix_is_alt(c: char, more: Seq<u8>)
    requires
        is_printable(c),
        c != '[',
        c != 'O',
    ensures
        fed(Pending::idle(), seq![ESC] + encode_scalar(c as u32) + more) == fed(
            Pending::idle(),
            more,
        ).after(seq![EventView::Key(add_alt(bare(Key::Char(c))))]),
{
    lemma_char_item(c);
    let x = seq![ESC] + encode_scalar(c as u32);
    assert(x.skip(1) =~= encode_scalar(c as u32));
    assert(x[1] == encode_scalar(c as u32)[0]);
    items_are_independent(x, more, Some(add_alt(bare(Key::Char(c)))));
}

/// Bytes that are no text never desync the stream: one that cannot start a
/// character, or starts one that is malformed, is reported as U+FFFD by
/// itself, and decoding goes on with the very next byte.
pub proof fn malformed_bytes_do_not_desync(b: Seq<u8>)
    requires
        b.len() > 0,
        b[0] != ESC,
        char_width(b[0]) == 0 || 1 < char_width(b[0]) <= b.len() && !valid_first_scalar(b),
    ensures
        fed(Pending::idle(), b) == fed(Pending::idle(), b.skip(1)).after(
            seq![EventView::Key(bare(Key::Char(REPLACEMENT)))],
        ),
{
    let p = Pending::idle();
    assert(p.with(b).bytes =~= b);
    assert(p.with(b.skip(1)).bytes =~= b.skip(1));
    let events = seq![EventView::Key(bare(Key::Char(REPLACEMENT)))];
    assert(run(p.with(b), false) == run(p.with(b.skip(1)), false).after(events));
    assert(fed(p, b) =~= fed(p, b.skip(1)).after(events));
}

// ---------------------------------------------------------------------------
// What is reported

/// What an event of a decoder may be: pasted text or a key, among keys only
/// the function keys from 1 to 12, and among characters none that is an ASCII
/// control character and none with shift, which the character itself shows.
pub open spec fn is_input(e: EventView) -> bool {
    match e {
        EventView::Key(k) => is_key_press(k),
        EventView::Paste(_) => true,
        EventView::Resize { .. } => false,
    }
}

/// What a key of a decoder may be.
pub open spec fn is_key_press(k: KeyEvent) -> bool {
    match k.key {
        Key::F(n) => 1 <= n <= 12,
        Key::Char(c) => is_printable(c) && !k.mods.shift,
        _ => true,
    }
}

/// All of `events` may be events of a decoder.
pub open spec fn all_input(events: Seq<EventView>) -> bool {
    forall|i: int| 0 <= i < events.len() ==> is_input(#[trigger] events[i])
}

proof fn lemma_plain_key(b: Seq<u8>)
    requires
        b.len() > 0,
        b[0] != ESC,
    ensures
        plain_item(b) matches Item::Consume(_, Some(k)) ==> is_key_press(k),
{
    if char_width(b[0]) > 1 && valid_first_scalar(b) {
        let v = decode_first_scalar(b);
        assert(v >= 0x80);
        if char_width(b[0]) == 2 {
            lemma_two_bytes_bound(b[0], b[1]);
        } else if char_width(b[0]) == 3 {
            lemma_three_bytes_bound(b[0], b[1], b[2]);
        }
        lemma_scalar_is_printable(v);
    }
}

proof fn lemma_two_bytes_bound(a: u8, b: u8)
    by (bit_vector)
    ensures
        codepoint_width_2(a, b) <= 0x7FF,
{
}

proof fn lemma_three_bytes_bound(a: u8, b: u8, c: u8)
    by (bit_vector)
    ensures
        codepoint_width_3(a, b, c) <= 0xFFFF,
{
}

proof fn lemma_scalar_is_printable(v: u32)
    requires
        0x80 <= v <= 0x10FFFF,
        !(0xD800 <= v <= 0xDFFF),
    ensures
        is_printable(v as char),
{
}

proof fn lemma_front_key(b: Seq<u8>, flush: bool)
    ensures
        front(b, flush) matches Item::Consume(_, Some(k)) ==> is_key_press(k),
{
    if b.len() > 0 && b[0] != ESC {
        lemma_plain_key(b);
    } else if b.len() > 1 && b[1] != ESC {
        lemma_plain_key(b.skip(1));
    }
}

proof fn lemma_run_reports_input(p: Pending, flush: bool)
    ensures
        all_input(run(p, flush).events),
    decreases p.bytes.len(),
{
    if p.paste is Some {
        if has_end(p.bytes) {
            let end = end_of(p.bytes);
            assert(first_ends_at(p.bytes, end));
            lemma_run_reports_input(
                Pending { bytes: p.bytes.skip(end + END_LEN), paste: None },
                flush,
            );
        }
    } else {
        lemma_front_bounds(p.bytes, flush);
        lemma_front_key(p.bytes, flush);
        match front(p.bytes, flush) {
            Item::Consume(n, _) => {
                lemma_run_reports_input(Pending { bytes: p.bytes.skip(n), paste: None }, flush);
            },
            Item::PasteStart(n) => {
                lemma_run_reports_input(
                    Pending { bytes: p.bytes.skip(n), paste: Some(Seq::empty()) },
                    flush,
                );
            },
            Item::Incomplete => {},
        }
    }
}

/// A decoder never reports a resize, its function keys are F1 to F12, and a
/// character is reported as typed: no control character, and no shift beside
/// it.
pub proof fn reported_events_are_input(p: Pending, bytes: Seq<u8>)
    ensures
        all_input(fed(p, bytes).events),
        all_input(flushed(p).events),
{
    lemma_run_reports_input(p.with(bytes), false);
    lemma_run_reports_input(p, true);
}

// ---------------------------------------------------------------------------
// Control sequences

/// The control sequence with parameter bytes `body` that ends in `last`.
pub open spec fn csi(body: Seq<u8>, last: u8) -> Seq<u8> {
    seq![ESC, 0x5B] + body + seq![last]
}

/// `p` and `m`, as the parameters of a control sequence.
pub open spec fn two_params(p: u16, m: u16) -> Seq<u8> {
    decimal(p as nat) + seq![0x3Bu8] + decimal(m as nat)
}

/// A control sequence that is not too long is one item.
pub proof fn lemma_csi_item(body: Seq<u8>, last: u8)
    requires
        body.len() <= MAX_SEQ,
        forall|i: int| 0 <= i < body.len() ==> !is_final(#[trigger] body[i]),
        is_final(last),
    ensures
        last == 0x7E && param(body, 0) == 200 ==> item(csi(body, last)) == Item::PasteStart(
            csi(body, last).len() as int,
        ),
        !(last == 0x7E && param(body, 0) == 200) ==> item(csi(body, last)) == Item::Consume(
            csi(body, last).len() as int,
            csi_key(body, last),
        ),
{
    let b = csi(body, last);
    let rest = b.skip(2);
    assert(rest =~= body + seq![last]);
    assert forall|i: int| 0 <= i < body.len() implies !is_final(#[trigger] rest[i]) by {
        assert(rest[i] == body[i]);
    }
    lemma_body_len(rest, body.len() as int);
    assert(rest.take(body.len() as int) =~= body);
}

/// A number of a parameter has at most five digits.
pub proof fn lemma_short_decimal(n: nat)
    requires
        n <= u16::MAX,
    ensures
        decimal(n).len() <= 5,
{
    reveal_with_fuel(decimal, 6);
}

/// A run of digits is one field.
pub proof fn lemma_one_field(a: Seq<u8>)
    requires
        forall|i: int| 0 <= i < a.len() ==> is_digit(#[trigger] a[i]),
    ensures
        fields(a) == seq![a],
{
    lemma_field_len(a, a.len() as int);
}

/// A `;` behind a run of digits ends the first field.
pub proof fn lemma_next_field(a: Seq<u8>, b: Seq<u8>)
    requires
        forall|i: int| 0 <= i < a.len() ==> is_digit(#[trigger] a[i]),
    ensures
        fields(a + seq![0x3Bu8] + b) == seq![a] + fields(b),
{
    let s = a + seq![0x3Bu8] + b;
    let n = a.len() as int;
    assert forall|i: int| 0 <= i < n implies #[trigger] s[i] != 0x3B by {
        assert(s[i] == a[i]);
    }
    assert(s[n] == 0x3B);
    lemma_field_len(s, n);
    assert(s.take(n) =~= a);
    assert(s.skip(n + 1) =~= b);
}

/// Parameters read back as they were written.
pub proof fn params_read_back(p: u16, m: u16)
    ensures
        params(decimal(p as nat)) == seq![p],
        params(two_params(p, m)) == seq![p, m],
{
    let a = decimal(p as nat);
    let b = decimal(m as nat);
    decimal_reads_back(p as nat);
    decimal_reads_back(m as nat);
    lemma_one_field(a);
    lemma_one_field(b);
    lemma_next_field(a, b);
    assert(fields(two_params(p, m)) =~= seq![a, b]);
    assert(params(a) =~= seq![p]);
    assert(params(two_params(p, m)) =~= seq![p, m]);
}

/// No digit and no `;` ends a control sequence.
pub proof fn lemma_params_not_final(p: u16, m: u16)
    ensures
        two_params(p, m).len() <= MAX_SEQ,
        forall|i: int|
            0 <= i < two_params(p, m).len() ==> !is_final(#[trigger] two_params(p, m)[i]),
        decimal(p as nat).len() <= MAX_SEQ,
        forall|i: int|
            0 <= i < decimal(p as nat).len() ==> !is_final(#[trigger] decimal(p as nat)[i]),
{
    let a = decimal(p as nat);
    let b = decimal(m as nat);
    decimal_reads_back(p as nat);
    decimal_reads_back(m as nat);
    lemma_short_decimal(p as nat);
    lemma_short_decimal(m as nat);
    assert forall|i: int| 0 <= i < a.len() implies !is_final(#[trigger] a[i]) by {
        assert(is_digit(a[i]));
    }
    assert forall|i: int| 0 <= i < two_params(p, m).len() implies !is_final(
        #[trigger] two_params(p, m)[i],
    ) by {
        if i < a.len() {
            assert(two_params(p, m)[i] == a[i]);
        } else if i > a.len() {
            assert(two_params(p, m)[i] == b[i - a.len() - 1]);
            assert(is_digit(b[i - a.len() - 1]));
        }
    }
}

/// The xterm spelling of a key with modifiers, `ESC [ p ; m last`, reports the
/// key that `p` and `last` name with the modifiers that `m` names, whatever
/// follows.
pub proof fn modified_keys_decode(p: u16, m: u16, last: u8, more: Seq<u8>)
    requires
        is_final(last),
        last != 0x5A,
        !(last == 0x7E && p == 200),
    ensures
        fed(Pending::idle(), csi(two_params(p, m), last) + more) == fed(
            Pending::idle(),
            more,
        ).after(
            match modified(
                if last == 0x7E {
                    tilde_key(p)
                } else {
                    cursor_key(last)
                },
                mods_of(m),
            ) {
                Some(k) => seq![EventView::Key(k)],
                None => Seq::empty(),
            },
        ),
{
    params_read_back(p, m);
    lemma_params_not_final(p, m);
    let body = two_params(p, m);
    assert(param(body, 0) == p);
    assert(param(body, 1) == m);
    lemma_csi_item(body, last);
    items_are_independent(csi(body, last), more, csi_key(body, last));
}

/// The plain spelling of an editing or function key, `ESC [ p ~`, reports the
/// key that `p` names without modifiers, whatever follows.
pub proof fn numbered_keys_decode(p: u16, more: Seq<u8>)
    requires
        p != 200,
    ensures
        fed(Pending::idle(), csi(decimal(p as nat), 0x7E) + more) == fed(
            Pending::idle(),
            more,
        ).after(
            match modified(tilde_key(p), no_mods()) {
                Some(k) => seq![EventView::Key(k)],
                None => Seq::empty(),
            },
        ),
{
    params_read_back(p, 0);
    lemma_params_not_final(p, 0);
    let body = decimal(p as nat);
    assert(param(body, 0) == p);
    assert(param(body, 1) == 0);
    lemma_csi_item(body, 0x7E);
    items_are_independent(csi(body, 0x7E), more, csi_key(body, 0x7E));
}

/// The first four function keys have two spellings, `ESC O P` and so on and
/// `ESC [ 1 1 ~` and so on, which report the same key.
pub proof fn function_keys_have_two_spellings(n: u8)
    requires
        1 <= n <= 4,
    ensures
        fed(Pending::idle(), seq![ESC, 0x4F, (0x4F + n) as u8]) == fed(
            Pending::idle(),
            csi(decimal((10 + n) as nat), 0x7E),
        ),
        fed(Pending::idle(), seq![ESC, 0x4F, (0x4F + n) as u8]).events == seq![
            EventView::Key(bare(Key::F(n))),
        ],
{
    let none = Seq::<u8>::empty();
    let ss3 = seq![ESC, 0x4F, (0x4F + n) as u8];
    items_are_independent(ss3, none, Some(bare(Key::F(n))));
    assert(ss3 + none =~= ss3);
    numbered_keys_decode((10 + n) as u16, none);
    let long = csi(decimal((10 + n) as nat), 0x7E);
    assert(long + none =~= long);
    assert(Pending::idle().with(none) =~= Pending::idle());
    assert(fed(Pending::idle(), none).events =~= Seq::empty());
    assert(fed(Pending::idle(), ss3).events =~= seq![EventView::Key(bare(Key::F(n)))]);
}

// ---------------------------------------------------------------------------
// Bracketed paste

/// What opens a bracketed paste, `ESC[200~`.
pub open spec fn paste_start() -> Seq<u8> {
    csi(decimal(200), 0x7E)
}

/// After the opening everything is payload.
proof fn lemma_paste_opens(rest: Seq<u8>)
    ensures
        run(Pending::idle().with(paste_start() + rest), false) == run(
            Pending { bytes: rest, paste: Some(Seq::empty()) },
            false,
        ),
{
    params_read_back(200, 0);
    lemma_params_not_final(200, 0);
    let body = decimal(200);
    assert(param(body, 0) == 200);
    lemma_csi_item(body, 0x7E);
    let x = paste_start();
    complete_items_are_final(x, rest);
    assert(Pending::idle().with(x + rest).bytes =~= x + rest);
    assert((x + rest).skip(x.len() as int) =~= rest);
}

/// `ESC` is the first byte of the terminator and no other.
proof fn lemma_no_overlap(s: Seq<u8>, j: int, n: int)
    requires
        0 <= j < n < j + END_LEN,
        n < s.len(),
        s[n] == ESC,
    ensures
        !ends_at(s, j),
{
    if ends_at(s, j) {
        assert(s.subrange(j, j + END_LEN)[n - j] == s[n]);
        assert(paste_end()[n - j] != ESC);
    }
}

/// A payload without a terminator ends where the terminator after it stands.
proof fn lemma_end_after(payload: Seq<u8>, more: Seq<u8>)
    requires
        !has_end(payload),
    ensures
        has_end(payload + paste_end() + more),
        end_of(payload + paste_end() + more) == payload.len(),
{
    let s = payload + paste_end() + more;
    let n = payload.len() as int;
    assert(s =~= payload + (paste_end() + more));
    assert(s[n] == ESC);
    assert(s.subrange(n, n + END_LEN) =~= paste_end());
    assert forall|j: int| 0 <= j < n implies !ends_at(s, j) by {
        if j + END_LEN <= n {
            lemma_ends_at_prefix(payload, paste_end() + more, j);
            if ends_at(s, j) {
                lemma_has_end(payload, j);
            }
        } else {
            lemma_no_overlap(s, j, n);
        }
    }
    lemma_end_of(s, n);
}

/// A bracketed paste is reported as one event with the whole payload, and
/// escape sequences in it are payload too. Decoding goes on behind the
/// terminator as if nothing had come before.
pub proof fn paste_arrives_whole(payload: Seq<u8>, more: Seq<u8>)
    requires
        !has_end(payload),
    ensures
        fed(Pending::idle(), paste_start() + payload + paste_end() + more) == fed(
            Pending::idle(),
            more,
        ).after(seq![pasted(payload)]),
{
    let rest = payload + paste_end() + more;
    assert(paste_start() + payload + paste_end() + more =~= paste_start() + rest);
    lemma_paste_opens(rest);
    lemma_end_after(payload, more);
    let p = Pending { bytes: rest, paste: Some(Seq::empty()) };
    let next = Pending { bytes: more, paste: None };
    assert(rest.skip(payload.len() + END_LEN) =~= more);
    assert(Seq::<u8>::empty() + rest.take(payload.len() as int) =~= payload);
    assert(run(p, false) == run(next, false).after(seq![pasted(payload)]));
    assert(Pending::idle().with(more) =~= next);
    assert(fed(Pending::idle(), paste_start() + rest) =~= fed(Pending::idle(), more).after(
        seq![pasted(payload)],
    ));
}

/// Pasted text arrives character by character as it was.
pub proof fn pasted_text_is_unchanged(text: Seq<char>, more: Seq<u8>)
    requires
        !has_end(encode_utf8(text)),
    ensures
        fed(Pending::idle(), paste_start() + encode_utf8(text) + paste_end() + more) == fed(
            Pending::idle(),
            more,
        ).after(seq![EventView::Paste(text)]),
{
    encode_utf8_valid_utf8(text);
    encode_utf8_decode_utf8(text);
    paste_arrives_whole(encode_utf8(text), more);
}

/// What a paste without a terminator comes to before it is closed.
proof fn lemma_open_paste(payload: Seq<u8>)
    requires
        !has_end(payload),
    ensures
        ({
            let o = run(Pending::idle().with(paste_start() + payload), false);
            &&& o.events == Seq::<EventView>::empty()
            &&& o.rest.paste is Some
            &&& o.rest.paste->Some_0 + o.rest.bytes == payload
            &&& o.rest.paste->Some_0.len() == payload.len() - held_len(payload)
            &&& !has_end(o.rest.bytes)
            &&& held_len(o.rest.bytes) == o.rest.bytes.len()
            &&& 0 <= held_len(payload) <= payload.len()
        }),
{
    lemma_paste_opens(payload);
    lemma_held_is_unfinished(payload);
    let split = payload.len() - held_len(payload);
    assert(Seq::<u8>::empty() + payload.take(split) + payload.skip(split) =~= payload);
}

/// A paste that is never terminated is delivered as it is by a flush.
pub proof fn unterminated_paste_is_delivered(payload: Seq<u8>)
    requires
        !has_end(payload),
        payload.len() - held_len(payload) <= MAX_PASTE,
    ensures
        fed(Pending::idle(), paste_start() + payload).events == Seq::<EventView>::empty(),
        flushed(fed(Pending::idle(), paste_start() + payload).rest) == (Outcome {
            events: seq![pasted(payload)],
            rest: Pending::idle(),
        }),
{
    lemma_open_paste(payload);
    let p = fed(Pending::idle(), paste_start() + payload).rest;
    let o = run(p, true);
    assert(p.bytes.skip(0) =~= p.bytes);
    assert(p.paste->Some_0 + p.bytes.take(0) =~= p.paste->Some_0);
    assert(o.rest =~= p);
    assert(flushed(p) =~= (Outcome { events: seq![pasted(payload)], rest: Pending::idle() }));
}

/// A paste that runs on past its cap is delivered at once, so that no stream
/// can make the decoder buffer without bound.
pub proof fn runaway_paste_is_delivered(payload: Seq<u8>)
    requires
        !has_end(payload),
        payload.len() - held_len(payload) > MAX_PASTE,
    ensures
        fed(Pending::idle(), paste_start() + payload) == (Outcome {
            events: seq![pasted(payload)],
            rest: Pending::idle(),
        }),
{
    lemma_open_paste(payload);
    assert(fed(Pending::idle(), paste_start() + payload) =~= (Outcome {
        events: seq![pasted(payload)],
        rest: Pending::idle(),
    }));
}

} // verus!
