//! What holds of the console's record stream: it may be read in pieces, and
//! what is typed comes out as typed.

use vstd::prelude::*;
use vstd::utf8::encode_utf8;

use crate::console::{
    carried_after, carried_after_all, key_units, lemma_empty_batch, record_bytes, stream_bytes,
    Carried, InputRecord, KeyRecord,
};
use crate::decode::{fed, Outcome, Pending};
use crate::decode_laws::{is_printable, text_decodes_to_its_characters, typed};
use crate::mouse::{buttons_of, mouse_report, MouseRecord};
use crate::utf16::{
    batch_bytes, batch_pending, batches_do_not_matter, console_text_becomes_utf8, encode_utf16,
    lemma_char_range,
};

verus! {

/// It does not matter how many records a read brings: two reads give the same
/// bytes and carry the same on as both in one.
pub proof fn console_reads_do_not_matter(c: Carried, a: Seq<InputRecord>, b: Seq<InputRecord>)
    ensures
        stream_bytes(c, a + b) == stream_bytes(c, a) + stream_bytes(carried_after_all(c, a), b),
        carried_after_all(c, a + b) == carried_after_all(carried_after_all(c, a), b),
    decreases b.len(),
{
    if b.len() == 0 {
        assert(a + b =~= a);
        assert(stream_bytes(c, a) + stream_bytes(carried_after_all(c, a), b) =~= stream_bytes(
            c,
            a,
        ));
    } else {
        console_reads_do_not_matter(c, a, b.drop_last());
        assert((a + b).drop_last() =~= a + b.drop_last());
        assert(stream_bytes(c, a + b) =~= stream_bytes(c, a) + stream_bytes(
            carried_after_all(c, a),
            b,
        ));
    }
}

/// The records of keys that are pressed once each, by the units they stand
/// for.
pub open spec fn presses(units: Seq<u16>) -> Seq<InputRecord> {
    units.map_values(
        |u: u16| InputRecord::Key(KeyRecord { key_down: 1, repeat_count: 1, unicode_char: u }),
    )
}

/// Keys pressed one after the other come to the batch of their units: what they
/// add to the stream is one text, surrogates held from before included.
pub proof fn presses_are_a_batch(c: Carried, units: Seq<u16>)
    requires
        c.valid(),
        forall|i: int| 0 <= i < units.len() ==> #[trigger] units[i] != 0,
    ensures
        stream_bytes(c, presses(units)) == batch_bytes(c.surrogate, units),
        carried_after_all(c, presses(units)) == (Carried {
            surrogate: batch_pending(c.surrogate, units),
            buttons: c.buttons,
        }),
    decreases units.len(),
{
    if units.len() == 0 {
        assert(units =~= Seq::<u16>::empty());
        lemma_empty_batch(c.surrogate);
        assert(presses(units) =~= Seq::<InputRecord>::empty());
    } else {
        let init = units.drop_last();
        let last = units.last();
        assert forall|i: int| 0 <= i < init.len() implies #[trigger] init[i] != 0 by {
            assert(init[i] == units[i]);
        }
        presses_are_a_batch(c, init);
        assert(presses(units).drop_last() =~= presses(init));
        let key = KeyRecord { key_down: 1, repeat_count: 1, unicode_char: last };
        assert(presses(units).last() == InputRecord::Key(key));
        assert(last != 0) by {
            assert(units[units.len() - 1] != 0);
        }
        assert(key_units(key) =~= seq![last]);
        assert(init + seq![last] =~= units);
        batches_do_not_matter(c.surrogate, init, seq![last]);
    }
}

/// A text without NUL has no unit 0.
proof fn lemma_units_are_set(text: Seq<char>)
    requires
        forall|i: int| 0 <= i < text.len() ==> is_printable(#[trigger] text[i]),
    ensures
        forall|i: int|
            0 <= i < encode_utf16(text).len() ==> #[trigger] encode_utf16(text)[i] != 0,
    decreases text.len(),
{
    if text.len() > 0 {
        let rest = text.drop_first();
        assert forall|i: int| 0 <= i < rest.len() implies is_printable(#[trigger] rest[i]) by {
            assert(rest[i] == text[i + 1]);
        }
        lemma_units_are_set(rest);
        assert(is_printable(text[0]));
        lemma_char_range(text[0]);
        let v = text[0] as int;
        let own = if v < 0x10000 {
            seq![v as u16]
        } else {
            seq![
                (0xD800 + (v - 0x10000) / 0x400) as u16,
                (0xDC00 + (v - 0x10000) % 0x400) as u16,
            ]
        };
        assert(encode_utf16(text) == own + encode_utf16(rest));
        assert forall|i: int| 0 <= i < encode_utf16(text).len() implies #[trigger] encode_utf16(
            text,
        )[i] != 0 by {
            if i < own.len() {
                assert(encode_utf16(text)[i] == own[i]);
                assert(own[0] != 0);
            } else {
                assert(encode_utf16(text)[i] == encode_utf16(rest)[i - own.len()]);
            }
        }
    }
}

/// Text typed at the console, pairs of surrogates included, comes out as its
/// UTF-8 encoding, and the decoder reports each character.
pub proof fn typing_at_the_console_arrives(text: Seq<char>, buttons: u32)
    requires
        forall|i: int| 0 <= i < text.len() ==> is_printable(#[trigger] text[i]),
    ensures
        ({
            let bytes = stream_bytes(
                Carried { surrogate: None, buttons },
                presses(encode_utf16(text)),
            );
            &&& bytes == encode_utf8(text)
            &&& fed(Pending::idle(), bytes) == (Outcome {
                events: typed(text),
                rest: Pending::idle(),
            })
        }),
{
    lemma_units_are_set(text);
    presses_are_a_batch(Carried { surrogate: None, buttons }, encode_utf16(text));
    console_text_becomes_utf8(text);
    text_decodes_to_its_characters(text);
}

/// What is carried on is valid if what was carried is.
proof fn lemma_carried_is_valid(c: Carried, records: Seq<InputRecord>)
    requires
        c.valid(),
    ensures
        carried_after_all(c, records).valid(),
    decreases records.len(),
{
    if records.len() > 0 {
        lemma_carried_is_valid(c, records.drop_last());
    }
}

/// One record among others: what it adds stands between what those before and
/// those behind add.
proof fn lemma_one_among_others(
    c: Carried,
    a: Seq<InputRecord>,
    rec: InputRecord,
    b: Seq<InputRecord>,
)
    ensures
        ({
            let now = carried_after_all(c, a);
            let next = carried_after_all(now, seq![rec]);
            &&& stream_bytes(c, a + seq![rec] + b) == stream_bytes(c, a) + stream_bytes(
                now,
                seq![rec],
            ) + stream_bytes(next, b)
            &&& carried_after_all(c, a + seq![rec] + b) == carried_after_all(next, b)
        }),
{
    console_reads_do_not_matter(c, a, seq![rec]);
    console_reads_do_not_matter(c, a + seq![rec], b);
}

proof fn lemma_one_record(c: Carried, rec: InputRecord)
    ensures
        stream_bytes(c, seq![rec]) == record_bytes(c, rec),
        carried_after_all(c, seq![rec]) == carried_after(c, rec),
{
    reveal_with_fuel(stream_bytes, 2);
    reveal_with_fuel(carried_after_all, 2);
    assert(seq![rec].drop_last() =~= Seq::<InputRecord>::empty());
    assert(stream_bytes(c, seq![rec]) =~= record_bytes(c, rec));
}

/// Every mouse record, wheel and drag included, adds its report to the stream,
/// whole and in its place among the others, and nothing else. It leaves half a
/// pair that is held back alone, and its buttons count from then on.
pub proof fn mouse_reports_stand_in_the_stream(
    c: Carried,
    a: Seq<InputRecord>,
    mouse: MouseRecord,
    b: Seq<InputRecord>,
)
    ensures
        ({
            let now = carried_after_all(c, a);
            let next = Carried { surrogate: now.surrogate, buttons: mouse.button_state & 7 };
            let all = a + seq![InputRecord::Mouse(mouse)] + b;
            &&& carried_after_all(c, all) == carried_after_all(next, b)
            &&& mouse_report(mouse, now.buttons) matches Some(report) ==> stream_bytes(c, all)
                == stream_bytes(c, a) + report + stream_bytes(next, b)
            &&& mouse_report(mouse, now.buttons) is None ==> stream_bytes(c, all) == stream_bytes(
                c,
                a,
            ) + stream_bytes(next, b)
        }),
{
    let rec = InputRecord::Mouse(mouse);
    let now = carried_after_all(c, a);
    let next = Carried { surrogate: now.surrogate, buttons: mouse.button_state & 7 };
    lemma_one_among_others(c, a, rec, b);
    lemma_one_record(now, rec);
    assert(buttons_of(mouse) == mouse.button_state & 7);
    assert(stream_bytes(c, a) + Seq::<u8>::empty() =~= stream_bytes(c, a));
}

/// Records that are no input change nothing, wherever they stand: keys that go
/// up, keys without a character, and all that is neither key nor mouse.
pub proof fn other_records_are_ignored(
    c: Carried,
    a: Seq<InputRecord>,
    rec: InputRecord,
    b: Seq<InputRecord>,
)
    requires
        c.valid(),
        match rec {
            InputRecord::Key(key) => key.key_down == 0 || key.unicode_char == 0,
            InputRecord::Mouse(_) => false,
            InputRecord::Other => true,
        },
    ensures
        stream_bytes(c, a + seq![rec] + b) == stream_bytes(c, a + b),
        carried_after_all(c, a + seq![rec] + b) == carried_after_all(c, a + b),
{
    let now = carried_after_all(c, a);
    lemma_carried_is_valid(c, a);
    lemma_empty_batch(now.surrogate);
    lemma_one_among_others(c, a, rec, b);
    lemma_one_record(now, rec);
    if let InputRecord::Key(key) = rec {
        assert(key_units(key) =~= Seq::<u16>::empty());
    }
    console_reads_do_not_matter(c, a, b);
    assert(stream_bytes(c, a) + Seq::<u8>::empty() =~= stream_bytes(c, a));
}

/// A key that goes down counts as often as it repeats, and at least once: it is
/// as good as that many records of one press each.
pub proof fn repeats_are_presses(
    c: Carried,
    a: Seq<InputRecord>,
    key: KeyRecord,
    b: Seq<InputRecord>,
)
    requires
        c.valid(),
        key.key_down != 0,
        key.unicode_char != 0,
    ensures
        ({
            let n = if key.repeat_count == 0 {
                1nat
            } else {
                key.repeat_count as nat
            };
            let one = InputRecord::Key(
                KeyRecord { key_down: 1, repeat_count: 1, unicode_char: key.unicode_char },
            );
            let many = Seq::new(n, |i: int| one);
            &&& stream_bytes(c, a + seq![InputRecord::Key(key)] + b) == stream_bytes(
                c,
                a + many + b,
            )
            &&& carried_after_all(c, a + seq![InputRecord::Key(key)] + b) == carried_after_all(
                c,
                a + many + b,
            )
        }),
{
    let n = if key.repeat_count == 0 {
        1nat
    } else {
        key.repeat_count as nat
    };
    let one = InputRecord::Key(
        KeyRecord { key_down: 1, repeat_count: 1, unicode_char: key.unicode_char },
    );
    let many = Seq::new(n, |i: int| one);
    let rec = InputRecord::Key(key);
    let now = carried_after_all(c, a);
    lemma_carried_is_valid(c, a);
    lemma_one_record(now, rec);
    let units = key_units(key);
    assert forall|i: int| 0 <= i < units.len() implies #[trigger] units[i] != 0 by {}
    presses_are_a_batch(now, units);
    assert(presses(units) =~= many);
    lemma_one_among_others(c, a, rec, b);
    console_reads_do_not_matter(c, a, many);
    console_reads_do_not_matter(c, a + many, b);
}

} // verus!
