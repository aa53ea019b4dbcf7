//! UTF-16 from the console, turned into UTF-8.
//!
//! The console hands out UTF-16 code units one by one, and the two halves of a
//! surrogate pair may arrive in different batches. [`flush_units`] holds a
//! high half back until it is known what follows.

use vstd::prelude::*;
use vstd::utf8::{encode_scalar, encode_utf8, is_scalar};

verus! {

/// The first half of a surrogate pair.
pub open spec fn is_high(u: u16) -> bool {
    0xD800 <= u <= 0xDBFF
}

/// The second half of a surrogate pair.
pub open spec fn is_low(u: u16) -> bool {
    0xDC00 <= u <= 0xDFFF
}

/// The code point that a surrogate pair stands for.
pub open spec fn pair_value(hi: u16, lo: u16) -> int {
    0x10000 + (hi - 0xD800) * 0x400 + (lo - 0xDC00)
}

/// The text that UTF-16 `units` stand for; half a pair alone is U+FFFD.
pub open spec fn decode_utf16(units: Seq<u16>) -> Seq<char>
    decreases units.len(),
{
    if units.len() == 0 {
        Seq::empty()
    } else if units.len() > 1 && is_high(units[0]) && is_low(units[1]) {
        seq![pair_value(units[0], units[1]) as char] + decode_utf16(units.skip(2))
    } else if is_high(units[0]) || is_low(units[0]) {
        seq!['\u{FFFD}'] + decode_utf16(units.skip(1))
    } else {
        seq![units[0] as char] + decode_utf16(units.skip(1))
    }
}

/// `units` with the half held back before them.
pub open spec fn rejoined(pending: Option<u16>, units: Seq<u16>) -> Seq<u16> {
    match pending {
        Some(hi) => seq![hi] + units,
        None => units,
    }
}

/// The half at the end of `units` that is held back.
pub open spec fn held_half(units: Seq<u16>) -> Option<u16> {
    if units.len() > 0 && is_high(units.last()) {
        Some(units.last())
    } else {
        None
    }
}

/// The units that are not held back.
pub open spec fn ready_units(units: Seq<u16>) -> Seq<u16> {
    if held_half(units) is Some {
        units.drop_last()
    } else {
        units
    }
}

/// The bytes that a batch of `units` adds after the half held back before.
pub open spec fn batch_bytes(pending: Option<u16>, units: Seq<u16>) -> Seq<u8> {
    encode_utf8(decode_utf16(ready_units(rejoined(pending, units))))
}

/// The half that a batch of `units` leaves held back.
pub open spec fn batch_pending(pending: Option<u16>, units: Seq<u16>) -> Option<u16> {
    held_half(rejoined(pending, units))
}

/// The encoding of the characters of two texts is that of one after the other.
pub proof fn lemma_encode_both(a: Seq<char>, b: Seq<char>)
    ensures
        encode_utf8(a + b) == encode_utf8(a) + encode_utf8(b),
    decreases a.len(),
{
    if a.len() == 0 {
        assert(a + b =~= b);
        assert(encode_utf8(a) + encode_utf8(b) =~= encode_utf8(b));
    } else {
        lemma_encode_both(a.drop_first(), b);
        assert((a + b).drop_first() =~= a.drop_first() + b);
        assert(encode_utf8(a + b) =~= encode_utf8(a) + encode_utf8(b));
    }
}

/// The encoding of one more character at the end.
pub proof fn lemma_encode_push(a: Seq<char>, c: char)
    ensures
        encode_utf8(a.push(c)) == encode_utf8(a) + encode_scalar(c as u32),
{
    let one = seq![c];
    assert(a.push(c) =~= a + one);
    lemma_encode_both(a, one);
    reveal_with_fuel(encode_utf8, 2);
    assert(one.drop_first() =~= Seq::<char>::empty());
    assert(encode_utf8(one) =~= encode_scalar(c as u32));
}

/// Where no pair stands across the cut, two runs of units decode one after
/// the other.
pub proof fn lemma_decode_both(a: Seq<u16>, b: Seq<u16>)
    requires
        !(a.len() > 0 && is_high(a.last()) && b.len() > 0 && is_low(b[0])),
    ensures
        decode_utf16(a + b) == decode_utf16(a) + decode_utf16(b),
    decreases a.len(),
{
    let ab = a + b;
    if a.len() == 0 {
        assert(ab =~= b);
        assert(decode_utf16(a) + decode_utf16(b) =~= decode_utf16(b));
    } else if a.len() > 1 && is_high(a[0]) && is_low(a[1]) {
        lemma_decode_both(a.skip(2), b);
        assert(ab.skip(2) =~= a.skip(2) + b);
        assert(decode_utf16(ab) =~= decode_utf16(a) + decode_utf16(b));
    } else {
        lemma_decode_both(a.skip(1), b);
        assert(ab.skip(1) =~= a.skip(1) + b);
        assert(decode_utf16(ab) =~= decode_utf16(a) + decode_utf16(b));
    }
}

/// Appends the UTF-8 encoding of a Unicode scalar value.
fn push_scalar(v: u32, out: &mut Vec<u8>)
    requires
        is_scalar(v),
    ensures
        final(out)@ == old(out)@ + encode_scalar(v),
{
    if v <= 0x7F {
        out.push((v & 0x7F) as u8);
    } else if v <= 0x7FF {
        out.push(0xC0 | ((v >> 6) & 0x1F) as u8);
        out.push(0x80 | (v & 0x3F) as u8);
    } else if v <= 0xFFFF {
        out.push(0xE0 | ((v >> 12) & 0x0F) as u8);
        out.push(0x80 | ((v >> 6) & 0x3F) as u8);
        out.push(0x80 | (v & 0x3F) as u8);
    } else {
        out.push(0xF0 | ((v >> 18) & 0x7) as u8);
        out.push(0x80 | ((v >> 12) & 0x3F) as u8);
        out.push(0x80 | ((v >> 6) & 0x3F) as u8);
        out.push(0x80 | (v & 0x3F) as u8);
    }
    assert(out@ =~= old(out)@ + encode_scalar(v));
}

/// Convert buffered UTF-16 `units` to UTF-8, appending to `out`. A trailing
/// lone high surrogate is not emitted; it is stashed in `pending` to be
/// prepended to the next batch (a surrogate pair can span two key records —
/// or, if a mouse record forced a flush between the halves, two flushes).
pub fn flush_units(units: &mut Vec<u16>, out: &mut Vec<u8>, pending: &mut Option<u16>)
    ensures
        final(units)@ == Seq::<u16>::empty(),
        final(out)@ == old(out)@ + batch_bytes(*old(pending), old(units)@),
        *final(pending) == batch_pending(*old(pending), old(units)@),
{
    // Re-attach a surrogate held from a prior flush so its low half (if it
    // arrives now) still pairs correctly.
    if let Some(hi) = pending.take() {
        units.insert(0, hi);
    }
    let ghost all = rejoined(*old(pending), old(units)@);
    assert(units@ =~= all);
    let n: usize = units.len();
    if n > 0 {
        let last: u16 = units[n - 1];
        if 0xD800 <= last && last < 0xDC00 {
            *pending = Some(last);
            units.pop();
        }
    }
    let ghost ready = ready_units(all);
    assert(units@ =~= ready);
    assert(*pending == held_half(all));
    let mut i: usize = 0;
    let ghost mut text: Seq<char> = Seq::empty();
    assert(ready.skip(0) =~= ready);
    assert(text + decode_utf16(ready) =~= decode_utf16(ready));
    assert(out@ =~= old(out)@ + encode_utf8(text));
    while i < units.len()
        invariant
            i <= units.len(),
            units@ == ready,
            text + decode_utf16(ready.skip(i as int)) == decode_utf16(ready),
            out@ == old(out)@ + encode_utf8(text),
        decreases units.len() - i,
    {
        let ghost rest = ready.skip(i as int);
        let u: u16 = units[i];
        assert(rest[0] == u);
        let mut v: u32 = u as u32;
        let mut used: usize = 1;
        if 0xD800 <= u && u <= 0xDFFF {
            v = 0xFFFD;
            if u < 0xDC00 && i + 1 < units.len() {
                let lo: u16 = units[i + 1];
                assert(rest[1] == lo);
                if 0xDC00 <= lo && lo <= 0xDFFF {
                    v = 0x10000 + (u - 0xD800) as u32 * 0x400 + (lo - 0xDC00) as u32;
                    used = 2;
                }
            }
        }
        let ghost c = v as char;
        proof {
            assert(c as u32 == v);
            assert(decode_utf16(rest) == seq![c] + decode_utf16(rest.skip(used as int)));
            assert(rest.skip(used as int) =~= ready.skip(i + used));
            lemma_encode_push(text, c);
            assert(text.push(c) + decode_utf16(ready.skip(i + used)) =~= text + (seq![c]
                + decode_utf16(ready.skip(i + used))));
        }
        push_scalar(v, out);
        proof {
            assert(out@ =~= old(out)@ + encode_utf8(text.push(c)));
            text = text.push(c);
        }
        i = i + used;
    }
    assert(ready.skip(i as int) =~= Seq::<u16>::empty());
    assert(text =~= decode_utf16(ready));
    units.clear();
}

/// Surrogate pairs survive every cut: two batches give the same bytes, and
/// leave the same half held back, as both in one.
pub proof fn batches_do_not_matter(pending: Option<u16>, a: Seq<u16>, b: Seq<u16>)
    ensures
        batch_bytes(pending, a + b) == batch_bytes(pending, a) + batch_bytes(
            batch_pending(pending, a),
            b,
        ),
        batch_pending(pending, a + b) == batch_pending(batch_pending(pending, a), b),
{
    let first = rejoined(pending, a);
    let second = rejoined(held_half(first), b);
    let all = rejoined(pending, a + b);
    let ready = ready_units(first);
    assert(all =~= ready + second);
    assert(held_half(all) == held_half(second));
    assert(ready_units(all) =~= ready + ready_units(second));
    lemma_decode_both(ready, ready_units(second));
    lemma_encode_both(decode_utf16(ready), decode_utf16(ready_units(second)));
}

/// `text` in UTF-16.
pub open spec fn encode_utf16(text: Seq<char>) -> Seq<u16>
    decreases text.len(),
{
    if text.len() == 0 {
        Seq::empty()
    } else {
        let v = text[0] as int;
        let units = if v < 0x10000 {
            seq![v as u16]
        } else {
            seq![
                (0xD800 + (v - 0x10000) / 0x400) as u16,
                (0xDC00 + (v - 0x10000) % 0x400) as u16,
            ]
        };
        units + encode_utf16(text.drop_first())
    }
}

/// A character is a code point that is no half of a pair.
pub proof fn lemma_char_range(c: char)
    ensures
        0 <= c as int <= 0x10FFFF,
        !(0xD800 <= c as int <= 0xDFFF),
        (c as int) as char == c,
        c as int <= 0xFFFF ==> ((c as int) as u16) as char == c,
{
}

/// Text in UTF-16 decodes to itself and never ends in half a pair.
proof fn lemma_utf16_reads_back(text: Seq<char>)
    ensures
        decode_utf16(encode_utf16(text)) == text,
        held_half(encode_utf16(text)) is None,
    decreases text.len(),
{
    if text.len() == 0 {
        assert(decode_utf16(encode_utf16(text)) =~= text);
    } else {
        let rest = text.drop_first();
        let v = text[0] as int;
        let units = encode_utf16(text);
        lemma_utf16_reads_back(rest);
        lemma_char_range(text[0]);
        if v < 0x10000 {
            assert(units == seq![v as u16] + encode_utf16(rest));
            assert(units[0] == v as u16);
            assert(units.skip(1) =~= encode_utf16(rest));
            assert(units[0] as char == text[0]);
        } else {
            let hi = (0xD800 + (v - 0x10000) / 0x400) as u16;
            let lo = (0xDC00 + (v - 0x10000) % 0x400) as u16;
            assert(units == seq![hi, lo] + encode_utf16(rest));
            assert(units[0] == hi && units[1] == lo);
            assert(units.skip(2) =~= encode_utf16(rest));
            assert(pair_value(units[0], units[1]) == v);
        }
        assert(seq![text[0]] + rest =~= text);
        if encode_utf16(rest).len() > 0 {
            assert(units.last() == encode_utf16(rest).last());
        }
    }
}

/// Text typed at the console comes out as its UTF-8 encoding, with nothing
/// held back.
pub proof fn console_text_becomes_utf8(text: Seq<char>)
    ensures
        batch_bytes(None, encode_utf16(text)) == encode_utf8(text),
        batch_pending(None, encode_utf16(text)) is None,
{
    lemma_utf16_reads_back(text);
}

/// A unit that is no half of a pair is its own character, and a pair is the one
/// character whose offset from U+10000 has the high half's ten bits above the
/// low half's ten, wherever they stand.
pub proof fn units_are_characters(x: Seq<u16>, y: Seq<u16>, u: u16, hi: u16, lo: u16)
    requires
        !(0xD800 <= u <= 0xDFFF),
        0xD800 <= hi <= 0xDBFF,
        0xDC00 <= lo <= 0xDFFF,
    ensures
        decode_utf16(x + seq![u] + y) == decode_utf16(x) + seq![u as char] + decode_utf16(y),
        x.len() > 0 && 0xD800 <= x.last() <= 0xDBFF || decode_utf16(x + seq![hi, lo] + y)
            == decode_utf16(x) + seq![(0x10000 + (hi - 0xD800) * 1024 + (lo - 0xDC00)) as char]
            + decode_utf16(y),
{
    let one = seq![u];
    lemma_decode_both(x, one);
    lemma_decode_both(x + one, y);
    assert(one.skip(1) =~= Seq::<u16>::empty());
    reveal_with_fuel(decode_utf16, 2);
    assert(decode_utf16(one) =~= seq![u as char]);
    if !(x.len() > 0 && is_high(x.last())) {
        let two = seq![hi, lo];
        lemma_decode_both(x, two);
        lemma_decode_both(x + two, y);
        assert(two.skip(2) =~= Seq::<u16>::empty());
        assert(decode_utf16(two) =~= seq![pair_value(hi, lo) as char]);
    }
}

/// Half a pair without the other is U+FFFD, and what stands before and behind
/// it decodes as if it were not there.
pub proof fn lone_halves_are_replaced(x: Seq<u16>, half: u16, y: Seq<u16>)
    requires
        0xD800 <= half <= 0xDFFF,
        half <= 0xDBFF ==> !(y.len() > 0 && 0xDC00 <= y[0] <= 0xDFFF),
        half > 0xDBFF ==> !(x.len() > 0 && 0xD800 <= x.last() <= 0xDBFF),
    ensures
        decode_utf16(x + seq![half] + y) == decode_utf16(x) + seq!['\u{FFFD}'] + decode_utf16(y),
{
    let one = seq![half];
    lemma_decode_both(x, one);
    assert((x + one).last() == half);
    lemma_decode_both(x + one, y);
    assert(one.skip(1) =~= Seq::<u16>::empty());
    reveal_with_fuel(decode_utf16, 2);
    assert(decode_utf16(one) =~= seq!['\u{FFFD}']);
}

/// A batch is the UTF-8 of its text. A high half at its end is held back, and
/// nothing else ever is; what was held back stands before the next batch.
pub proof fn only_a_high_half_is_held(x: Seq<u16>, hi: u16, held: u16)
    requires
        0xD800 <= hi <= 0xDBFF,
    ensures
        batch_bytes(None, x.push(hi)) == encode_utf8(decode_utf16(x)),
        batch_pending(None, x.push(hi)) == Some(hi),
        x.len() > 0 && 0xD800 <= x.last() <= 0xDBFF || {
            &&& batch_bytes(None, x) == encode_utf8(decode_utf16(x))
            &&& batch_pending(None, x) is None
        },
        batch_bytes(Some(held), x) == batch_bytes(None, seq![held] + x),
        batch_pending(Some(held), x) == batch_pending(None, seq![held] + x),
{
    assert(x.push(hi).drop_last() =~= x);
}

} // verus!
