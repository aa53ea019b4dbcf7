//! Which bytes are which key, as a terminal spells them.

use vstd::prelude::*;
use vstd::utf8::{encode_scalar, valid_utf8};

use crate::decode::{fed, Pending};
use crate::decode_laws::{
    complete_items_are_final, csi, items_are_independent, lemma_char_item,
    lemma_csi_item, lemma_params_not_final, params_read_back, two_params,
};
use crate::event::{EventView, Key, KeyEvent, Mods};
use crate::item::{
    body_len, csi_key, fields, is_final, item, lemma_body_len_means, lemma_char_alone, lemma_field_len, mods_of,
    param, params, Item,
};
use crate::number::{decimal, number};

verus! {

/// `x` is `key` pressed with `mods` held, whatever follows: that key is
/// reported first, and the rest as if `x` had not been there.
pub open spec fn reports(x: Seq<u8>, more: Seq<u8>, key: Key, mods: Mods) -> bool {
    let o = fed(Pending::idle(), x + more);
    let rest = fed(Pending::idle(), more);
    &&& o.events == seq![EventView::Key(KeyEvent { key, mods })] + rest.events
    &&& o.rest == rest.rest
}

/// `x` is no key at all, whatever follows.
pub open spec fn is_silent(x: Seq<u8>, more: Seq<u8>) -> bool {
    fed(Pending::idle(), x + more) == fed(Pending::idle(), more)
}

/// Modifiers, in the order shift, alt, ctrl.
pub open spec fn held(shift: bool, alt: bool, ctrl: bool) -> Mods {
    Mods { shift, alt, ctrl }
}

proof fn lemma_reports(x: Seq<u8>, more: Seq<u8>, key: Key, mods: Mods)
    requires
        x.len() > 0,
        item(x) == Item::Consume(x.len() as int, Some(KeyEvent { key, mods })),
    ensures
        reports(x, more, key, mods),
{
    items_are_independent(x, more, Some(KeyEvent { key, mods }));
}

proof fn lemma_silent(x: Seq<u8>, more: Seq<u8>)
    requires
        x.len() > 0,
        item(x) == Item::Consume(x.len() as int, None),
    ensures
        is_silent(x, more),
{
    items_are_independent(x, more, None);
    let o = fed(Pending::idle(), more);
    assert(o.after(Seq::<EventView>::empty()) =~= o);
}

// ---------------------------------------------------------------------------
// Single bytes

/// Ctrl with a letter is that letter's byte with all but its low five bits
/// cleared, and an `ESC` before it is alt as well. (H, I and M have keys of
/// their own.)
pub proof fn control_letters_decode(c: char, more: Seq<u8>)
    requires
        'a' <= c <= 'z',
        c != 'h',
        c != 'i',
        c != 'm',
    ensures
        reports(seq![(c as u8) & 0x1F], more, Key::Char(c), held(false, false, true)),
        reports(seq![0x1B, (c as u8) & 0x1F], more, Key::Char(c), held(false, true, true)),
{
    let v = c as u8;
    assert(v & 0x1F == v - 0x60) by (bit_vector)
        requires
            0x61 <= v <= 0x7A,
    ;
    let b = v & 0x1F;
    assert((0x61 + b - 1) as char == c);
    lemma_reports(seq![b], more, Key::Char(c), held(false, false, true));
    assert(seq![0x1B, b].skip(1) =~= seq![b]);
    lemma_reports(seq![0x1B, b], more, Key::Char(c), held(false, true, true));
}

/// The control bytes that are no letters: ctrl with `@` or space, `\`, `]`,
/// `^` and `_`, and those with a key of their own.
pub open spec fn is_named_control(b: u8, key: Key, ctrl: bool) -> bool {
    ||| b == 0x0D && key == Key::Enter && !ctrl
    ||| b == 0x09 && key == Key::Tab && !ctrl
    ||| b == 0x7F && key == Key::Backspace && !ctrl
    ||| b == 0x08 && key == Key::Backspace && ctrl
    ||| b == 0x00 && key == Key::Char(' ') && ctrl
    ||| b == 0x1C && key == Key::Char('\\') && ctrl
    ||| b == 0x1D && key == Key::Char(']') && ctrl
    ||| b == 0x1E && key == Key::Char('^') && ctrl
    ||| b == 0x1F && key == Key::Char('_') && ctrl
}

/// Enter, Tab, Backspace and the control bytes that are no letters are what
/// they are named, and an `ESC` before them is alt.
pub proof fn named_controls_decode(b: u8, key: Key, ctrl: bool, more: Seq<u8>)
    requires
        is_named_control(b, key, ctrl),
    ensures
        reports(seq![b], more, key, held(false, false, ctrl)),
        reports(seq![0x1B, b], more, key, held(false, true, ctrl)),
{
    lemma_reports(seq![b], more, key, held(false, false, ctrl));
    assert(seq![0x1B, b].skip(1) =~= seq![b]);
    lemma_reports(seq![0x1B, b], more, key, held(false, true, ctrl));
}

/// A printable character is its own key, without modifiers, and an `ESC` before
/// any but `[` and `O` is alt.
pub proof fn characters_decode(c: char, more: Seq<u8>)
    requires
        c as u32 >= 0x20,
        c as u32 != 0x7F,
    ensures
        reports(encode_scalar(c as u32), more, Key::Char(c), held(false, false, false)),
        c != '[' && c != 'O' ==> reports(
            seq![0x1Bu8] + encode_scalar(c as u32),
            more,
            Key::Char(c),
            held(false, true, false),
        ),
{
    lemma_char_item(c);
    let x = encode_scalar(c as u32);
    lemma_reports(x, more, Key::Char(c), held(false, false, false));
    if c != '[' && c != 'O' {
        let y = seq![0x1Bu8] + x;
        assert(y.skip(1) =~= x);
        assert(y[1] == x[0]);
        lemma_reports(y, more, Key::Char(c), held(false, true, false));
    }
}

/// An `ESC` that a second one follows is the Esc key, and the second one is
/// read afresh.
pub proof fn esc_before_esc_is_a_key(more: Seq<u8>)
    ensures
        reports(seq![0x1Bu8], seq![0x1Bu8] + more, Key::Esc, held(false, false, false)),
{
    let both = seq![0x1Bu8, 0x1Bu8];
    let all = seq![0x1Bu8] + (seq![0x1Bu8] + more);
    assert(all =~= both + more);
    complete_items_are_final(both, more);
    let p = Pending::idle();
    assert(p.with(all).bytes =~= all);
    assert(p.with(seq![0x1Bu8] + more).bytes =~= seq![0x1Bu8] + more);
    assert(all.skip(1) =~= seq![0x1Bu8] + more);
    assert(fed(p, all).events =~= seq![
        EventView::Key(KeyEvent { key: Key::Esc, mods: held(false, false, false) }),
    ] + fed(p, seq![0x1Bu8] + more).events);
}

// ---------------------------------------------------------------------------
// Bytes that are no characters

/// How many bytes a character should have that starts with `lead`, by the
/// ranges of UTF-8; 0 if no character starts so.
pub open spec fn announced(lead: u8) -> int {
    if 0xC0 <= lead <= 0xDF {
        2
    } else if 0xE0 <= lead <= 0xEF {
        3
    } else if 0xF0 <= lead <= 0xF7 {
        4
    } else {
        0
    }
}

/// A byte that starts no character, or one whose bytes are all there and are
/// not UTF-8, is U+FFFD by itself, with alt if an `ESC` stands before it.
pub proof fn malformed_bytes_are_replaced(b: Seq<u8>)
    requires
        b.len() > 0,
        b[0] >= 0x80,
        announced(b[0]) <= b.len(),
        announced(b[0]) > 0 ==> !valid_utf8(b.take(announced(b[0]))),
    ensures
        reports(seq![b[0]], b.skip(1), Key::Char('\u{FFFD}'), held(false, false, false)),
        reports(seq![0x1B, b[0]], b.skip(1), Key::Char('\u{FFFD}'), held(false, true, false)),
{
    if announced(b[0]) > 0 {
        lemma_char_alone(b);
    }
    let p = Pending::idle();
    let rest = b.skip(1);
    assert(p.with(rest).bytes =~= rest);
    assert(seq![b[0]] + rest =~= b);
    assert(p.with(b).bytes =~= b);
    assert(fed(p, b).events =~= seq![
        EventView::Key(KeyEvent { key: Key::Char('\u{FFFD}'), mods: held(false, false, false) }),
    ] + fed(p, rest).events);
    let e = seq![0x1Bu8, b[0]] + rest;
    assert(p.with(e).bytes =~= e);
    assert(e.skip(1) =~= b);
    assert(e.skip(2) =~= rest);
    assert(fed(p, e).events =~= seq![
        EventView::Key(KeyEvent { key: Key::Char('\u{FFFD}'), mods: held(false, true, false) }),
    ] + fed(p, rest).events);
}

/// Too few bytes for the character they start are held back, an `ESC` before
/// them too.
pub proof fn partial_characters_are_held(b: Seq<u8>)
    requires
        0 < b.len() < announced(b[0]),
    ensures
        fed(Pending::idle(), b).events == Seq::<EventView>::empty(),
        fed(Pending::idle(), b).rest == (Pending { bytes: b, paste: None }),
        fed(Pending::idle(), seq![0x1Bu8] + b).events == Seq::<EventView>::empty(),
        fed(Pending::idle(), seq![0x1Bu8] + b).rest == (Pending {
            bytes: seq![0x1Bu8] + b,
            paste: None,
        }),
{
    let p = Pending::idle();
    assert(p.with(b).bytes =~= b);
    let e = seq![0x1Bu8] + b;
    assert(p.with(e).bytes =~= e);
    assert(e.skip(1) =~= b);
}

// ---------------------------------------------------------------------------
// Control sequences

/// `m` spells `mods` in a control sequence: 1 and a bit each, 1 for shift, 2
/// for alt and 4 for ctrl. Bits beyond these stand for nothing, and 0 is none.
pub open spec fn spells(m: u16, mods: Mods) -> bool {
    let bits = (if mods.shift {
        1int
    } else {
        0
    }) + (if mods.alt {
        2int
    } else {
        0
    }) + (if mods.ctrl {
        4int
    } else {
        0
    });
    if m == 0 {
        bits == 0
    } else {
        (m - 1) % 8 == bits
    }
}

proof fn lemma_spells(m: u16, mods: Mods)
    requires
        spells(m, mods),
    ensures
        mods_of(m) == mods,
{
    let n = m - 1;
    if m >= 2 {
        assert(n % 2 == (n % 8) % 2);
        assert(n / 2 % 2 == (n % 8) / 2 % 2);
        assert(n / 4 % 2 == (n % 8) / 4 % 2);
    }
}

/// The letters of the cursor keys.
pub open spec fn is_cursor(last: u8, key: Key) -> bool {
    ||| last == 'A' as u8 && key == Key::Up
    ||| last == 'B' as u8 && key == Key::Down
    ||| last == 'C' as u8 && key == Key::Right
    ||| last == 'D' as u8 && key == Key::Left
    ||| last == 'H' as u8 && key == Key::Home
    ||| last == 'F' as u8 && key == Key::End
}

/// The cursor keys: `ESC O` or `ESC [` and the letter, and with modifiers
/// `ESC [`, two numbers and the letter, of which the second spells them.
pub proof fn cursor_keys_decode(
    last: u8,
    key: Key,
    p: u16,
    m: u16,
    mods: Mods,
    more: Seq<u8>,
)
    requires
        is_cursor(last, key),
        spells(m, mods),
    ensures
        reports(seq![0x1B, 'O' as u8, last], more, key, held(false, false, false)),
        reports(seq![0x1B, '[' as u8, last], more, key, held(false, false, false)),
        reports(csi(decimal(p as nat), last), more, key, held(false, false, false)),
        reports(csi(two_params(p, m), last), more, key, mods),
{
    lemma_spells(m, mods);
    lemma_reports(seq![0x1B, 'O' as u8, last], more, key, held(false, false, false));
    let none = Seq::<u8>::empty();
    lemma_csi_item(none, last);
    assert(csi(none, last) =~= seq![0x1B, '[' as u8, last]);
    lemma_reports(csi(none, last), more, key, held(false, false, false));
    lemma_numbers(p, m, last);
    lemma_reports(csi(decimal(p as nat), last), more, key, held(false, false, false));
    lemma_reports(csi(two_params(p, m), last), more, key, mods);
}

/// Control sequences with one number and with two are one item each.
proof fn lemma_numbers(p: u16, m: u16, last: u8)
    requires
        is_final(last),
        !(last == 0x7E && p == 200),
    ensures
        item(csi(decimal(p as nat), last)) == Item::Consume(
            csi(decimal(p as nat), last).len() as int,
            csi_key(decimal(p as nat), last),
        ),
        item(csi(two_params(p, m), last)) == Item::Consume(
            csi(two_params(p, m), last).len() as int,
            csi_key(two_params(p, m), last),
        ),
        param(decimal(p as nat), 0) == p,
        param(decimal(p as nat), 1) == 0,
        param(two_params(p, m), 0) == p,
        param(two_params(p, m), 1) == m,
{
    params_read_back(p, m);
    lemma_params_not_final(p, m);
    lemma_csi_item(decimal(p as nat), last);
    lemma_csi_item(two_params(p, m), last);
}

/// The numbers of the keys that end in `~`: the editing keys, and the function
/// keys in runs of five, five and two with a gap between them.
pub open spec fn is_numbered(p: u16, key: Key) -> bool {
    ||| (p == 1 || p == 7) && key == Key::Home
    ||| p == 2 && key == Key::Insert
    ||| p == 3 && key == Key::Delete
    ||| (p == 4 || p == 8) && key == Key::End
    ||| p == 5 && key == Key::PageUp
    ||| p == 6 && key == Key::PageDown
    ||| exists|n: u8| #[trigger]
        is_function_key(n) && key == Key::F(n) && p == n + (if n <= 5 {
            10int
        } else if n <= 10 {
            11
        } else {
            12
        })
}

/// The function keys.
pub open spec fn is_function_key(n: u8) -> bool {
    1 <= n <= 12
}

/// The editing and function keys: `ESC [`, the number and `~`, with a second
/// number for modifiers.
pub proof fn keys_by_number_decode(p: u16, key: Key, m: u16, mods: Mods, more: Seq<u8>)
    requires
        is_numbered(p, key),
        spells(m, mods),
    ensures
        reports(csi(decimal(p as nat), '~' as u8), more, key, held(false, false, false)),
        reports(csi(two_params(p, m), '~' as u8), more, key, mods),
{
    lemma_spells(m, mods);
    lemma_numbers(p, m, 0x7E);
    lemma_reports(csi(decimal(p as nat), 0x7E), more, key, held(false, false, false));
    lemma_reports(csi(two_params(p, m), 0x7E), more, key, mods);
}

/// Any other number before `~`, but for the one that opens a paste, is no key.
pub proof fn other_numbers_are_silent(p: u16, m: u16, more: Seq<u8>)
    requires
        p == 0 || p == 9 || p == 10 || p == 16 || p == 22 || 24 < p,
        p != 200,
    ensures
        is_silent(csi(decimal(p as nat), '~' as u8), more),
        is_silent(csi(two_params(p, m), '~' as u8), more),
{
    lemma_numbers(p, m, 0x7E);
    lemma_silent(csi(decimal(p as nat), 0x7E), more);
    lemma_silent(csi(two_params(p, m), 0x7E), more);
}

/// The first function keys in their short spelling, `ESC O P` to `ESC O S`, and
/// whatever else follows `ESC O` but a cursor key's letter is no key.
pub proof fn short_function_keys_decode(last: u8, more: Seq<u8>)
    ensures
        'P' as u8 <= last <= 'S' as u8 ==> reports(
            seq![0x1B, 'O' as u8, last],
            more,
            Key::F((last - 'P' as u8 + 1) as u8),
            held(false, false, false),
        ),
        !('P' as u8 <= last <= 'S' as u8) && !('A' as u8 <= last <= 'D' as u8) && last != 'H' as u8
            && last != 'F' as u8 ==> is_silent(seq![0x1B, 'O' as u8, last], more),
{
    let x = seq![0x1B, 'O' as u8, last];
    if 'P' as u8 <= last <= 'S' as u8 {
        lemma_reports(x, more, Key::F((last - 0x50 + 1) as u8), held(false, false, false));
    } else if !('A' as u8 <= last <= 'D' as u8) && last != 'H' as u8 && last != 'F' as u8 {
        lemma_silent(x, more);
    }
}

/// `body` may stand in a control sequence: no more than 64 bytes, none of which
/// ends it.
pub open spec fn is_body(body: Seq<u8>) -> bool {
    &&& body.len() <= 64
    &&& forall|i: int| 0 <= i < body.len() ==> !(0x40 <= #[trigger] body[i] <= 0x7E)
}

/// `ESC [ Z` is Tab with shift, whatever stands between.
pub proof fn back_tab_decodes(body: Seq<u8>, more: Seq<u8>)
    requires
        is_body(body),
    ensures
        reports(seq![0x1B, '[' as u8] + body + seq!['Z' as u8], more, Key::Tab, held(
            true,
            false,
            false,
        )),
{
    lemma_csi_item(body, 0x5A);
    lemma_reports(csi(body, 0x5A), more, Key::Tab, held(true, false, false));
}

/// A control sequence that ends in a byte with no meaning is no key, whatever
/// stands in it.
pub proof fn other_sequences_are_silent(body: Seq<u8>, last: u8, more: Seq<u8>)
    requires
        is_body(body),
        0x40 <= last <= 0x7D,
        !('A' as u8 <= last <= 'D' as u8),
        last != 'H' as u8,
        last != 'F' as u8,
        last != 'Z' as u8,
    ensures
        is_silent(seq![0x1B, '[' as u8] + body + seq![last], more),
{
    lemma_csi_item(body, last);
    lemma_silent(csi(body, last), more);
}

/// A control sequence that is not ended yet is held back, however it is cut.
pub proof fn unfinished_sequences_are_held(body: Seq<u8>)
    requires
        is_body(body),
    ensures
        fed(Pending::idle(), seq![0x1B, '[' as u8] + body).events == Seq::<EventView>::empty(),
        fed(Pending::idle(), seq![0x1B, '[' as u8] + body).rest == (Pending {
            bytes: seq![0x1B, '[' as u8] + body,
            paste: None,
        }),
{
    let x = seq![0x1B, '[' as u8] + body;
    assert(Pending::idle().with(x).bytes =~= x);
    assert(x.skip(2) =~= body);
    lemma_body_len_means(body);
    if body_len(body) < body.len() {
        assert(is_final(body[body_len(body)]));
    }
}

/// A control sequence that has run for 64 bytes and still does not end is
/// dropped, and what follows is read afresh.
pub proof fn runaway_sequences_are_dropped(body: Seq<u8>, next: u8, more: Seq<u8>)
    requires
        is_body(body),
        body.len() == 64,
        !(0x40 <= next <= 0x7E),
    ensures
        is_silent(seq![0x1B, '[' as u8] + body, seq![next] + more),
{
    let x = seq![0x1B, '[' as u8] + body;
    let rest = seq![next] + more;
    let all = x + rest;
    let p = Pending::idle();
    assert(p.with(all).bytes =~= all);
    assert(p.with(rest).bytes =~= rest);
    assert(all.skip(66) =~= rest);
    let tail = all.skip(2);
    assert(tail =~= body + rest);
    lemma_body_len_means(tail);
    if body_len(tail) <= 64 {
        let n = body_len(tail);
        if n < 64 {
            assert(tail[n] == body[n]);
        } else {
            assert(tail[64] == next);
        }
        assert(is_final(tail[n]));
    }
    assert(item(all) == Item::Consume(66, None));
    let o = fed(p, rest);
    assert(o.after(Seq::<EventView>::empty()) =~= o);
    assert(fed(p, all) =~= o);
}

proof fn lemma_field_before(a: Seq<u8>, b: Seq<u8>)
    requires
        forall|i: int| 0 <= i < a.len() ==> #[trigger] a[i] != 0x3B,
    ensures
        fields(a) == seq![a],
        fields(a + seq![0x3Bu8] + b) == seq![a] + fields(b),
{
    lemma_field_len(a, a.len() as int);
    let s = a + seq![0x3Bu8] + b;
    let n = a.len() as int;
    assert forall|i: int| 0 <= i < n implies #[trigger] s[i] != 0x3B by {
        assert(s[i] == a[i]);
    }
    assert(s[n] == 0x3B);
    lemma_field_len(s, n);
    assert(s.take(n) =~= a);
    assert(s.skip(n + 1) =~= b);
}

/// Two control sequences that open or report the same come to the same.
proof fn lemma_same_sequence(x: Seq<u8>, y: Seq<u8>, last: u8, more: Seq<u8>)
    requires
        is_body(x),
        is_body(y),
        0x40 <= last <= 0x7E,
        param(x, 0) == param(y, 0),
        param(x, 1) == param(y, 1),
    ensures
        fed(Pending::idle(), csi(x, last) + more) == fed(Pending::idle(), csi(y, last) + more),
{
    lemma_csi_item(x, last);
    lemma_csi_item(y, last);
    if last == 0x7E && param(x, 0) == 200 {
        lemma_opens(csi(x, last), more);
        lemma_opens(csi(y, last), more);
    } else {
        items_are_independent(csi(x, last), more, csi_key(x, last));
        items_are_independent(csi(y, last), more, csi_key(y, last));
    }
}

proof fn lemma_opens(x: Seq<u8>, more: Seq<u8>)
    requires
        x.len() > 0,
        item(x) == Item::PasteStart(x.len() as int),
    ensures
        fed(Pending::idle(), x + more) == fed(
            Pending { bytes: Seq::empty(), paste: Some(Seq::empty()) },
            more,
        ),
{
    complete_items_are_final(x, more);
    let p = Pending::idle();
    let q = Pending { bytes: Seq::empty(), paste: Some(Seq::empty()) };
    assert(p.with(x + more).bytes =~= x + more);
    assert((x + more).skip(x.len() as int) =~= more);
    assert(q.with(more) =~= (Pending { bytes: more, paste: Some(Seq::empty()) }));
}

/// The parameters of a control sequence stand between semicolons, and each is
/// the number it starts with: whatever else stands in them does not matter, and
/// one that is missing is 0.
pub proof fn parameters_are_numbers(a: Seq<u8>, b: Seq<u8>, last: u8, more: Seq<u8>)
    requires
        is_body(a + seq![';' as u8] + b),
        forall|i: int| 0 <= i < a.len() ==> #[trigger] a[i] != ';' as u8,
        forall|i: int| 0 <= i < b.len() ==> #[trigger] b[i] != ';' as u8,
        0x40 <= last <= 0x7E,
    ensures
        fed(Pending::idle(), csi(a + seq![';' as u8] + b, last) + more) == fed(
            Pending::idle(),
            csi(two_params(number(a), number(b)), last) + more,
        ),
        fed(Pending::idle(), csi(a, last) + more) == fed(
            Pending::idle(),
            csi(two_params(number(a), 0), last) + more,
        ),
{
    let both = a + seq![0x3Bu8] + b;
    lemma_field_before(a, b);
    lemma_field_before(b, b);
    assert(fields(both) =~= seq![a, b]);
    assert(params(both) =~= seq![number(a), number(b)]);
    params_read_back(number(a), number(b));
    lemma_params_not_final(number(a), number(b));
    let plain = two_params(number(a), number(b));
    assert(is_body(plain)) by {
        assert forall|i: int| 0 <= i < plain.len() implies !(0x40 <= #[trigger] plain[i]
            <= 0x7E) by {
            assert(!is_final(plain[i]));
        }
    }
    lemma_same_sequence(both, plain, last, more);
    assert forall|i: int| 0 <= i < a.len() implies !(0x40 <= #[trigger] a[i] <= 0x7E) by {
        assert(both[i] == a[i]);
    }
    params_read_back(number(a), 0);
    lemma_params_not_final(number(a), 0);
    let one = two_params(number(a), 0);
    assert(is_body(one)) by {
        assert forall|i: int| 0 <= i < one.len() implies !(0x40 <= #[trigger] one[i] <= 0x7E) by {
            assert(!is_final(one[i]));
        }
    }
    if a.len() == 0 {
        assert(number(a) == 0) by {
            assert(a.take(0) =~= Seq::<u8>::empty());
        }
    } else {
        assert(params(a) =~= seq![number(a)]);
    }
    lemma_same_sequence(a, one, last, more);
}

/// Only the first two parameters of a control sequence count.
pub proof fn further_parameters_do_not_matter(
    a: Seq<u8>,
    b: Seq<u8>,
    junk: Seq<u8>,
    last: u8,
    more: Seq<u8>,
)
    requires
        is_body(a + seq![';' as u8] + (b + seq![';' as u8] + junk)),
        forall|i: int| 0 <= i < a.len() ==> #[trigger] a[i] != ';' as u8,
        forall|i: int| 0 <= i < b.len() ==> #[trigger] b[i] != ';' as u8,
        0x40 <= last <= 0x7E,
    ensures
        fed(
            Pending::idle(),
            csi(a + seq![';' as u8] + (b + seq![';' as u8] + junk), last) + more,
        ) == fed(Pending::idle(), csi(a + seq![';' as u8] + b, last) + more),
{
    let tail = b + seq![0x3Bu8] + junk;
    let long = a + seq![0x3Bu8] + tail;
    let short = a + seq![0x3Bu8] + b;
    lemma_field_before(a, tail);
    lemma_field_before(a, b);
    lemma_field_before(b, junk);
    assert(fields(long) =~= seq![a] + (seq![b] + fields(junk)));
    assert(fields(short) =~= seq![a, b]);
    assert(fields(long)[0] == a && fields(long)[1] == b);
    assert(params(long)[0] == number(a) && params(long)[1] == number(b));
    assert(params(short) =~= seq![number(a), number(b)]);
    assert(is_body(short)) by {
        assert forall|i: int| 0 <= i < short.len() implies !(0x40 <= #[trigger] short[i]
            <= 0x7E) by {
            assert(short[i] == long[i]);
        }
    }
    lemma_same_sequence(long, short, last, more);
}

/// The beginnings of a sequence are held back: `ESC` alone, and `ESC O`.
pub proof fn beginnings_are_held(b: Seq<u8>)
    requires
        b == seq![0x1Bu8] || b == seq![0x1Bu8, 'O' as u8],
    ensures
        fed(Pending::idle(), b).events == Seq::<EventView>::empty(),
        fed(Pending::idle(), b).rest == (Pending { bytes: b, paste: None }),
{
    assert(Pending::idle().with(b).bytes =~= b);
}

} // verus!
