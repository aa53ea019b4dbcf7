//! The grammar of terminal input: what the bytes at the front of the stream
//! amount to.
//!
//! [`item`] is the grammar. It looks at the front of the input and says
//! whether an item is complete there, how many bytes it takes and which key it
//! reports. [`flushed_item`] is the same grammar once it is known that nothing
//! more is coming.

use vstd::prelude::*;
use vstd::string::*;
use vstd::utf8::{
    decode_first_scalar, is_leading_byte_width_2, is_leading_byte_width_3,
    is_leading_byte_width_4, valid_first_scalar, valid_utf8,
};

use crate::event::{add_alt, bare, no_mods, with_ctrl, Key, KeyEvent, Mods};
use crate::number::{number, read_number};

verus! {

/// The byte that starts every escape sequence.
pub const ESC: u8 = 0x1B;

/// Longest run of parameter bytes in an escape sequence before it is dropped
/// as malformed.
pub const MAX_SEQ: usize = 64;

/// Most parameters that are read from one escape sequence.
pub const MAX_PARAMS: usize = 8;

/// The character that stands in for bytes that are not text.
pub const REPLACEMENT: char = '\u{FFFD}';

/// What the front of the input amounts to.
pub enum Item {
    /// Nothing yet: more bytes are needed.
    Incomplete,
    /// That many bytes, which report a key or nothing at all.
    Consume(int, Option<KeyEvent>),
    /// That many bytes, which open a bracketed paste.
    PasteStart(int),
}

/// [`Item`] as it is computed.
pub enum Step {
    /// Need more bytes.
    Incomplete,
    /// Consume `n` bytes, optionally reporting a key.
    Consume(usize, Option<KeyEvent>),
    /// Consume `n` bytes and enter bracketed-paste mode.
    PasteStart(usize),
}

impl View for Step {
    type V = Item;

    open spec fn view(&self) -> Item {
        match *self {
            Step::Incomplete => Item::Incomplete,
            Step::Consume(n, key) => Item::Consume(n as int, key),
            Step::PasteStart(n) => Item::PasteStart(n as int),
        }
    }
}

// ---------------------------------------------------------------------------
// Single characters

/// The key that an ASCII byte other than `ESC` stands for.
pub open spec fn ascii_key(b: u8) -> KeyEvent {
    if b == 0x0D {
        bare(Key::Enter)
    } else if b == 0x09 {
        bare(Key::Tab)
    } else if b == 0x7F {
        bare(Key::Backspace)
    } else if b == 0x08 {
        with_ctrl(Key::Backspace)
    } else if b == 0x00 {
        with_ctrl(Key::Char(' '))
    } else if b <= 0x1A {
        with_ctrl(Key::Char((0x61 + b - 1) as char))
    } else if b < 0x20 {
        with_ctrl(Key::Char((0x5C + (b - 0x1C)) as char))
    } else {
        bare(Key::Char(b as char))
    }
}

/// How many bytes a character takes that starts with `lead`; 0 if none does.
pub open spec fn char_width(lead: u8) -> int {
    if is_leading_byte_width_2(lead) {
        2
    } else if is_leading_byte_width_3(lead) {
        3
    } else if is_leading_byte_width_4(lead) {
        4
    } else if lead < 0x80 && lead != ESC {
        1
    } else {
        0
    }
}

/// A character that is still short of bytes.
pub open spec fn is_partial_char(b: Seq<u8>) -> bool {
    0 < b.len() < char_width(b[0])
}

/// The front of the input read as a control key or a character.
pub open spec fn plain_item(b: Seq<u8>) -> Item {
    if is_partial_char(b) {
        Item::Incomplete
    } else if char_width(b[0]) == 1 {
        Item::Consume(1, Some(ascii_key(b[0])))
    } else if char_width(b[0]) > 1 && valid_first_scalar(b) {
        Item::Consume(
            char_width(b[0]),
            Some(bare(Key::Char(decode_first_scalar(b) as char))),
        )
    } else {
        Item::Consume(1, Some(bare(Key::Char(REPLACEMENT))))
    }
}

// ---------------------------------------------------------------------------
// Control sequences

/// A byte that ends a control sequence.
pub open spec fn is_final(b: u8) -> bool {
    0x40 <= b <= 0x7E
}

/// How many bytes stand before the first final byte (all of them if there is
/// none).
pub open spec fn body_len(s: Seq<u8>) -> int
    decreases s.len(),
{
    if s.len() == 0 || is_final(s[0]) {
        0
    } else {
        1 + body_len(s.skip(1))
    }
}

/// How many bytes stand before the first `;` (all of them if there is none).
pub open spec fn field_len(s: Seq<u8>) -> int
    decreases s.len(),
{
    if s.len() == 0 || s[0] == 0x3B {
        0
    } else {
        1 + field_len(s.skip(1))
    }
}

/// The fields of a parameter string, which `;` separates.
pub open spec fn fields(s: Seq<u8>) -> Seq<Seq<u8>>
    decreases s.len(),
{
    if 0 <= field_len(s) < s.len() {
        seq![s.take(field_len(s))] + fields(s.skip(field_len(s) + 1))
    } else {
        seq![s]
    }
}

/// The parameters of a control sequence: the numbers in its first fields.
pub open spec fn params(s: Seq<u8>) -> Seq<u16> {
    if s.len() == 0 {
        Seq::empty()
    } else {
        let all = fields(s).map_values(|f: Seq<u8>| number(f));
        if all.len() > MAX_PARAMS {
            all.take(MAX_PARAMS as int)
        } else {
            all
        }
    }
}

/// The parameter at position `i`, or 0 if there is none.
pub open spec fn param(s: Seq<u8>, i: int) -> u16 {
    if i < params(s).len() {
        params(s)[i]
    } else {
        0
    }
}

/// The modifiers an xterm modifier parameter names: the value minus 1 is a
/// bitfield (1 = shift, 2 = alt, 4 = ctrl); 0 and 1 mean none.
pub open spec fn mods_of(param: u16) -> Mods {
    if param < 2 {
        no_mods()
    } else {
        Mods {
            shift: (param - 1) % 2 == 1,
            alt: (param - 1) / 2 % 2 == 1,
            ctrl: (param - 1) / 4 % 2 == 1,
        }
    }
}

/// The cursor key that the final byte of a sequence names.
pub open spec fn cursor_key(b: u8) -> Option<Key> {
    if b == 0x41 {
        Some(Key::Up)
    } else if b == 0x42 {
        Some(Key::Down)
    } else if b == 0x43 {
        Some(Key::Right)
    } else if b == 0x44 {
        Some(Key::Left)
    } else if b == 0x48 {
        Some(Key::Home)
    } else if b == 0x46 {
        Some(Key::End)
    } else {
        None
    }
}

/// The key that the number before a `~` names.
pub open spec fn tilde_key(p: u16) -> Option<Key> {
    if p == 1 || p == 7 {
        Some(Key::Home)
    } else if p == 4 || p == 8 {
        Some(Key::End)
    } else if p == 2 {
        Some(Key::Insert)
    } else if p == 3 {
        Some(Key::Delete)
    } else if p == 5 {
        Some(Key::PageUp)
    } else if p == 6 {
        Some(Key::PageDown)
    } else if 11 <= p <= 15 {
        Some(Key::F((p - 10) as u8))
    } else if 17 <= p <= 21 {
        Some(Key::F((p - 11) as u8))
    } else if p == 23 || p == 24 {
        Some(Key::F((p - 12) as u8))
    } else {
        None
    }
}

/// `key`, if there is one, with `mods` held.
pub open spec fn modified(key: Option<Key>, mods: Mods) -> Option<KeyEvent> {
    match key {
        Some(key) => Some(KeyEvent { key, mods }),
        None => None,
    }
}

/// The key reported by a control sequence with parameter bytes `body` that
/// ends in `last`. A sequence that is not known reports nothing.
pub open spec fn csi_key(body: Seq<u8>, last: u8) -> Option<KeyEvent> {
    if last == 0x5A {
        Some(KeyEvent { key: Key::Tab, mods: Mods { shift: true, ..no_mods() } })
    } else if last == 0x7E {
        modified(tilde_key(param(body, 0)), mods_of(param(body, 1)))
    } else {
        modified(cursor_key(last), mods_of(param(body, 1)))
    }
}

/// The front of the input read as a control sequence; `b` starts with `ESC [`.
pub open spec fn csi_item(b: Seq<u8>) -> Item {
    let rest = b.skip(2);
    let n = body_len(rest);
    if n > MAX_SEQ {
        Item::Consume(2 + MAX_SEQ, None)
    } else if n == rest.len() {
        Item::Incomplete
    } else if rest[n] == 0x7E && param(rest.take(n), 0) == 200 {
        Item::PasteStart(n + 3)
    } else {
        Item::Consume(n + 3, csi_key(rest.take(n), rest[n]))
    }
}

// ---------------------------------------------------------------------------
// All of it

/// The key that the byte after `ESC O` names.
pub open spec fn ss3_key(b: u8) -> Option<Key> {
    if 0x50 <= b <= 0x53 {
        Some(Key::F((b - 0x50 + 1) as u8))
    } else {
        cursor_key(b)
    }
}

/// An item with alt held, one byte longer for the `ESC` that says so.
pub open spec fn alt_item(plain: Item) -> Item {
    match plain {
        Item::Consume(n, Some(k)) => Item::Consume(n + 1, Some(add_alt(k))),
        other => other,
    }
}

/// What the front of the input amounts to while more may come.
pub open spec fn item(b: Seq<u8>) -> Item {
    if b.len() == 0 {
        Item::Incomplete
    } else if b[0] != ESC {
        plain_item(b)
    } else if b.len() == 1 {
        Item::Incomplete
    } else if b[1] == ESC {
        Item::Consume(1, Some(bare(Key::Esc)))
    } else if b[1] == 0x5B {
        csi_item(b)
    } else if b[1] == 0x4F {
        if b.len() < 3 {
            Item::Incomplete
        } else {
            Item::Consume(3, modified(ss3_key(b[2]), no_mods()))
        }
    } else {
        alt_item(plain_item(b.skip(1)))
    }
}

/// What the front of the input amounts to once nothing more is coming: an
/// `ESC` that still waits for its continuation is the Esc key, and a character
/// that is still short of bytes is malformed.
pub open spec fn flushed_item(b: Seq<u8>) -> Item {
    if b.len() > 0 && item(b) is Incomplete {
        if b[0] == ESC {
            Item::Consume(1, Some(bare(Key::Esc)))
        } else {
            Item::Consume(1, Some(bare(Key::Char(REPLACEMENT))))
        }
    } else {
        item(b)
    }
}

// ---------------------------------------------------------------------------
// Facts about the grammar

/// `body_len` is the place of the first final byte.
pub proof fn lemma_body_len(s: Seq<u8>, n: int)
    requires
        0 <= n <= s.len(),
        forall|i: int| 0 <= i < n ==> !is_final(#[trigger] s[i]),
        n < s.len() ==> is_final(s[n]),
    ensures
        body_len(s) == n,
    decreases n,
{
    if n > 0 {
        let rest = s.skip(1);
        assert forall|i: int| 0 <= i < n - 1 implies !is_final(#[trigger] rest[i]) by {
            assert(rest[i] == s[i + 1]);
        }
        lemma_body_len(rest, n - 1);
    }
}

/// What `body_len` says of the bytes.
pub proof fn lemma_body_len_means(s: Seq<u8>)
    ensures
        0 <= body_len(s) <= s.len(),
        forall|i: int| 0 <= i < body_len(s) ==> !is_final(#[trigger] s[i]),
        body_len(s) < s.len() ==> is_final(s[body_len(s)]),
    decreases s.len(),
{
    if s.len() > 0 && !is_final(s[0]) {
        let rest = s.skip(1);
        lemma_body_len_means(rest);
        assert forall|i: int| 0 <= i < body_len(s) implies !is_final(#[trigger] s[i]) by {
            if i > 0 {
                assert(s[i] == rest[i - 1]);
            }
        }
    }
}

/// `field_len` is the place of the first `;`.
pub proof fn lemma_field_len(s: Seq<u8>, n: int)
    requires
        0 <= n <= s.len(),
        forall|i: int| 0 <= i < n ==> #[trigger] s[i] != 0x3B,
        n < s.len() ==> s[n] == 0x3B,
    ensures
        field_len(s) == n,
    decreases n,
{
    if n > 0 {
        let rest = s.skip(1);
        assert forall|i: int| 0 <= i < n - 1 implies #[trigger] rest[i] != 0x3B by {
            assert(rest[i] == s[i + 1]);
        }
        lemma_field_len(rest, n - 1);
    }
}

/// A character is well-formed on its own exactly if it is so at the front of a
/// longer input.
pub proof fn lemma_char_alone(b: Seq<u8>)
    requires
        b.len() > 0,
        1 < char_width(b[0]) <= b.len(),
    ensures
        valid_utf8(b.take(char_width(b[0]))) <==> valid_first_scalar(b),
        valid_first_scalar(b) ==> vstd::utf8::decode_utf8(b.take(char_width(b[0])))
            == seq![decode_first_scalar(b) as char],
{
    let w = char_width(b[0]);
    let c = b.take(w);
    reveal_with_fuel(valid_utf8, 2);
    assert(valid_first_scalar(c) <==> valid_first_scalar(b));
    if valid_first_scalar(b) {
        assert(vstd::utf8::pop_first_scalar(c) =~= Seq::<u8>::empty());
        assert(valid_utf8(c));
        reveal_with_fuel(vstd::utf8::decode_utf8, 2);
        assert(vstd::utf8::decode_utf8(c) =~= seq![decode_first_scalar(b) as char]);
    }
}

// ---------------------------------------------------------------------------
// The grammar, computed

/// Decode a non-escape byte sequence: a control key or a UTF-8 character.
pub(crate) fn decode_plain(b: &[u8]) -> (step: Step)
    requires
        b.len() > 0,
    ensures
        step@ == plain_item(b@),
{
    let lead = b[0];
    if lead == 0x0D {
        return Step::Consume(1, Some(key_mods(Key::Enter, Mods::default())));
    }
    if lead == 0x09 {
        return Step::Consume(1, Some(key_mods(Key::Tab, Mods::default())));
    }
    if lead == 0x7F {
        return Step::Consume(1, Some(key_mods(Key::Backspace, Mods::default())));
    }
    let ctrl = Mods { shift: false, alt: false, ctrl: true };
    if lead == 0x08 {
        return Step::Consume(1, Some(key_mods(Key::Backspace, ctrl)));
    }
    if lead == 0x00 {
        return Step::Consume(1, Some(key_mods(Key::Char(' '), ctrl)));
    }
    if lead <= 0x1A {
        let ch = (0x61 + lead - 1) as char;
        return Step::Consume(1, Some(key_mods(Key::Char(ch), ctrl)));
    }
    if 0x1C <= lead && lead <= 0x1F {
        let ch = (0x5C + (lead - 0x1C)) as char; // \ ] ^ _
        return Step::Consume(1, Some(key_mods(Key::Char(ch), ctrl)));
    }
    if 0x20 <= lead && lead <= 0x7E {
        return Step::Consume(1, Some(key_mods(Key::Char(lead as char), Mods::default())));
    }
    let want: usize = if 0xC0 <= lead && lead <= 0xDF {
        2
    } else if 0xE0 <= lead && lead <= 0xEF {
        3
    } else if 0xF0 <= lead && lead <= 0xF7 {
        4
    } else {
        return Step::Consume(1, Some(key_mods(Key::Char(REPLACEMENT), Mods::default())));
    };
    if b.len() < want {
        return Step::Incomplete;
    }
    proof {
        lemma_char_alone(b@);
    }
    assert(b@.subrange(0, want as int) =~= b@.take(want as int));
    match core::str::from_utf8(vstd::slice::slice_subrange(b, 0, want)) {
        Ok(s) => {
            let ch = s.get_char(0);
            Step::Consume(want, Some(key_mods(Key::Char(ch), Mods::default())))
        },
        Err(_) => Step::Consume(1, Some(key_mods(Key::Char(REPLACEMENT), Mods::default()))),
    }
}

/// `key` with `mods` held.
pub(crate) fn key_mods(key: Key, mods: Mods) -> (event: KeyEvent)
    ensures
        event == (KeyEvent { key, mods }),
{
    KeyEvent { key, mods }
}

/// The modifiers an xterm modifier parameter names.
pub(crate) fn mods_from(param: u16) -> (mods: Mods)
    ensures
        mods == mods_of(param),
{
    if param < 2 {
        return Mods::default();
    }
    let bits: u16 = param - 1;
    assert(bits & 1 != 0 <==> bits % 2 == 1) by (bit_vector);
    assert(bits & 2 != 0 <==> bits / 2 % 2 == 1) by (bit_vector);
    assert(bits & 4 != 0 <==> bits / 4 % 2 == 1) by (bit_vector);
    Mods { shift: bits & 1 != 0, alt: bits & 2 != 0, ctrl: bits & 4 != 0 }
}

/// The parameters of a control sequence.
pub(crate) fn parse_params(bytes: &[u8]) -> (numbers: Vec<u16>)
    ensures
        numbers@ == params(bytes@),
{
    let mut out: Vec<u16> = Vec::new();
    if bytes.len() == 0 {
        return out;
    }
    let ghost all = fields(bytes@);
    let ghost to_number = |f: Seq<u8>| number(f);
    let mut start: usize = 0;
    let mut more: bool = true;
    let ghost mut done: Seq<Seq<u8>> = Seq::empty();
    assert(bytes@.skip(0) =~= bytes@);
    assert(all =~= done + fields(bytes@.skip(0)));
    while more && out.len() < MAX_PARAMS
        invariant
            start <= bytes.len(),
            all == fields(bytes@),
            to_number == (|f: Seq<u8>| number(f)),
            out@ == done.map_values(to_number),
            out.len() <= MAX_PARAMS,
            more ==> all == done + fields(bytes@.skip(start as int)),
            !more ==> all == done,
        decreases MAX_PARAMS - out.len(),
    {
        let ghost rest = bytes@.skip(start as int);
        let mut end: usize = start;
        while end < bytes.len() && bytes[end] != 0x3B
            invariant
                start <= end <= bytes.len(),
                rest == bytes@.skip(start as int),
                forall|i: int| 0 <= i < end - start ==> #[trigger] rest[i] != 0x3B,
            decreases bytes.len() - end,
        {
            assert(rest[end - start] == bytes@[end as int]);
            end = end + 1;
        }
        proof {
            if end < bytes.len() {
                assert(rest[end - start] == bytes@[end as int]);
            }
            lemma_field_len(rest, end - start);
        }
        let field = vstd::slice::slice_subrange(bytes, start, end);
        out.push(read_number(field));
        proof {
            done = done.push(field@);
            assert(out@ =~= done.map_values(to_number));
            if end < bytes.len() {
                assert(field@ =~= rest.take(end - start));
                assert(rest.skip(end - start + 1) =~= bytes@.skip(end + 1));
                assert(all =~= done + fields(bytes@.skip(end + 1)));
            } else {
                assert(field@ =~= rest);
                assert(all =~= done);
            }
        }
        if end < bytes.len() {
            start = end + 1;
        } else {
            more = false;
        }
    }
    proof {
        let numbers = all.map_values(to_number);
        if more {
            assert(done.len() == MAX_PARAMS);
            assert(fields(bytes@.skip(start as int)).len() > 0);
            assert(out@ =~= numbers.take(MAX_PARAMS as int));
        } else {
            assert(out@ =~= numbers);
        }
    }
    out
}

/// The key that the final byte of a control sequence or the byte after
/// `ESC O` names.
fn cursor(b: u8) -> (key: Option<Key>)
    ensures
        key == cursor_key(b),
{
    match b {
        0x41 => Some(Key::Up),
        0x42 => Some(Key::Down),
        0x43 => Some(Key::Right),
        0x44 => Some(Key::Left),
        0x48 => Some(Key::Home),
        0x46 => Some(Key::End),
        _ => None,
    }
}

/// The key that the number before a `~` names.
fn tilde(p: u16) -> (key: Option<Key>)
    ensures
        key == tilde_key(p),
{
    if p == 1 || p == 7 {
        Some(Key::Home)
    } else if p == 4 || p == 8 {
        Some(Key::End)
    } else if p == 2 {
        Some(Key::Insert)
    } else if p == 3 {
        Some(Key::Delete)
    } else if p == 5 {
        Some(Key::PageUp)
    } else if p == 6 {
        Some(Key::PageDown)
    } else if 11 <= p && p <= 15 {
        Some(Key::F((p - 10) as u8))
    } else if 17 <= p && p <= 21 {
        Some(Key::F((p - 11) as u8))
    } else if p == 23 || p == 24 {
        Some(Key::F((p - 12) as u8))
    } else {
        None
    }
}

/// An `ESC` that waits for its continuation: the Esc key if none is coming.
fn lone_esc(flush: bool) -> (step: Step)
    ensures
        flush ==> step@ == Item::Consume(1, Some(bare(Key::Esc))),
        !flush ==> step@ == Item::Incomplete,
{
    if flush {
        Step::Consume(1, Some(key_mods(Key::Esc, Mods::default())))
    } else {
        Step::Incomplete
    }
}

/// Decode a control sequence; `b` starts with `ESC [`.
pub(crate) fn decode_csi(b: &[u8], flush: bool) -> (step: Step)
    requires
        b.len() >= 2,
        b@[0] == ESC,
        b@[1] == 0x5B,
    ensures
        flush ==> step@ == flushed_item(b@),
        !flush ==> step@ == item(b@),
{
    let ghost rest = b@.skip(2);
    let mut i: usize = 2;
    while i < b.len() && !(0x40 <= b[i] && b[i] <= 0x7E)
        invariant
            2 <= i <= b.len(),
            i <= 2 + MAX_SEQ,
            rest == b@.skip(2),
            b.len() >= 2,
            b@[0] == ESC,
            b@[1] == 0x5B,
            forall|j: int| 0 <= j < i - 2 ==> !is_final(#[trigger] rest[j]),
        decreases b.len() - i,
    {
        assert(rest[i - 2] == b@[i as int]);
        if i - 2 >= MAX_SEQ {
            proof {
                lemma_body_len_means(rest);
                assert(body_len(rest) > MAX_SEQ);
            }
            return Step::Consume(i, None);  // runaway: drop
        }
        i = i + 1;
    }
    proof {
        if i < b.len() {
            assert(rest[i - 2] == b@[i as int]);
        }
        lemma_body_len(rest, i - 2);
    }
    if i >= b.len() {
        return lone_esc(flush);
    }
    let final_byte = b[i];
    let body = vstd::slice::slice_subrange(b, 2, i);
    assert(body@ =~= rest.take(i - 2));
    let params = parse_params(body);
    let consumed: usize = i + 1;
    let p0: u16 = if params.len() > 0 {
        params[0]
    } else {
        0
    };
    let p1: u16 = if params.len() > 1 {
        params[1]
    } else {
        0
    };
    let mods = mods_from(p1);
    if final_byte == 0x5A {
        let shift = Mods { shift: true, alt: false, ctrl: false };
        return Step::Consume(consumed, Some(key_mods(Key::Tab, shift)));
    }
    let key = if final_byte == 0x7E {
        if p0 == 200 {
            return Step::PasteStart(consumed);
        }
        tilde(p0)
    } else {
        cursor(final_byte)
    };
    match key {
        Some(key) => Step::Consume(consumed, Some(key_mods(key, mods))),
        None => Step::Consume(consumed, None),  // unrecognized: consume silently
    }
}

/// Decode the front of the input; `flush` says that nothing more is coming.
pub(crate) fn decode_one(b: &[u8], flush: bool) -> (step: Step)
    ensures
        flush ==> step@ == flushed_item(b@),
        !flush ==> step@ == item(b@),
{
    if b.len() == 0 {
        return Step::Incomplete;
    }
    if b[0] != ESC {
        return match decode_plain(b) {
            Step::Incomplete => if flush {
                Step::Consume(1, Some(key_mods(Key::Char(REPLACEMENT), Mods::default())))
            } else {
                Step::Incomplete
            },
            step => step,
        };
    }
    if b.len() == 1 {
        return lone_esc(flush);
    }
    let second = b[1];
    if second == ESC {
        return Step::Consume(1, Some(key_mods(Key::Esc, Mods::default())));
    }
    if second == 0x5B {
        return decode_csi(b, flush);
    }
    if second == 0x4F {
        if b.len() < 3 {
            return lone_esc(flush);
        }
        let third = b[2];
        let key = if 0x50 <= third && third <= 0x53 {
            Some(Key::F(third - 0x50 + 1))
        } else {
            cursor(third)
        };
        return match key {
            Some(key) => Step::Consume(3, Some(key_mods(key, Mods::default()))),
            None => Step::Consume(3, None),
        };
    }
    // Alt + whatever the rest decodes to (a character or a control).
    let rest = vstd::slice::slice_subrange(b, 1, b.len());
    assert(rest@ =~= b@.skip(1));
    match decode_plain(rest) {
        Step::Consume(n, Some(k)) => {
            let mods = Mods { shift: k.mods.shift, alt: true, ctrl: k.mods.ctrl };
            Step::Consume(n + 1, Some(key_mods(k.key, mods)))
        },
        _ => lone_esc(flush),
    }
}

} // verus!
