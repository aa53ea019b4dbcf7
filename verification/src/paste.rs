//! Bracketed paste: where the payload ends.

use vstd::prelude::*;

verus! {

/// Length of the paste terminator.
pub const END_LEN: usize = 6;

/// Cap on bracketed-paste payload, against a stream that never terminates
/// the paste.
pub const MAX_PASTE: usize = 0x10_0000;

/// The paste terminator, `ESC[201~`.
pub open spec fn paste_end() -> Seq<u8> {
    seq![0x1Bu8, 0x5Bu8, 0x32u8, 0x30u8, 0x31u8, 0x7Eu8]
}

/// The terminator stands in `s` at `i`.
pub open spec fn ends_at(s: Seq<u8>, i: int) -> bool {
    &&& 0 <= i
    &&& i + END_LEN <= s.len()
    &&& s.subrange(i, i + END_LEN) == paste_end()
}

/// The terminator stands in `s` at `i` and nowhere before.
pub open spec fn first_ends_at(s: Seq<u8>, i: int) -> bool {
    &&& ends_at(s, i)
    &&& forall|j: int| 0 <= j < i ==> !ends_at(s, j)
}

/// `s` holds the terminator.
pub open spec fn has_end(s: Seq<u8>) -> bool {
    exists|i: int| first_ends_at(s, i)
}

/// Where the first terminator in `s` stands.
pub open spec fn end_of(s: Seq<u8>) -> int {
    choose|i: int| first_ends_at(s, i)
}

/// The last `n` bytes of `s` could begin a terminator.
pub open spec fn could_end(s: Seq<u8>, n: int) -> bool {
    &&& 0 <= n <= s.len()
    &&& n <= END_LEN
    &&& s.skip(s.len() - n) == paste_end().take(n)
}

/// `n` is the length of the longest suffix of `s` that could begin a
/// terminator.
pub open spec fn is_held_len(s: Seq<u8>, n: int) -> bool {
    &&& could_end(s, n)
    &&& forall|m: int| n < m ==> !could_end(s, m)
}

/// How many bytes at the end of `s` must not be taken for payload yet.
pub open spec fn held_len(s: Seq<u8>) -> int {
    choose|n: int| is_held_len(s, n)
}

/// There is only one first terminator.
pub proof fn lemma_end_of(s: Seq<u8>, i: int)
    requires
        first_ends_at(s, i),
    ensures
        has_end(s),
        end_of(s) == i,
{
    let k = end_of(s);
    assert(first_ends_at(s, k));
    if k < i {
        assert(!ends_at(s, k));
    }
    if i < k {
        assert(!ends_at(s, i));
    }
}

/// Where a terminator stands at all, one stands first.
pub proof fn lemma_has_end(s: Seq<u8>, i: int)
    requires
        ends_at(s, i),
    ensures
        has_end(s),
        end_of(s) <= i,
    decreases i,
{
    if exists|j: int| 0 <= j < i && ends_at(s, j) {
        let j = choose|j: int| 0 <= j < i && ends_at(s, j);
        lemma_has_end(s, j);
    } else {
        assert(first_ends_at(s, i));
        lemma_end_of(s, i);
    }
}

/// There is only one longest suffix.
pub proof fn lemma_held_len(s: Seq<u8>, n: int)
    requires
        is_held_len(s, n),
    ensures
        held_len(s) == n,
{
    let k = held_len(s);
    assert(is_held_len(s, k));
    if k < n {
        assert(!could_end(s, n));
    }
    if n < k {
        assert(!could_end(s, k));
    }
}

/// There is a longest suffix.
pub proof fn lemma_held_len_exists(s: Seq<u8>)
    ensures
        is_held_len(s, held_len(s)),
{
    assert(s.skip(s.len() as int) =~= paste_end().take(0));
    assert(could_end(s, 0));
    lemma_longest_from(s, END_LEN as int);
}

proof fn lemma_longest_from(s: Seq<u8>, n: int)
    requires
        0 <= n <= END_LEN,
        could_end(s, 0),
        forall|m: int| n < m ==> !could_end(s, m),
    ensures
        exists|k: int| is_held_len(s, k),
    decreases n,
{
    if could_end(s, n) {
        assert(is_held_len(s, n));
    } else {
        lemma_longest_from(s, n - 1);
    }
}

/// A terminator inside the end of `s` is a terminator of `s`.
pub proof fn lemma_ends_at_skip(s: Seq<u8>, k: int, i: int)
    requires
        0 <= k <= s.len(),
    ensures
        ends_at(s.skip(k), i) <==> 0 <= i && ends_at(s, k + i),
{
    let t = s.skip(k);
    if 0 <= i && i + END_LEN <= t.len() {
        assert(t.subrange(i, i + END_LEN) =~= s.subrange(k + i, k + i + END_LEN));
    }
}

/// What is held back is all held back, and it holds no terminator.
pub proof fn lemma_held_is_unfinished(s: Seq<u8>)
    requires
        !has_end(s),
    ensures
        !has_end(s.skip(s.len() - held_len(s))),
        held_len(s.skip(s.len() - held_len(s))) == held_len(s),
        0 <= held_len(s) <= s.len(),
{
    lemma_held_len_exists(s);
    let n = held_len(s);
    let held = s.skip(s.len() - n);
    assert(is_held_len(held, n)) by {
        assert(held.skip(0) =~= held);
    }
    lemma_held_len(held, n);
    if has_end(held) {
        let i = end_of(held);
        assert(first_ends_at(held, i));
        lemma_ends_at_skip(s, s.len() - n, i);
        lemma_has_end(s, s.len() - n + i);
    }
}

/// The terminator, as bytes to compare with.
fn end_byte(i: usize) -> (b: u8)
    requires
        i < END_LEN,
    ensures
        b == paste_end()[i as int],
{
    match i {
        0 => 0x1B,
        1 => 0x5B,
        2 => 0x32,
        3 => 0x30,
        4 => 0x31,
        _ => 0x7E,
    }
}

/// Whether the `n` bytes of `s` from `at` on are the first `n` of the
/// terminator.
fn begins_end(s: &[u8], at: usize, n: usize) -> (b: bool)
    requires
        n <= END_LEN,
        at + n <= s.len(),
    ensures
        b == (s@.subrange(at as int, at + n) == paste_end().take(n as int)),
{
    let ghost part = s@.subrange(at as int, at + n);
    let mut i: usize = 0;
    while i < n
        invariant
            i <= n <= END_LEN,
            at + n <= s.len(),
            part == s@.subrange(at as int, at + n),
            forall|j: int| 0 <= j < i ==> #[trigger] part[j] == paste_end()[j],
        decreases n - i,
    {
        assert(part[i as int] == s@[at + i]);
        if s[at + i] != end_byte(i) {
            assert(paste_end().take(n as int)[i as int] == paste_end()[i as int]);
            return false;
        }
        i = i + 1;
    }
    assert(part =~= paste_end().take(n as int));
    true
}

/// Find `ESC[201~` in `buf`; returns (payload end, bytes consumed through
/// the terminator).
pub(crate) fn find_paste_end(buf: &[u8]) -> (found: Option<(usize, usize)>)
    ensures
        found is Some <==> has_end(buf@),
        found matches Some((end, after)) ==> end == end_of(buf@) && first_ends_at(buf@, end as int)
            && after == end + END_LEN,
{
    let mut i: usize = 0;
    while buf.len() >= END_LEN && i <= buf.len() - END_LEN
        invariant
            i <= buf.len(),
            forall|j: int| 0 <= j < i ==> !ends_at(buf@, j),
        decreases buf.len() - i,
    {
        assert(paste_end().take(END_LEN as int) =~= paste_end());
        if begins_end(buf, i, END_LEN) {
            proof {
                lemma_end_of(buf@, i as int);
            }
            return Some((i, i + END_LEN));
        }
        i = i + 1;
    }
    assert forall|j: int| !first_ends_at(buf@, j) by {
        if ends_at(buf@, j) {
            assert(j < i);
        }
    }
    None
}

/// Length of the longest buffer suffix that is a prefix of the paste
/// terminator (and so must not yet be treated as payload).
pub(crate) fn partial_terminator_len(buf: &[u8]) -> (n: usize)
    ensures
        n == held_len(buf@),
        n <= buf.len(),
        is_held_len(buf@, n as int),
{
    let mut n: usize = if buf.len() < END_LEN {
        buf.len()
    } else {
        END_LEN
    };
    while n > 0
        invariant
            n <= buf.len(),
            n <= END_LEN,
            forall|m: int| n < m ==> !could_end(buf@, m),
        decreases n,
    {
        assert(buf@.skip(buf.len() - n) =~= buf@.subrange(buf.len() - n, buf.len() as int));
        if begins_end(buf, buf.len() - n, n) {
            proof {
                lemma_held_len(buf@, n as int);
            }
            return n;
        }
        n = n - 1;
    }
    proof {
        assert(buf@.skip(buf.len() as int) =~= paste_end().take(0));
        lemma_held_len(buf@, 0);
    }
    0
}

} // verus!
