//! The decisions of a terminal that waits for events.

use rawterm::terminal::{Reply, Request, ESC_GRACE, POLL_TICK};
use rawterm::{Event, Key, Terminal};

fn size(left: Option<u128>) -> Reply {
    Reply::Size {
        rows: 24,
        cols: 80,
        left,
    }
}

fn key(key: Key) -> Request {
    Request::Return(Some(Event::key(key)))
}

#[test]
fn queued_events_are_returned_in_order() {
    let mut t = Terminal::raw((24, 80));
    assert_eq!(t.read_event(Reply::Begin), Request::QuerySize);
    assert_eq!(t.read_event(size(None)), Request::Read(POLL_TICK));
    assert_eq!(
        t.read_event(Reply::Bytes(b"ab\x1b[A".to_vec())),
        key(Key::Char('a'))
    );
    assert_eq!(t.read_event(Reply::Begin), key(Key::Char('b')));
    assert_eq!(t.read_event(Reply::Begin), key(Key::Up));
    assert_eq!(t.read_event(Reply::Begin), Request::QuerySize);
}

#[test]
fn a_wait_without_input_starts_over() {
    let mut t = Terminal::raw((24, 80));
    assert_eq!(t.read_event(Reply::Bytes(Vec::new())), Request::QuerySize);
    assert_eq!(
        t.read_event(Reply::Bytes(b"\x1b[?1;2c".to_vec())),
        Request::QuerySize
    );
}

#[test]
fn a_resize_is_reported_once() {
    let mut t = Terminal::raw((24, 79));
    assert_eq!(
        t.read_event(size(Some(0))),
        Request::Return(Some(Event::Resize { rows: 24, cols: 80 }))
    );
    assert_eq!(t.read_event(size(Some(0))), Request::Return(None));
    assert_eq!(
        t.read_event(Reply::Size {
            rows: 25,
            cols: 80,
            left: None
        }),
        Request::Return(Some(Event::Resize { rows: 25, cols: 80 }))
    );
}

#[test]
fn waits_end_at_the_deadline() {
    let mut t = Terminal::raw((24, 80));
    assert_eq!(t.read_event(size(Some(0))), Request::Return(None));
    assert_eq!(t.read_event(size(Some(1))), Request::Read(1));
    assert_eq!(
        t.read_event(size(Some(59_999_999))),
        Request::Read(59_999_999)
    );
    assert_eq!(
        t.read_event(size(Some(60_000_000))),
        Request::Read(60_000_000)
    );
    assert_eq!(t.read_event(size(Some(u128::MAX))), Request::Read(POLL_TICK));
    assert_eq!((POLL_TICK, ESC_GRACE), (60_000_000, 15_000_000));
}

#[test]
fn a_lone_esc_is_the_esc_key_after_its_grace() {
    let mut t = Terminal::raw((24, 80));
    assert_eq!(
        t.read_event(Reply::Bytes(b"\x1b".to_vec())),
        Request::ReadMore(ESC_GRACE)
    );
    assert_eq!(t.read_event(Reply::More(Vec::new())), key(Key::Esc));
    assert_eq!(t.read_event(Reply::Begin), Request::QuerySize);
}

#[test]
fn a_continued_esc_is_a_sequence() {
    let mut t = Terminal::raw((24, 80));
    assert_eq!(
        t.read_event(Reply::Bytes(b"\x1b".to_vec())),
        Request::ReadMore(ESC_GRACE)
    );
    assert_eq!(
        t.read_event(Reply::More(b"[Dx".to_vec())),
        key(Key::Left)
    );
    assert_eq!(t.read_event(Reply::Begin), key(Key::Char('x')));
}

/// A terminal that has returned `a` and holds the `ESC` that came behind it.
fn esc_left_waiting() -> Terminal {
    let mut t = Terminal::raw((24, 80));
    assert_eq!(
        t.read_event(Reply::Bytes(b"a\x1b".to_vec())),
        key(Key::Char('a'))
    );
    assert_eq!(t.read_event(Reply::Begin), Request::QuerySize);
    t
}

#[test]
fn an_esc_behind_an_event_is_resolved_by_the_next_call() {
    for left in [None, Some(1), Some(1_000_000_000)] {
        let mut t = esc_left_waiting();
        assert_eq!(t.read_event(size(left)), Request::ReadMore(ESC_GRACE));
        assert_eq!(t.read_event(Reply::More(Vec::new())), key(Key::Esc));
        assert_eq!(t.read_event(Reply::Begin), Request::QuerySize);
        assert_eq!(t.read_event(size(None)), Request::Read(POLL_TICK));
    }
}

#[test]
fn an_esc_behind_an_event_may_be_continued() {
    let mut t = esc_left_waiting();
    assert_eq!(t.read_event(size(None)), Request::ReadMore(ESC_GRACE));
    assert_eq!(
        t.read_event(Reply::More(b"[1;5C".to_vec())),
        Request::Return(Some(Event::key(Key::Right).ctrl()))
    );
}

#[test]
fn a_resize_comes_before_a_waiting_esc() {
    let mut t = esc_left_waiting();
    assert_eq!(
        t.read_event(Reply::Size {
            rows: 30,
            cols: 80,
            left: Some(0)
        }),
        Request::Return(Some(Event::Resize { rows: 30, cols: 80 }))
    );
    // Nothing was taken in: the sequence can still be continued.
    assert_eq!(
        t.read_event(Reply::Bytes(b"[B".to_vec())),
        key(Key::Down)
    );
}

#[test]
fn a_timeout_comes_before_a_waiting_esc() {
    let mut t = esc_left_waiting();
    assert_eq!(t.read_event(size(Some(0))), Request::Return(None));
    assert_eq!(t.read_event(Reply::Begin), Request::QuerySize);
    assert_eq!(t.read_event(size(None)), Request::ReadMore(ESC_GRACE));
    assert_eq!(t.read_event(Reply::More(Vec::new())), key(Key::Esc));
}

#[test]
fn a_sequence_continued_slowly_is_still_one() {
    let mut t = Terminal::raw((24, 80));
    assert_eq!(
        t.read_event(Reply::Bytes(b"\x1b".to_vec())),
        Request::ReadMore(ESC_GRACE)
    );
    assert_eq!(
        t.read_event(Reply::More(b"[".to_vec())),
        Request::QuerySize
    );
    assert_eq!(t.read_event(size(None)), Request::Read(POLL_TICK));
    assert_eq!(t.read_event(Reply::Bytes(Vec::new())), Request::QuerySize);
    assert_eq!(t.read_event(size(None)), Request::Read(POLL_TICK));
    assert_eq!(t.read_event(Reply::Bytes(b"A".to_vec())), key(Key::Up));
}

#[test]
fn a_paste_behind_a_key_may_be_cut_inside_its_terminator() {
    let mut t = Terminal::raw((24, 80));
    assert_eq!(
        t.read_event(Reply::Bytes(b"x\x1b[200~ab\x1b".to_vec())),
        key(Key::Char('x'))
    );
    assert_eq!(t.read_event(Reply::Begin), Request::QuerySize);
    assert_eq!(t.read_event(size(None)), Request::Read(POLL_TICK));
    assert_eq!(t.read_event(Reply::Bytes(Vec::new())), Request::QuerySize);
    assert_eq!(t.read_event(size(None)), Request::Read(POLL_TICK));
    assert_eq!(
        t.read_event(Reply::Bytes(b"[201~".to_vec())),
        Request::Return(Some(Event::Paste("ab".to_string())))
    );
}

#[test]
fn a_character_cut_by_slow_reads_stays_whole() {
    let mut t = Terminal::raw((24, 80));
    assert_eq!(
        t.read_event(Reply::Bytes(b"\xc3".to_vec())),
        Request::QuerySize
    );
    assert_eq!(t.read_event(Reply::More(Vec::new())), Request::QuerySize);
    assert_eq!(t.read_event(size(None)), Request::Read(POLL_TICK));
    assert_eq!(t.read_event(Reply::Bytes(Vec::new())), Request::QuerySize);
    assert_eq!(
        t.read_event(Reply::Bytes(b"\xa9".to_vec())),
        key(Key::Char('\u{e9}'))
    );
}

#[test]
fn reads_may_cut_anywhere() {
    let stream = "a\u{e9}\x1b[1;5C\x1b[200~p\x1b[201~z".as_bytes();
    let expected = vec![
        Event::key(Key::Char('a')),
        Event::key(Key::Char('\u{e9}')),
        Event::key(Key::Right).ctrl(),
        Event::Paste("p".to_string()),
        Event::key(Key::Char('z')),
    ];
    for cut in 1..stream.len() {
        let mut t = Terminal::raw((24, 80));
        let mut parts = vec![stream[cut..].to_vec(), stream[..cut].to_vec()];
        let mut events: Vec<Event> = Vec::new();
        let mut reply = Reply::Begin;
        loop {
            reply = match t.read_event(reply) {
                Request::Return(Some(event)) => {
                    events.push(event);
                    Reply::Begin
                }
                Request::Return(None) => break,
                Request::QuerySize => size(if parts.is_empty() { Some(0) } else { None }),
                Request::Read(_) => Reply::Bytes(parts.pop().unwrap_or_default()),
                Request::ReadMore(_) => Reply::More(parts.pop().unwrap_or_default()),
            };
        }
        assert_eq!(events, expected, "cut at {}", cut);
    }
}

#[test]
fn the_mouse_is_released_only_if_captured() {
    let mut t = Terminal::raw((24, 80));
    assert_eq!(t.release_mouse(), Vec::<u8>::new());
    t.set_mouse(true);
    t.set_mouse(true);
    assert_eq!(t.release_mouse(), b"\x1b[?1006l\x1b[?1000l".to_vec());
    t.set_mouse(false);
    assert_eq!(t.release_mouse(), Vec::<u8>::new());
}
