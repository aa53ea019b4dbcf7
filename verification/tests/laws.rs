//! The laws of the decoder, on concrete values.

use rawterm::{Decoder, Event, Key, KeyEvent, Mods};

fn decode(input: &[u8]) -> Vec<Event> {
    Decoder::new().feed(input)
}

#[test]
fn every_cut_gives_the_same_events() {
    let stream = "a\x1b[1;5C\x1b[200~p\x1b[20q\x1b[201~\u{e9}\u{1F600}\x1bOQ\x1b\x1bz".as_bytes();
    let whole = decode(stream);
    assert_eq!(whole.len(), 8);
    for i in 0..=stream.len() {
        for j in i..=stream.len() {
            let mut d = Decoder::new();
            let mut out = d.feed(&stream[..i]);
            out.extend(d.feed(&stream[i..j]));
            out.extend(d.feed(&stream[j..]));
            assert_eq!(out, whole, "cut at {} and {}", i, j);
        }
    }
}

#[test]
fn feeding_nothing_changes_nothing() {
    let mut d = Decoder::new();
    assert_eq!(d.feed(b"\x1b[1;"), vec![]);
    assert_eq!(d.feed(b""), vec![]);
    assert!(d.has_pending());
    assert_eq!(d.feed(b"3A"), vec![Event::key(Key::Up).alt()]);
}

#[test]
fn a_second_flush_finds_nothing() {
    let mut d = Decoder::new();
    assert_eq!(d.feed(b"\x1b"), vec![]);
    assert_eq!(d.flush(), vec![Event::key(Key::Esc)]);
    assert_eq!(d.flush(), vec![]);
    assert_eq!(Decoder::new().flush(), vec![]);
}

#[test]
fn a_flush_leaves_nothing() {
    let replaced = Event::key(Key::Char('\u{FFFD}'));
    let mut d = Decoder::new();
    assert_eq!(d.feed(b"\xc3"), vec![]);
    assert!(d.has_pending());
    assert!(!d.waits_on_esc());
    assert_eq!(d.flush(), vec![replaced.clone()]);
    assert!(!d.has_pending());
    assert_eq!(d.feed(b"\xe2\x82"), vec![]);
    assert_eq!(d.flush(), vec![replaced.clone(), replaced.clone()]);
    assert!(!d.has_pending());
    assert_eq!(d.feed(b"\x1b\xf0\x9f"), vec![]);
    assert!(d.waits_on_esc());
    assert!(!d.is_lone_esc());
    assert_eq!(
        d.flush(),
        vec![Event::key(Key::Esc), replaced.clone(), replaced]
    );
    assert!(!d.has_pending());
    assert_eq!(d.feed(b"k"), vec![Event::key(Key::Char('k'))]);
}

#[test]
fn every_byte_reports_input_alone() {
    for b in 0u8..=255 {
        for prefix in [&b""[..], b"\x1b", b"\x1bO", b"\x1b[", b"\x1b[1;2"] {
            let mut stream = prefix.to_vec();
            stream.push(b);
            let mut d = Decoder::new();
            let mut events = d.feed(&stream);
            events.extend(d.flush());
            for event in events {
                match event {
                    Event::Key(k) => match k.key {
                        Key::Char(c) => assert!(!c.is_ascii_control() && !k.mods.shift),
                        Key::F(n) => assert!(1 <= n && n <= 12),
                        _ => {}
                    },
                    other => panic!("no key: {:?}", other),
                }
            }
        }
    }
}

#[test]
fn text_arrives_as_typed() {
    let text = "Gr\u{fc}\u{df}e, \u{4e16}\u{754c} \u{1F600}~";
    let expected: Vec<Event> = text.chars().map(|c| Event::key(Key::Char(c))).collect();
    assert_eq!(decode(text.as_bytes()), expected);
}

#[test]
fn malformed_characters_cost_one_byte_each() {
    // An overlong form, a surrogate, a stray continuation, a cut character.
    for bad in [&b"\xc0\x80"[..], b"\xed\xa0\x80", b"\x80", b"\xe2\x28\xa1"] {
        let mut stream = bad.to_vec();
        stream.push(b'k');
        let events = decode(&stream);
        assert_eq!(events[0], Event::key(Key::Char('\u{FFFD}')));
        assert_eq!(events[events.len() - 1], Event::key(Key::Char('k')));
    }
    assert_eq!(
        decode(b"\xe2\x28\xa1"),
        vec![
            Event::key(Key::Char('\u{FFFD}')),
            Event::key(Key::Char('(')),
            Event::key(Key::Char('\u{FFFD}')),
        ]
    );
}

#[test]
fn the_modifier_parameter_is_a_bitmask() {
    for m in 2u8..=8 {
        let bits = m - 1;
        let mods = Mods {
            shift: bits & 1 != 0,
            alt: bits & 2 != 0,
            ctrl: bits & 4 != 0,
        };
        let mut stream = b"\x1b[1;".to_vec();
        stream.push(b'0' + m);
        stream.push(b'H');
        assert_eq!(
            decode(&stream),
            vec![Event::Key(KeyEvent {
                key: Key::Home,
                mods
            })]
        );
    }
    assert_eq!(decode(b"\x1b[1;1A"), vec![Event::key(Key::Up)]);
    assert_eq!(decode(b"\x1b[1;0A"), vec![Event::key(Key::Up)]);
}

#[test]
fn numbered_keys() {
    let keys: [(&[u8], Key); 20] = [
        (b"1", Key::Home),
        (b"2", Key::Insert),
        (b"3", Key::Delete),
        (b"4", Key::End),
        (b"5", Key::PageUp),
        (b"6", Key::PageDown),
        (b"7", Key::Home),
        (b"8", Key::End),
        (b"11", Key::F(1)),
        (b"12", Key::F(2)),
        (b"13", Key::F(3)),
        (b"14", Key::F(4)),
        (b"15", Key::F(5)),
        (b"17", Key::F(6)),
        (b"18", Key::F(7)),
        (b"19", Key::F(8)),
        (b"20", Key::F(9)),
        (b"21", Key::F(10)),
        (b"23", Key::F(11)),
        (b"24", Key::F(12)),
    ];
    for (number, key) in keys {
        let mut stream = b"\x1b[".to_vec();
        stream.extend_from_slice(number);
        stream.push(b'~');
        assert_eq!(decode(&stream), vec![Event::key(key)]);
    }
    assert_eq!(decode(b"\x1b[16~"), vec![]);
    assert_eq!(decode(b"\x1b[201~"), vec![]);
}

#[test]
fn function_keys_in_both_spellings() {
    for i in 0u8..4 {
        let last = b'P' + i;
        assert_eq!(
            decode(&[0x1b, b'O', last]),
            vec![Event::key(Key::F(i + 1))]
        );
        assert_eq!(
            decode(&[0x1b, b'[', b'1', b'1' + i, b'~']),
            vec![Event::key(Key::F(i + 1))]
        );
    }
    assert_eq!(decode(b"\x1bOA"), vec![Event::key(Key::Up)]);
}

#[test]
fn numbers_too_large_saturate() {
    assert_eq!(decode(b"\x1b[99999999~"), vec![]);
    assert_eq!(decode(b"\x1b[65738~"), vec![]); // no wrap to 202 or below
}

#[test]
fn parameters_beyond_the_eighth_are_dropped() {
    assert_eq!(
        decode(b"\x1b[1;5;1;1;1;1;1;1;1;1;1;1A"),
        vec![Event::key(Key::Up).ctrl()]
    );
}

#[test]
fn a_sequence_that_never_ends_is_dropped() {
    let mut stream = b"\x1b[".to_vec();
    stream.extend(std::iter::repeat(b'1').take(64));
    let mut d = Decoder::new();
    assert_eq!(d.feed(&stream), vec![]);
    assert!(d.has_pending());
    assert_eq!(
        d.feed(b"2x"),
        vec![Event::key(Key::Char('2')), Event::key(Key::Char('x'))]
    );
    assert!(!d.has_pending());
    // With its last byte just in time, it is a sequence like any other.
    stream.push(b'A');
    assert_eq!(decode(&stream), vec![Event::key(Key::Up)]);
}

#[test]
fn pasted_text_is_unchanged() {
    let text = "z\u{fc}rich\r\n\x1b[A\x1b[201 \u{1F600}";
    let mut stream = b"\x1b[200~".to_vec();
    stream.extend_from_slice(text.as_bytes());
    stream.extend_from_slice(b"\x1b[201~");
    assert_eq!(decode(&stream), vec![Event::Paste(text.to_string())]);
}

#[test]
fn malformed_paste_is_repaired() {
    assert_eq!(
        decode(b"\x1b[200~a\xffb\x1b[201~"),
        vec![Event::Paste("a\u{FFFD}b".to_string())]
    );
}

#[test]
fn a_paste_cut_inside_its_terminator_is_delivered_whole_on_flush() {
    let mut d = Decoder::new();
    assert_eq!(d.feed(b"\x1b[200~data\x1b[20"), vec![]);
    assert_eq!(d.flush(), vec![Event::Paste("data\x1b[20".to_string())]);
    assert_eq!(d.feed(b"x"), vec![Event::key(Key::Char('x'))]);
}

#[test]
fn a_runaway_paste_is_delivered() {
    let max: usize = 1 << 20;
    let mut d = Decoder::new();
    assert_eq!(d.feed(b"\x1b[200~"), vec![]);
    let payload = vec![b'p'; max];
    assert_eq!(d.feed(&payload), vec![]);
    let events = d.feed(b"q");
    assert_eq!(events.len(), 1);
    match &events[0] {
        Event::Paste(text) => {
            assert_eq!(text.len(), max + 1);
            assert!(text.ends_with("pq"));
        }
        other => panic!("not a paste: {:?}", other),
    }
    assert_eq!(d.feed(b"x"), vec![Event::key(Key::Char('x'))]);
}

#[test]
fn modifiers_touch_keys_alone() {
    let resize = Event::Resize { rows: 24, cols: 80 };
    assert_eq!(resize.clone().ctrl().alt().shift(), resize);
    let paste = Event::Paste("p".to_string());
    assert_eq!(paste.clone().ctrl().alt().shift(), paste);
    assert_eq!(
        Event::key(Key::Tab).ctrl().alt().shift(),
        Event::Key(KeyEvent {
            key: Key::Tab,
            mods: Mods {
                shift: true,
                alt: true,
                ctrl: true
            }
        })
    );
    assert_eq!(
        Event::key(Key::F(3)),
        Event::Key(KeyEvent {
            key: Key::F(3),
            mods: Mods::default()
        })
    );
}
