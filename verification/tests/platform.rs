//! The console, the terminal attributes and the way into raw mode.

use rawterm::console::{
    raw_input_mode, raw_output_mode, records_to_read, wait_millis, window_size, ConsoleInput,
    InputRecord, KeyRecord, SmallRect,
};
use rawterm::mouse::FROM_LEFT_1ST_BUTTON;
use rawterm::setup::{Call, Device, Devices, Setup};
use rawterm::termios::{linux, macos};
use rawterm::unix::{after_empty_read, after_poll, after_wait, mouse_switch, poll_millis, Polled};
use rawterm::utf16::flush_units;
use rawterm::{Coord, MouseRecord};

fn press(unicode_char: u16) -> InputRecord {
    InputRecord::Key(KeyRecord {
        key_down: 1,
        repeat_count: 1,
        unicode_char,
    })
}

fn click(buttons: u32) -> InputRecord {
    InputRecord::Mouse(MouseRecord {
        position: Coord { x: 0, y: 0 },
        button_state: buttons,
        control_key_state: 0,
        event_flags: 0,
    })
}

#[test]
fn units_become_utf8() {
    let mut units: Vec<u16> = "a\u{e9}\u{20AC}\u{1F600}".encode_utf16().collect();
    let mut out: Vec<u8> = b">".to_vec();
    let mut pending: Option<u16> = None;
    flush_units(&mut units, &mut out, &mut pending);
    assert_eq!(out, ">a\u{e9}\u{20AC}\u{1F600}".as_bytes());
    assert_eq!(pending, None);
    assert!(units.is_empty());
}

#[test]
fn half_a_pair_waits_for_the_other() {
    let mut out: Vec<u8> = Vec::new();
    let mut pending: Option<u16> = None;
    flush_units(&mut vec![0x41, 0xD83D], &mut out, &mut pending);
    assert_eq!(out, b"A");
    assert_eq!(pending, Some(0xD83D));
    flush_units(&mut vec![0xDE00], &mut out, &mut pending);
    assert_eq!(out, "A\u{1F600}".as_bytes());
    assert_eq!(pending, None);
}

#[test]
fn half_a_pair_alone_is_replaced() {
    let mut out: Vec<u8> = Vec::new();
    let mut pending: Option<u16> = None;
    flush_units(
        &mut vec![0xDE00, 0x41, 0xD83D, 0x42],
        &mut out,
        &mut pending,
    );
    assert_eq!(out, "\u{FFFD}A\u{FFFD}B".as_bytes());
    assert_eq!(pending, None);
}

#[test]
fn records_interleave_in_order() {
    let mut console = ConsoleInput::new();
    let records = [
        press(b'a' as u16),
        InputRecord::Other,
        click(FROM_LEFT_1ST_BUTTON),
        press(b'b' as u16),
        click(0),
    ];
    assert_eq!(
        console.translate(&records),
        b"a\x1b[<0;1;1Mb\x1b[<0;1;1m".to_vec()
    );
    assert_eq!(console.translate(&[]), Vec::<u8>::new());
}

#[test]
fn keys_repeat_and_releases_are_ignored() {
    let mut console = ConsoleInput::new();
    let key = |key_down: i32, repeat_count: u16, unicode_char: u16| {
        InputRecord::Key(KeyRecord {
            key_down,
            repeat_count,
            unicode_char,
        })
    };
    let records = [
        key(1, 3, 0x78),
        key(0, 1, 0x78),
        key(1, 0, 0x79),
        key(1, 1, 0),
        key(-1, 1, 0x7A),
    ];
    assert_eq!(console.translate(&records), b"xxxyz".to_vec());
}

#[test]
fn a_pair_survives_reads_and_clicks() {
    let mut console = ConsoleInput::new();
    assert_eq!(console.translate(&[press(0xD83D)]), Vec::<u8>::new());
    assert_eq!(
        console.translate(&[click(FROM_LEFT_1ST_BUTTON), press(0xDE00)]),
        "\x1b[<0;1;1M\u{1F600}".as_bytes().to_vec()
    );
}

#[test]
fn text_typed_at_the_console() {
    let text = "h\u{e9}llo \u{1F600}";
    let records: Vec<InputRecord> = text.encode_utf16().map(press).collect();
    let mut console = ConsoleInput::new();
    assert_eq!(console.translate(&records), text.as_bytes().to_vec());
}

#[test]
fn raw_console_modes() {
    // Processed, line, echo, mouse and quick-edit input were on.
    assert_eq!(raw_input_mode(0x57, false), 0x2C0);
    assert_eq!(raw_input_mode(0x57, true), 0x290);
    assert_eq!(raw_input_mode(0x20, false), 0x2E0);
    for saved in [0u32, 0x57, 0x1F7, u32::MAX] {
        for before in [false, true] {
            for now in [false, true] {
                assert_eq!(
                    raw_input_mode(raw_input_mode(saved, before), now),
                    raw_input_mode(saved, now)
                );
            }
        }
    }
    assert_eq!(raw_output_mode(0x0), 0x5);
    assert_eq!(raw_output_mode(0xA), 0xF);
}

#[test]
fn window_edges_are_inclusive() {
    let window = SmallRect {
        left: 0,
        top: 10,
        right: 79,
        bottom: 33,
    };
    assert_eq!(window_size(&window), (24, 80));
    let upside_down = SmallRect {
        left: 5,
        top: 5,
        right: 4,
        bottom: 0,
    };
    assert_eq!(window_size(&upside_down), (0, 0));
}

#[test]
fn long_waits_are_cut_short() {
    assert_eq!(wait_millis(60), 60);
    assert_eq!(wait_millis(u128::MAX), u32::MAX);
    assert_eq!(poll_millis(60), 60);
    assert_eq!(poll_millis(i32::MAX as u128), i32::MAX);
    assert_eq!(poll_millis(i32::MAX as u128 + 1), i32::MAX);
    assert_eq!(records_to_read(7), 7);
    assert_eq!(records_to_read(1000), 128);
}

#[test]
fn answers_of_poll() {
    assert_eq!(after_poll(-1, false, 0), Polled::Fail);
    assert_eq!(after_poll(-1, true, 1), Polled::Again);
    assert_eq!(after_poll(0, false, 1), Polled::TimedOut);
    assert_eq!(after_poll(1, false, 0x10), Polled::Closed);
    assert_eq!(after_poll(1, false, 0x11), Polled::Ready);
    assert_eq!(after_empty_read(0x01), Polled::Again);
    assert_eq!(after_empty_read(0x11), Polled::Closed);
    assert_eq!(after_wait(Polled::Again, 1), Polled::Again);
    assert_eq!(after_wait(Polled::Again, 0), Polled::TimedOut);
    assert_eq!(after_wait(Polled::Closed, 0), Polled::Closed);
    assert_eq!(after_wait(Polled::Ready, 0), Polled::Ready);
}

#[test]
fn mouse_switching_sequences() {
    assert_eq!(mouse_switch(true), b"\x1b[?1000h\x1b[?1006h".to_vec());
    assert_eq!(mouse_switch(false), b"\x1b[?1006l\x1b[?1000l".to_vec());
}

#[test]
fn raw_attributes_on_linux() {
    let saved = linux::Termios {
        c_iflag: u32::MAX,
        c_oflag: u32::MAX,
        c_cflag: 0o0400 | 0o0020 | 0o2000,
        c_lflag: u32::MAX,
        c_line: 7,
        c_cc: [9; 32],
        c_ispeed: 15,
        c_ospeed: 16,
    };
    let raw = saved.raw();
    assert_eq!(raw.c_iflag, !0o2753);
    assert_eq!(raw.c_oflag, !1);
    assert_eq!(raw.c_cflag, 0o2000 | 0o0060);
    assert_eq!(raw.c_lflag, !0o100113);
    assert_eq!(raw.c_line, 7);
    assert_eq!((raw.c_ispeed, raw.c_ospeed), (15, 16));
    for (i, c) in raw.c_cc.iter().enumerate() {
        assert_eq!(*c, if i == 5 || i == 6 { 0 } else { 9 });
    }
    let again = raw.raw();
    assert_eq!(again.c_iflag, raw.c_iflag);
    assert_eq!(again.c_cflag, raw.c_cflag);
    assert_eq!(again.c_cc, raw.c_cc);
}

#[test]
fn raw_attributes_on_macos() {
    let saved = macos::Termios {
        c_iflag: u64::MAX,
        c_oflag: u64::MAX,
        c_cflag: 0x1000 | 0x0100 | 0x8000,
        c_lflag: u64::MAX,
        c_cc: [9; 20],
        c_ispeed: 15,
        c_ospeed: 16,
    };
    let raw = saved.raw();
    assert_eq!(raw.c_iflag, !0x3EB);
    assert_eq!(raw.c_oflag, !1);
    assert_eq!(raw.c_cflag, 0x8000 | 0x0300);
    assert_eq!(raw.c_lflag, !0x598);
    assert_eq!((raw.c_ispeed, raw.c_ospeed), (15, 16));
    for (i, c) in raw.c_cc.iter().enumerate() {
        assert_eq!(*c, if i == 16 || i == 17 { 0 } else { 9 });
    }
}

fn calls(devices: Devices, refused: Option<Call>) -> Vec<Call> {
    let mut setup = Setup::new(devices);
    let mut made: Vec<Call> = Vec::new();
    loop {
        let call = setup.next();
        made.push(call);
        if call == Call::Done || call == Call::Fail {
            return made;
        }
        setup.answer(Some(call) != refused);
    }
}

#[test]
fn the_way_into_raw_mode() {
    let (input, output) = (Device::Input, Device::Output);
    assert_eq!(
        calls(Devices::Input, None),
        vec![
            Call::Load(input),
            Call::Measure,
            Call::Apply(input),
            Call::Done
        ]
    );
    assert_eq!(
        calls(Devices::Both, None),
        vec![
            Call::Load(input),
            Call::Load(output),
            Call::Measure,
            Call::Apply(input),
            Call::Apply(output),
            Call::Done
        ]
    );
    assert_eq!(
        calls(Devices::Both, Some(Call::Apply(output))),
        vec![
            Call::Load(input),
            Call::Load(output),
            Call::Measure,
            Call::Apply(input),
            Call::Apply(output),
            Call::Undo(input),
            Call::Fail
        ]
    );
    // Whatever is refused before, nothing has been set.
    for refused in [Call::Load(input), Call::Load(output), Call::Measure] {
        let made = calls(Devices::Both, Some(refused));
        assert_eq!(made[made.len() - 1], Call::Fail);
        assert!(!made.contains(&Call::Apply(input)));
    }
    assert_eq!(
        calls(Devices::Input, Some(Call::Apply(input))),
        vec![
            Call::Load(input),
            Call::Measure,
            Call::Apply(input),
            Call::Fail
        ]
    );
}
