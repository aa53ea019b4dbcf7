# rawterm

Terminal input, decoded and proved: the byte stream of a terminal in raw mode
becomes key, paste and resize events, and every decision on the way is verified
with [Verus](https://github.com/verus-lang/verus).

```rust
use rawterm::{Decoder, Event, Key};

let mut d = Decoder::new();
let events = d.feed(b"a\x1b[1;5C");
assert_eq!(events[0], Event::key(Key::Char('a')));
assert_eq!(events[1], Event::key(Key::Right).ctrl()); // Ctrl+Right
```

## The library (`src/`)

Nothing in it does I/O.

- `event` — events, keys and modifiers.
- `item`, `number`, `paste`, `text` — the grammar of the stream: one key, one
  control sequence, one paste terminator at a time.
- `decode` — `Decoder`: chunks split at any boundary in, events out. A lone
  `ESC` is genuinely ambiguous, so `feed` never guesses: the caller resolves it
  with `flush` after a grace period (`Terminal` does this for you).
- `terminal` — `Terminal`: what to do next while waiting for an event, as a
  state machine that is told what each system call brought.
- `setup` — the way into raw mode, call by call, so that a terminal is never
  left half-configured.
- `console`, `mouse`, `utf16` — the Windows console: modes, records, surrogate
  pairs, mouse reports.
- `termios`, `unix` — Unix: terminal attributes and the answers of `poll`.

What holds of the library as a whole is stated and proved beside it, in
`decode_laws`, `mouse_laws`, `console_laws`, `terminal_laws`, `setup`, `utf16`,
`number` and `termios`: chunk boundaries do not matter, buffers are bounded,
typed and pasted text arrives unchanged, no event is lost, a resize is reported
once, a lone `ESC` is resolved after its grace period.

Two functions of the standard library are taken at their word, in `text`:
`core::str::from_utf8` and `String::from_utf8_lossy`.

## The edge (`app/`)

Ordinary Rust around the library: the system calls of Unix and Windows, and a
`Terminal` that restores everything on drop, panic included.
