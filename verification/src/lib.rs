//! rawterm — terminal input, decoded: the byte stream of a terminal in raw mode
//! turned into key, paste and resize events, with every decision proved.
//!
//! * [`Decoder`] is **pure bytes → events**: feed it the byte stream a terminal
//!   in raw+VT-input mode produces (chunks may split an escape sequence or a
//!   UTF-8 character anywhere) and it yields [`Event`]s — keys with modifiers,
//!   and bracketed paste.
//! * [`Terminal`] says what to do next while waiting for an event. The system
//!   calls are its caller's; what they brought is handed in as plain values.
//! * [`console`], [`termios`], [`unix`] and [`setup`] hold what each platform
//!   has to decide around those calls.

pub mod console;
pub mod console_laws;
pub mod decode;
pub mod decode_laws;
pub mod event;
pub mod item;
pub mod key_laws;
pub mod mouse;
pub mod mouse_laws;
pub mod number;
pub mod paste;
pub mod setup;
pub mod stream_laws;
pub mod terminal;
pub mod terminal_laws;
pub mod termios;
pub mod text;
pub mod unix;
pub mod utf16;

pub use crate::decode::Decoder;
pub use crate::event::{Event, Key, KeyEvent, Mods};
pub use crate::mouse::{encode_mouse, Coord, MouseRecord};
pub use crate::terminal::Terminal;
