//! Terminal attributes on Unix, and what raw mode makes of them.
//!
//! Struct layouts and constants are per-OS: Linux and macOS differ.

pub mod linux;
pub mod macos;
