//! The events a terminal reports: keys with their modifiers, pasted text and
//! changes of size.

use vstd::prelude::*;

verus! {

/// A decoded input event.
#[derive(Debug, Clone, PartialEq, Eq)]
pub enum Event {
    /// A key press.
    Key(KeyEvent),
    /// Text inserted via bracketed paste (`ESC[200~` ... `ESC[201~`).
    Paste(String),
    /// The terminal was resized.
    Resize { rows: u16, cols: u16 },
}

/// A key press with its modifiers.
#[derive(Debug, Clone, Copy, PartialEq, Eq, Structural)]
pub struct KeyEvent {
    pub key: Key,
    pub mods: Mods,
}

/// The key itself. `Char` carries the character as typed (already shifted:
/// `A` is `Char('A')` with no shift modifier reported).
#[derive(Debug, Clone, Copy, PartialEq, Eq, Structural)]
pub enum Key {
    Char(char),
    Enter,
    Tab,
    Backspace,
    Esc,
    Up,
    Down,
    Left,
    Right,
    Home,
    End,
    PageUp,
    PageDown,
    Insert,
    Delete,
    F(u8),
}

/// Modifier state reported alongside a key.
#[derive(Debug, Clone, Copy, PartialEq, Eq, Structural)]
pub struct Mods {
    pub shift: bool,
    pub alt: bool,
    pub ctrl: bool,
}

/// An event as a value of mathematics: pasted text is its characters.
#[verifier::ext_equal]
pub enum EventView {
    Key(KeyEvent),
    Paste(Seq<char>),
    Resize { rows: u16, cols: u16 },
}

impl View for Event {
    type V = EventView;

    open spec fn view(&self) -> EventView {
        match *self {
            Event::Key(k) => EventView::Key(k),
            Event::Paste(text) => EventView::Paste(text@),
            Event::Resize { rows, cols } => EventView::Resize { rows, cols },
        }
    }
}

/// The views of a run of events, in order.
pub open spec fn views(events: Seq<Event>) -> Seq<EventView> {
    events.map_values(|e: Event| e@)
}

/// No modifier held.
pub open spec fn no_mods() -> Mods {
    Mods { shift: false, alt: false, ctrl: false }
}

/// `key` pressed alone.
pub open spec fn bare(key: Key) -> KeyEvent {
    KeyEvent { key, mods: no_mods() }
}

/// `key` pressed with ctrl alone.
pub open spec fn with_ctrl(key: Key) -> KeyEvent {
    KeyEvent { key, mods: Mods { ctrl: true, ..no_mods() } }
}

/// The same key press with alt held as well.
pub open spec fn add_alt(k: KeyEvent) -> KeyEvent {
    KeyEvent { key: k.key, mods: Mods { alt: true, ..k.mods } }
}

impl EventView {
    /// The event with ctrl held as well, if it is a key.
    pub open spec fn ctrl(self) -> EventView {
        match self {
            EventView::Key(k) => EventView::Key(
                KeyEvent { key: k.key, mods: Mods { ctrl: true, ..k.mods } },
            ),
            other => other,
        }
    }

    /// The event with alt held as well, if it is a key.
    pub open spec fn alt(self) -> EventView {
        match self {
            EventView::Key(k) => EventView::Key(add_alt(k)),
            other => other,
        }
    }

    /// The event with shift held as well, if it is a key.
    pub open spec fn shift(self) -> EventView {
        match self {
            EventView::Key(k) => EventView::Key(
                KeyEvent { key: k.key, mods: Mods { shift: true, ..k.mods } },
            ),
            other => other,
        }
    }
}

impl Default for Mods {
    fn default() -> (mods: Mods)
        ensures
            mods == no_mods(),
    {
        Mods { shift: false, alt: false, ctrl: false }
    }
}

impl Event {
    /// Convenience constructor: a key with no modifiers.
    pub fn key(key: Key) -> (event: Event)
        ensures
            event == Event::Key(bare(key)),
            event@ == EventView::Key(bare(key)),
    {
        Event::Key(KeyEvent { key, mods: Mods::default() })
    }

    /// Convenience: the same event with the ctrl modifier set (keys only).
    pub fn ctrl(self) -> (event: Event)
        ensures
            event@ == self@.ctrl(),
            self is Key || event == self,
    {
        match self {
            Event::Key(k) => Event::Key(
                KeyEvent {
                    key: k.key,
                    mods: Mods { shift: k.mods.shift, alt: k.mods.alt, ctrl: true },
                },
            ),
            other => other,
        }
    }

    /// Convenience: the same event with the alt modifier set (keys only).
    pub fn alt(self) -> (event: Event)
        ensures
            event@ == self@.alt(),
            self is Key || event == self,
    {
        match self {
            Event::Key(k) => Event::Key(
                KeyEvent {
                    key: k.key,
                    mods: Mods { shift: k.mods.shift, alt: true, ctrl: k.mods.ctrl },
                },
            ),
            other => other,
        }
    }

    /// Convenience: the same event with the shift modifier set (keys only).
    pub fn shift(self) -> (event: Event)
        ensures
            event@ == self@.shift(),
            self is Key || event == self,
    {
        match self {
            Event::Key(k) => Event::Key(
                KeyEvent {
                    key: k.key,
                    mods: Mods { shift: true, alt: k.mods.alt, ctrl: k.mods.ctrl },
                },
            ),
            other => other,
        }
    }
}

/// A bare key has no modifier, and each helper adds its own modifier to a key
/// and nothing else.
pub proof fn modifiers_are_added_one_by_one(k: KeyEvent)
    ensures
        no_mods() == (Mods { shift: false, alt: false, ctrl: false }),
        bare(k.key) == (KeyEvent {
            key: k.key,
            mods: Mods { shift: false, alt: false, ctrl: false },
        }),
        EventView::Key(k).ctrl() == EventView::Key(
            KeyEvent {
                key: k.key,
                mods: Mods { shift: k.mods.shift, alt: k.mods.alt, ctrl: true },
            },
        ),
        EventView::Key(k).alt() == EventView::Key(
            KeyEvent {
                key: k.key,
                mods: Mods { shift: k.mods.shift, alt: true, ctrl: k.mods.ctrl },
            },
        ),
        EventView::Key(k).shift() == EventView::Key(
            KeyEvent {
                key: k.key,
                mods: Mods { shift: true, alt: k.mods.alt, ctrl: k.mods.ctrl },
            },
        ),
{
}

/// What is no key has no modifiers: the helpers leave it as it is.
pub proof fn other_events_have_no_modifiers(e: EventView)
    requires
        !(e is Key),
    ensures
        e.ctrl() == e,
        e.alt() == e,
        e.shift() == e,
{
}

/// The helpers may be applied in any order and any number of times.
pub proof fn modifiers_commute(e: EventView)
    ensures
        e.ctrl().alt() == e.alt().ctrl(),
        e.ctrl().shift() == e.shift().ctrl(),
        e.alt().shift() == e.shift().alt(),
        e.ctrl().ctrl() == e.ctrl(),
        e.alt().alt() == e.alt(),
        e.shift().shift() == e.shift(),
{
}

/// Events are seen one by one, as what they are.
pub proof fn events_are_seen_as_they_are(events: Seq<Event>, i: int)
    requires
        0 <= i < events.len(),
    ensures
        views(events).len() == events.len(),
        views(events)[i] == (match events[i] {
            Event::Key(k) => EventView::Key(k),
            Event::Paste(text) => EventView::Paste(text@),
            Event::Resize { rows, cols } => EventView::Resize { rows, cols },
        }),
{
}

} // verus!
