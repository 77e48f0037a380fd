//! Events that come in from the platform.

use crate::scalar::Scalar;
use vstd::prelude::*;

verus! {

/// Keyboard modifier state at event time.
#[derive(Clone, Copy, Debug, PartialEq, Eq, Structural)]
pub struct Mods {
    pub shift: bool,
    pub ctrl: bool,
    pub alt: bool,
    /// Cmd on macOS, Super elsewhere.
    pub meta: bool,
}

impl Mods {
    pub open spec fn none() -> Mods {
        Mods { shift: false, ctrl: false, alt: false, meta: false }
    }
}

impl Default for Mods {
    fn default() -> (r: Mods)
        ensures
            r == Mods::none(),
    {
        Mods { shift: false, ctrl: false, alt: false, meta: false }
    }
}

/// Named keys that the host recognizes.
#[derive(Clone, Copy, Debug, PartialEq, Eq, Structural)]
pub enum Key {
    Unknown,
    Backspace,
    Tab,
    Enter,
    Escape,
    Left,
    Up,
    Right,
    Down,
    Home,
    End,
    PageUp,
    PageDown,
    Delete,
}

impl Key {
    /// The code that a key has in an outgoing event.
    pub open spec fn wire(self) -> u32 {
        match self {
            Key::Unknown => 0,
            Key::Backspace => 1,
            Key::Tab => 2,
            Key::Enter => 3,
            Key::Escape => 4,
            Key::Left => 5,
            Key::Up => 6,
            Key::Right => 7,
            Key::Down => 8,
            Key::Home => 9,
            Key::End => 10,
            Key::PageUp => 11,
            Key::PageDown => 12,
            Key::Delete => 13,
        }
    }

    /// Wire code, stable for listeners.
    pub fn code(self) -> (r: u32)
        ensures
            r == self.wire(),
    {
        match self {
            Key::Unknown => 0,
            Key::Backspace => 1,
            Key::Tab => 2,
            Key::Enter => 3,
            Key::Escape => 4,
            Key::Left => 5,
            Key::Up => 6,
            Key::Right => 7,
            Key::Down => 8,
            Key::Home => 9,
            Key::End => 10,
            Key::PageUp => 11,
            Key::PageDown => 12,
            Key::Delete => 13,
        }
    }
}

/// No two keys share a wire code.
pub proof fn law_key_codes_differ(a: Key, b: Key)
    ensures
        a.wire() == b.wire() ==> a == b,
        a.wire() <= 13,
{
}

/// A normalized key press or release.
#[derive(Clone, Debug)]
pub struct KeyInput {
    pub key: Key,
    /// Printable text of this press, layout and shift applied; `None` for
    /// pure named keys and when a command modifier is held.
    pub text: Option<String>,
    /// The raw character of an unknown key, for shortcuts.
    pub char: Option<String>,
    pub mods: Mods,
}

/// Pointer button identity.
#[derive(Clone, Copy, Debug, PartialEq, Eq, Structural)]
pub enum Button {
    Primary,
    Secondary,
    Middle,
    Other(u16),
}

/// A platform input event, positions in logical points.
#[derive(Clone, Debug)]
pub enum Event {
    PointerMove { x: Scalar, y: Scalar },
    PointerDown { x: Scalar, y: Scalar, button: Button, mods: Mods },
    PointerUp { x: Scalar, y: Scalar, button: Button },
    /// Deltas in logical points, their sign the content scroll direction.
    Wheel { x: Scalar, y: Scalar, dx: Scalar, dy: Scalar },
    KeyDown(KeyInput),
    KeyUp(KeyInput),
    /// Composing region update; no cursor hides the caret.
    ImePreedit { text: String, cursor: Option<(usize, usize)> },
    ImeCommit(String),
    /// The platform reports that composing is done.
    ImeDone,
    /// Window focus changed.
    Focus(bool),
}

} // verus!
