//! Platform boundary: what a window reports becomes what the host does about
//! it.
//!
//! Input is normalized here: reports in logical points become events, so that
//! nothing above this module knows the windowing library. Modifier state is
//! tracked from its own reports, and the pointer position from the reports
//! that carry one, because a wheel report does not.

use crate::events::input::{Button, Event, Key, KeyInput, Mods};
use crate::geom::Point;
use crate::input::KeyAction;
use crate::scalar::Scalar;
use crate::ui::keys::{law_enter_submits_or_breaks, meaning};
use vstd::prelude::*;

verus! {

/// The key that a report names.
#[derive(Clone, Debug)]
pub enum LogicalKey {
    /// A named key; one that the host does not know is `Key::Unknown`.
    Named(Key),
    Character(String),
    Other,
}

/// A key report.
#[derive(Clone, Debug)]
pub struct RawKey {
    pub logical: LogicalKey,
    /// The printable string of this press, if it has one.
    pub text: Option<String>,
    pub pressed: bool,
}

/// The button of a pointer report.
#[derive(Clone, Copy, Debug, PartialEq, Eq, Structural)]
pub enum RawButton {
    Left,
    Right,
    Middle,
    /// Another mouse button, by number.
    Other(u16),
    /// Touch or pen: not a mouse.
    Contact,
}

/// A composing report.
#[derive(Clone, Debug)]
pub enum RawIme {
    Enabled,
    Preedit(String, Option<(usize, usize)>),
    Commit(String),
    Disabled,
    Other,
}

/// What a window reports, positions in logical points.
#[derive(Clone, Debug)]
pub enum Report {
    CloseRequested,
    /// Physical size or scale factor changed.
    Resized,
    Occluded(bool),
    RedrawRequested,
    Focused(bool),
    ModifiersChanged(Mods),
    PointerMoved(Point),
    PointerButton { pressed: bool, at: Point, button: RawButton },
    /// The pointer left the surface, with the last position where it is
    /// known.
    PointerLeft(Option<Point>),
    /// Content moves by this much, down and right positive; `None` for a
    /// delta that is neither in pixels nor in lines.
    Wheel(Option<Point>),
    Key(RawKey),
    Ime(RawIme),
    Other,
}

/// What the host does about a report.
#[derive(Clone, Debug)]
pub enum Reaction {
    Nothing,
    /// Ask the application whether the window may close.
    AskToClose,
    Resize,
    Occlude(bool),
    Redraw,
    Deliver(Event),
}

/// What is remembered from report to report.
#[derive(Clone, Copy, Debug, PartialEq, Eq, Structural)]
pub struct Tracker {
    pub mods: Mods,
    /// Last pointer position.
    pub pointer: Point,
}

pub open spec fn button_of(button: RawButton) -> Button {
    match button {
        RawButton::Left => Button::Primary,
        RawButton::Right => Button::Secondary,
        RawButton::Middle => Button::Middle,
        RawButton::Other(n) => Button::Other(n),
        RawButton::Contact => Button::Primary,
    }
}

/// A key report, normalized. A named key has no text, and a press with a
/// command modifier is a shortcut, not text; another press has its printable
/// string, or else its character.
pub open spec fn key_of(mods: Mods, raw: RawKey) -> KeyInput {
    let key = match raw.logical {
        LogicalKey::Named(key) => key,
        _ => Key::Unknown,
    };
    let char = match raw.logical {
        LogicalKey::Character(c) => Some(c),
        _ => None,
    };
    KeyInput {
        key,
        text: if mods.meta || mods.ctrl || raw.logical is Named {
            None
        } else if raw.text is Some {
            raw.text
        } else {
            char
        },
        char,
        mods,
    }
}

impl Tracker {
    pub open spec fn initial() -> Tracker {
        Tracker { mods: Mods::none(), pointer: Point::zero() }
    }

    /// What is remembered after a report.
    pub open spec fn after(self, report: Report) -> Tracker {
        match report {
            Report::ModifiersChanged(mods) => Tracker { mods, ..self },
            Report::PointerMoved(at) => Tracker { pointer: at, ..self },
            Report::PointerButton { at, .. } => Tracker { pointer: at, ..self },
            Report::PointerLeft(Some(at)) => Tracker { pointer: at, ..self },
            _ => self,
        }
    }

    /// What is done about a report.
    pub open spec fn reaction(self, report: Report) -> Reaction {
        match report {
            Report::CloseRequested => Reaction::AskToClose,
            Report::Resized => Reaction::Resize,
            Report::Occluded(hidden) => Reaction::Occlude(hidden),
            Report::RedrawRequested => Reaction::Redraw,
            Report::Focused(gained) => Reaction::Deliver(Event::Focus(gained)),
            Report::ModifiersChanged(_) => Reaction::Nothing,
            Report::PointerMoved(at) => Reaction::Deliver(
                Event::PointerMove { x: at.x, y: at.y },
            ),
            Report::PointerButton { pressed, at, button } => Reaction::Deliver(
                if pressed {
                    Event::PointerDown {
                        x: at.x,
                        y: at.y,
                        button: button_of(button),
                        mods: self.mods,
                    }
                } else {
                    Event::PointerUp { x: at.x, y: at.y, button: button_of(button) }
                },
            ),
            Report::PointerLeft(at) => match at {
                Some(at) => Reaction::Deliver(Event::PointerMove { x: at.x, y: at.y }),
                None => Reaction::Nothing,
            },
            Report::Wheel(delta) => match delta {
                Some(d) => Reaction::Deliver(
                    Event::Wheel {
                        x: self.pointer.x,
                        y: self.pointer.y,
                        dx: d.x.negated(),
                        dy: d.y.negated(),
                    },
                ),
                None => Reaction::Nothing,
            },
            Report::Key(raw) => Reaction::Deliver(
                if raw.pressed {
                    Event::KeyDown(key_of(self.mods, raw))
                } else {
                    Event::KeyUp(key_of(self.mods, raw))
                },
            ),
            Report::Ime(ime) => match ime {
                RawIme::Preedit(text, cursor) => Reaction::Deliver(
                    Event::ImePreedit { text, cursor },
                ),
                RawIme::Commit(text) => Reaction::Deliver(Event::ImeCommit(text)),
                RawIme::Disabled => Reaction::Deliver(Event::ImeDone),
                _ => Reaction::Nothing,
            },
            Report::Other => Reaction::Nothing,
        }
    }

    pub fn new() -> (r: Tracker)
        ensures
            r == Tracker::initial(),
    {
        Tracker {
            mods: Mods { shift: false, ctrl: false, alt: false, meta: false },
            pointer: Point::new(Scalar(0), Scalar(0)),
        }
    }

    /// Normalizes a key report.
    pub fn key_input(&self, raw: RawKey) -> (r: KeyInput)
        ensures
            r == key_of(self.mods, raw),
    {
        let (key, named): (Key, bool) = match &raw.logical {
            LogicalKey::Named(key) => (*key, true),
            _ => (Key::Unknown, false),
        };
        let char: Option<String> = match raw.logical {
            LogicalKey::Character(c) => Some(c),
            _ => None,
        };
        let text: Option<String> = if self.mods.meta || self.mods.ctrl || named {
            None
        } else if raw.text.is_some() {
            raw.text
        } else {
            match &char {
                Some(c) => Some(c.clone()),
                None => None,
            }
        };
        KeyInput { key, text, char, mods: self.mods }
    }

    fn button(&self, raw: RawButton) -> (r: Button)
        ensures
            r == button_of(raw),
    {
        match raw {
            RawButton::Left => Button::Primary,
            RawButton::Right => Button::Secondary,
            RawButton::Middle => Button::Middle,
            RawButton::Other(n) => Button::Other(n),
            RawButton::Contact => Button::Primary,
        }
    }

    /// Takes one report: remembers what later reports need, and tells what to
    /// do.
    pub fn window_event(&mut self, report: Report) -> (r: Reaction)
        ensures
            *final(self) == old(self).after(report),
            r == old(self).reaction(report),
    {
        match report {
            Report::CloseRequested => Reaction::AskToClose,
            Report::Resized => Reaction::Resize,
            Report::Occluded(hidden) => Reaction::Occlude(hidden),
            Report::RedrawRequested => Reaction::Redraw,
            Report::Focused(gained) => Reaction::Deliver(Event::Focus(gained)),
            Report::ModifiersChanged(mods) => {
                self.mods = mods;
                Reaction::Nothing
            },
            Report::PointerMoved(at) => {
                self.pointer = at;
                Reaction::Deliver(Event::PointerMove { x: at.x, y: at.y })
            },
            Report::PointerButton { pressed, at, button } => {
                self.pointer = at;
                let button: Button = self.button(button);
                if pressed {
                    Reaction::Deliver(
                        Event::PointerDown { x: at.x, y: at.y, button, mods: self.mods },
                    )
                } else {
                    Reaction::Deliver(Event::PointerUp { x: at.x, y: at.y, button })
                }
            },
            Report::PointerLeft(at) => match at {
                Some(at) => {
                    self.pointer = at;
                    Reaction::Deliver(Event::PointerMove { x: at.x, y: at.y })
                },
                None => Reaction::Nothing,
            },
            Report::Wheel(delta) => match delta {
                Some(d) => Reaction::Deliver(
                    Event::Wheel {
                        x: self.pointer.x,
                        y: self.pointer.y,
                        dx: d.x.neg(),
                        dy: d.y.neg(),
                    },
                ),
                None => Reaction::Nothing,
            },
            Report::Key(raw) => {
                let pressed: bool = raw.pressed;
                let input: KeyInput = self.key_input(raw);
                if pressed {
                    Reaction::Deliver(Event::KeyDown(input))
                } else {
                    Reaction::Deliver(Event::KeyUp(input))
                }
            },
            Report::Ime(ime) => match ime {
                RawIme::Preedit(text, cursor) => Reaction::Deliver(
                    Event::ImePreedit { text, cursor },
                ),
                RawIme::Commit(text) => Reaction::Deliver(Event::ImeCommit(text)),
                RawIme::Disabled => Reaction::Deliver(Event::ImeDone),
                _ => Reaction::Nothing,
            },
            Report::Other => Reaction::Nothing,
        }
    }
}

/// Command chords never produce text.
pub proof fn law_chords_are_not_text(mods: Mods, raw: RawKey)
    requires
        mods.meta || mods.ctrl,
    ensures
        key_of(mods, raw).text is None,
{
}

/// A named key never produces text, whatever string comes with its report:
/// without a command modifier Enter submits a single-line input and breaks the
/// line of another.
pub proof fn law_named_keys_are_not_text(mods: Mods, raw: RawKey, multiline: bool)
    requires
        raw.logical is Named,
    ensures
        key_of(mods, raw).text is None,
        key_of(mods, raw).char is None,
        raw.logical == LogicalKey::Named(Key::Enter) && !mods.meta && !mods.ctrl ==> meaning(
            key_of(mods, raw),
            multiline,
        ) == Some(
            if multiline {
                KeyAction::Newline
            } else {
                KeyAction::Submit
            },
        ),
{
    if raw.logical == LogicalKey::Named(Key::Enter) && !mods.meta && !mods.ctrl {
        law_enter_submits_or_breaks(key_of(mods, raw), multiline);
    }
}

/// A wheel report scrolls at the place that the last pointer report gave.
pub proof fn law_wheel_follows_the_pointer(t: Tracker, at: Point, delta: Point)
    ensures
        t.after(Report::PointerMoved(at)).reaction(Report::Wheel(Some(delta)))
            == Reaction::Deliver(
            Event::Wheel { x: at.x, y: at.y, dx: delta.x.negated(), dy: delta.y.negated() },
        ),
{
}

/// What reports of the window come to: closing is asked for, a change of size
/// and of visibility is taken up, a redraw is done, and the keyboard's coming
/// and going is told.
pub proof fn law_window_reports(t: Tracker, on: bool, mods: Mods)
    ensures
        t.reaction(Report::CloseRequested) == Reaction::AskToClose,
        t.reaction(Report::Resized) == Reaction::Resize,
        t.reaction(Report::Occluded(on)) == Reaction::Occlude(on),
        t.reaction(Report::RedrawRequested) == Reaction::Redraw,
        t.reaction(Report::Focused(on)) == Reaction::Deliver(Event::Focus(on)),
        t.reaction(Report::ModifiersChanged(mods)) == Reaction::Nothing,
        t.reaction(Report::PointerLeft(None)) == Reaction::Nothing,
        t.reaction(Report::Wheel(None)) == Reaction::Nothing,
        t.reaction(Report::Other) == Reaction::Nothing,
{
}

/// Pointer reports are told at their own place: a move and a leave as a move,
/// a button as a press with the modifiers that are held, or as a release. A
/// touch counts as the primary button.
pub proof fn law_pointer_reports(t: Tracker, at: Point, n: u16)
    ensures
        t.reaction(Report::PointerMoved(at)) == Reaction::Deliver(
            Event::PointerMove { x: at.x, y: at.y },
        ),
        t.reaction(Report::PointerLeft(Some(at))) == Reaction::Deliver(
            Event::PointerMove { x: at.x, y: at.y },
        ),
        forall|button: RawButton|
            (#[trigger] t.reaction(Report::PointerButton { pressed: true, at, button }))
                == Reaction::Deliver(
                Event::PointerDown { x: at.x, y: at.y, button: button_of(button), mods: t.mods },
            ),
        forall|button: RawButton|
            (#[trigger] t.reaction(Report::PointerButton { pressed: false, at, button }))
                == Reaction::Deliver(
                Event::PointerUp { x: at.x, y: at.y, button: button_of(button) },
            ),
        button_of(RawButton::Left) == Button::Primary,
        button_of(RawButton::Right) == Button::Secondary,
        button_of(RawButton::Middle) == Button::Middle,
        button_of(RawButton::Other(n)) == Button::Other(n),
        button_of(RawButton::Contact) == Button::Primary,
{
}

/// A key report is told as a press or a release of the same key, with the
/// modifiers that are held; a composing report as what it is.
pub proof fn law_key_and_composing_reports(
    t: Tracker,
    raw: RawKey,
    text: String,
    cursor: Option<(usize, usize)>,
)
    ensures
        raw.pressed ==> t.reaction(Report::Key(raw)) == Reaction::Deliver(
            Event::KeyDown(key_of(t.mods, raw)),
        ),
        !raw.pressed ==> t.reaction(Report::Key(raw)) == Reaction::Deliver(
            Event::KeyUp(key_of(t.mods, raw)),
        ),
        t.reaction(Report::Ime(RawIme::Preedit(text, cursor))) == Reaction::Deliver(
            Event::ImePreedit { text, cursor },
        ),
        t.reaction(Report::Ime(RawIme::Commit(text))) == Reaction::Deliver(Event::ImeCommit(text)),
        t.reaction(Report::Ime(RawIme::Disabled)) == Reaction::Deliver(Event::ImeDone),
        t.reaction(Report::Ime(RawIme::Enabled)) == Reaction::Nothing,
        t.reaction(Report::Ime(RawIme::Other)) == Reaction::Nothing,
{
}

/// What is remembered: the last modifiers that were reported and the last
/// place of the pointer; nothing else changes either.
pub proof fn law_what_is_remembered(t: Tracker, report: Report)
    ensures
        t.after(report).mods == (match report {
            Report::ModifiersChanged(mods) => mods,
            _ => t.mods,
        }),
        t.after(report).pointer == (match report {
            Report::PointerMoved(at) => at,
            Report::PointerButton { pressed, at, button } => at,
            Report::PointerLeft(Some(at)) => at,
            _ => t.pointer,
        }),
        Tracker::initial().pointer.x == Scalar(0) && Tracker::initial().pointer.y == Scalar(0),
        !Tracker::initial().mods.shift && !Tracker::initial().mods.ctrl
            && !Tracker::initial().mods.alt && !Tracker::initial().mods.meta,
{
}

/// A key without a command modifier types: its printable string where it has
/// one, else its character. Its modifiers are those held, a named key keeps its
/// name, and any other key has none.
pub proof fn law_plain_keys_type(mods: Mods, raw: RawKey, c: String)
    ensures
        key_of(mods, raw).mods == mods,
        raw.logical matches LogicalKey::Named(key) ==> key_of(mods, raw).key == key,
        !(raw.logical is Named) ==> key_of(mods, raw).key == Key::Unknown,
        raw.logical == LogicalKey::Character(c) ==> key_of(mods, raw).char == Some(c),
        !(raw.logical is Character) ==> key_of(mods, raw).char is None,
        !mods.meta && !mods.ctrl && !(raw.logical is Named) && raw.text is Some ==> key_of(
            mods,
            raw,
        ).text == raw.text,
        !mods.meta && !mods.ctrl && raw.logical == LogicalKey::Character(c) && raw.text is None
            ==> key_of(mods, raw).text == Some(c),
        raw.logical is Other && raw.text is None ==> key_of(mods, raw).text is None,
{
}

} // verus!
