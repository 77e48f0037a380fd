use craie::events::{Button, Event, Key, Mods};
use craie::geom::Point;
use craie::input::KeyAction;
use craie::platform::{LogicalKey, RawButton, RawIme, RawKey, Reaction, Report, Tracker};
use craie::scalar::Scalar;
use craie::ui::keys::key_action;

fn f(x: f32) -> Scalar {
    Scalar(x.to_bits())
}

fn at(x: f32, y: f32) -> Point {
    Point::new(f(x), f(y))
}

fn typed(c: &str, text: Option<&str>) -> RawKey {
    RawKey {
        logical: LogicalKey::Character(c.to_string()),
        text: text.map(|t| t.to_string()),
        pressed: true,
    }
}

#[test]
fn wheels_scroll_at_the_pointer_with_the_sign_flipped() {
    let mut t = Tracker::new();
    let _ = t.window_event(Report::PointerMoved(at(7.0, 8.0)));
    match t.window_event(Report::Wheel(Some(at(2.0, -3.0)))) {
        Reaction::Deliver(Event::Wheel { x, y, dx, dy }) => {
            assert_eq!((x, y), (f(7.0), f(8.0)));
            assert_eq!((dx, dy), (f(-2.0), f(3.0)));
        }
        _ => panic!("a wheel report is delivered"),
    }
    assert!(matches!(t.window_event(Report::Wheel(None)), Reaction::Nothing));
}

#[test]
fn buttons_carry_the_modifiers() {
    let mut t = Tracker::new();
    let shift = Mods { shift: true, ..Mods::default() };
    assert!(matches!(
        t.window_event(Report::ModifiersChanged(shift)),
        Reaction::Nothing
    ));
    let down = Report::PointerButton {
        pressed: true,
        at: at(1.0, 2.0),
        button: RawButton::Right,
    };
    match t.window_event(down) {
        Reaction::Deliver(Event::PointerDown { x, button, mods, .. }) => {
            assert_eq!(x, f(1.0));
            assert_eq!(button, Button::Secondary);
            assert_eq!(mods, shift);
        }
        _ => panic!("a press is delivered"),
    }
    assert_eq!(t.pointer, at(1.0, 2.0));
    for (raw, button) in [
        (RawButton::Left, Button::Primary),
        (RawButton::Contact, Button::Primary),
        (RawButton::Middle, Button::Middle),
        (RawButton::Other(8), Button::Other(8)),
    ] {
        let up = Report::PointerButton { pressed: false, at: at(0.0, 0.0), button: raw };
        match t.window_event(up) {
            Reaction::Deliver(Event::PointerUp { button: got, .. }) => assert_eq!(got, button),
            _ => panic!("a release is delivered"),
        }
    }
}

#[test]
fn leaving_moves_the_pointer_out() {
    let mut t = Tracker::new();
    assert!(matches!(
        t.window_event(Report::PointerLeft(None)),
        Reaction::Nothing
    ));
    assert!(matches!(
        t.window_event(Report::PointerLeft(Some(at(-1.0, 4.0)))),
        Reaction::Deliver(Event::PointerMove { .. })
    ));
    assert_eq!(t.pointer, at(-1.0, 4.0));
}

#[test]
fn chords_are_not_text() {
    let mut t = Tracker::new();
    let plain = t.key_input(typed("a", Some("a")));
    assert_eq!(plain.key, Key::Unknown);
    assert_eq!(plain.text.as_deref(), Some("a"));
    assert_eq!(plain.char.as_deref(), Some("a"));
    // Without a printable string the character stands in.
    assert_eq!(t.key_input(typed("b", None)).text.as_deref(), Some("b"));
    t.mods.meta = true;
    let chord = t.key_input(typed("a", Some("a")));
    assert_eq!(chord.text, None);
    assert_eq!(chord.char.as_deref(), Some("a"));
    t.mods.meta = false;
    t.mods.ctrl = true;
    assert_eq!(t.key_input(typed("a", Some("a"))).text, None);
}

#[test]
fn named_keys_have_no_character() {
    let t = Tracker::new();
    let enter = t.key_input(RawKey {
        logical: LogicalKey::Named(Key::Enter),
        text: None,
        pressed: true,
    });
    assert_eq!(enter.key, Key::Enter);
    assert_eq!((enter.text, enter.char), (None, None));
    // The string that comes with a named key is not text.
    let cr = t.key_input(RawKey {
        logical: LogicalKey::Named(Key::Enter),
        text: Some("\r".to_string()),
        pressed: true,
    });
    assert_eq!(cr.key, Key::Enter);
    assert_eq!((&cr.text, &cr.char), (&None, &None));
    assert!(matches!(key_action(&cr, false), Some(KeyAction::Submit)));
    assert!(matches!(key_action(&cr, true), Some(KeyAction::Newline)));
    let other = t.key_input(RawKey {
        logical: LogicalKey::Named(Key::Unknown),
        text: Some("x".to_string()),
        pressed: true,
    });
    assert_eq!(other.text, None);
    // A space bar reports a character.
    assert_eq!(t.key_input(typed(" ", Some(" "))).text.as_deref(), Some(" "));
    let dead = t.key_input(RawKey { logical: LogicalKey::Other, text: None, pressed: true });
    assert_eq!((dead.text, dead.char), (None, None));
}

#[test]
fn presses_and_releases_are_told_apart() {
    let mut t = Tracker::new();
    assert!(matches!(
        t.window_event(Report::Key(typed("a", None))),
        Reaction::Deliver(Event::KeyDown(_))
    ));
    let mut up = typed("a", None);
    up.pressed = false;
    assert!(matches!(
        t.window_event(Report::Key(up)),
        Reaction::Deliver(Event::KeyUp(_))
    ));
}

#[test]
fn composing_reports() {
    let mut t = Tracker::new();
    assert!(matches!(
        t.window_event(Report::Ime(RawIme::Enabled)),
        Reaction::Nothing
    ));
    match t.window_event(Report::Ime(RawIme::Preedit("ka".to_string(), Some((1, 2))))) {
        Reaction::Deliver(Event::ImePreedit { text, cursor }) => {
            assert_eq!(text, "ka");
            assert_eq!(cursor, Some((1, 2)));
        }
        _ => panic!("a preedit is delivered"),
    }
    assert!(matches!(
        t.window_event(Report::Ime(RawIme::Commit("x".to_string()))),
        Reaction::Deliver(Event::ImeCommit(_))
    ));
    assert!(matches!(
        t.window_event(Report::Ime(RawIme::Disabled)),
        Reaction::Deliver(Event::ImeDone)
    ));
    assert!(matches!(t.window_event(Report::Ime(RawIme::Other)), Reaction::Nothing));
}

#[test]
fn window_reports() {
    let mut t = Tracker::new();
    assert!(matches!(t.window_event(Report::CloseRequested), Reaction::AskToClose));
    assert!(matches!(t.window_event(Report::Resized), Reaction::Resize));
    assert!(matches!(t.window_event(Report::Occluded(true)), Reaction::Occlude(true)));
    assert!(matches!(t.window_event(Report::RedrawRequested), Reaction::Redraw));
    assert!(matches!(
        t.window_event(Report::Focused(false)),
        Reaction::Deliver(Event::Focus(false))
    ));
    assert!(matches!(t.window_event(Report::Other), Reaction::Nothing));
}
