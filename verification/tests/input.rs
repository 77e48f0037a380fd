use craie::events::{Key, KeyInput, Mods};
use craie::input::{
    Configured, EditorCmd, EditorFacts, Inputs, KeyAction, Plan, Snapshot, HISTORY,
};
use craie::scalar::Scalar;
use craie::ui::keys::key_action;

fn raw(text: &str) -> Snapshot {
    Snapshot { text: text.to_string(), anchor: text.len(), focus: text.len() }
}

fn facts(text: &str) -> EditorFacts {
    EditorFacts { raw: raw(text), selected: None }
}

fn field(multiline: bool) -> Inputs {
    let mut inputs = Inputs::new();
    let how = inputs.configure(4, Scalar(16f32.to_bits()), 0xFF, "", multiline);
    assert_eq!(how, Configured::Made);
    inputs
}

fn inserted(plan: Plan) -> String {
    assert!(plan.acted);
    match plan.cmd {
        EditorCmd::Insert(s) => s,
        _ => panic!("an insert was planned"),
    }
}

fn restored(plan: Plan) -> Snapshot {
    assert!(plan.acted);
    match plan.cmd {
        EditorCmd::Restore(s) => s,
        _ => panic!("a restore was planned"),
    }
}

#[test]
fn line_breaks_leave_a_single_line() {
    let mut one = field(false);
    let typed = KeyAction::Insert("a\nb\r\nc".to_string());
    assert_eq!(inserted(one.act(4, &typed, &facts(""), None)), "abc");
    let pasted = one.act(4, &KeyAction::Paste, &facts(""), Some("a\nb\r\nc".to_string()));
    assert_eq!(inserted(pasted), "a b  c");
    let mut many = field(true);
    assert_eq!(inserted(many.act(4, &typed, &facts(""), None)), "a\nb\r\nc");
    assert_eq!(inserted(many.act(4, &KeyAction::Newline, &facts(""), None)), "\n");
    assert!(matches!(
        one.act(4, &KeyAction::Newline, &facts(""), None).cmd,
        EditorCmd::Nothing
    ));
}

#[test]
fn inserts_coalesce_into_one_undo() {
    let mut inputs = field(false);
    inputs.act(4, &KeyAction::Insert("h".to_string()), &facts(""), None);
    inputs.act(4, &KeyAction::Insert("i".to_string()), &facts("h"), None);
    let back = restored(inputs.act(4, &KeyAction::Undo, &facts("hi"), None));
    assert_eq!(back.text, "");
    let none = inputs.act(4, &KeyAction::Undo, &facts(""), None);
    assert!(!none.acted);
    let again = restored(inputs.act(4, &KeyAction::Redo, &facts(""), None));
    assert_eq!(again.text, "hi");
    assert!(!inputs.act(4, &KeyAction::Redo, &facts("hi"), None).acted);
}

#[test]
fn structural_edits_split() {
    let mut inputs = field(false);
    inputs.act(4, &KeyAction::Insert("ab".to_string()), &facts(""), None);
    inputs.act(4, &KeyAction::Backspace, &facts("ab"), None);
    inputs.act(4, &KeyAction::Insert("c".to_string()), &facts("a"), None);
    let one = restored(inputs.act(4, &KeyAction::Undo, &facts("ac"), None));
    assert_eq!(one.text, "a");
    let two = restored(inputs.act(4, &KeyAction::Undo, &facts("a"), None));
    assert_eq!(two.text, "ab");
    let three = restored(inputs.act(4, &KeyAction::Undo, &facts("ab"), None));
    assert_eq!(three.text, "");
}

#[test]
fn an_edit_drops_what_could_be_redone() {
    let mut inputs = field(false);
    inputs.act(4, &KeyAction::Insert("a".to_string()), &facts(""), None);
    inputs.act(4, &KeyAction::Undo, &facts("a"), None);
    inputs.act(4, &KeyAction::Insert("b".to_string()), &facts(""), None);
    assert!(!inputs.act(4, &KeyAction::Redo, &facts("b"), None).acted);
}

#[test]
fn motion_does_not_record() {
    let mut inputs = field(false);
    let plan = inputs.act(4, &KeyAction::MoveLeft, &facts("abc"), None);
    assert!(plan.acted && matches!(plan.cmd, EditorCmd::Navigate));
    assert!(!inputs.act(4, &KeyAction::Undo, &facts("abc"), None).acted);
}

#[test]
fn history_is_bounded() {
    let mut inputs = field(false);
    for i in 0..HISTORY + 20 {
        inputs.act(4, &KeyAction::Backspace, &facts(&i.to_string()), None);
    }
    let mut undone = 0;
    while inputs.act(4, &KeyAction::Undo, &facts("x"), None).acted {
        undone += 1;
    }
    assert_eq!(undone, HISTORY);
}

#[test]
fn cut_copy_and_paste() {
    let mut inputs = field(false);
    let some = EditorFacts { raw: raw("abc"), selected: Some("b".to_string()) };
    let copy = inputs.act(4, &KeyAction::Copy, &some, None);
    assert_eq!(copy.copy.as_deref(), Some("b"));
    assert!(matches!(copy.cmd, EditorCmd::Nothing));
    let cut = inputs.act(4, &KeyAction::Cut, &some, None);
    assert_eq!(cut.copy.as_deref(), Some("b"));
    assert!(matches!(cut.cmd, EditorCmd::DeleteSelection));
    let nothing = inputs.act(4, &KeyAction::Cut, &facts("abc"), None);
    assert!(nothing.copy.is_none() && matches!(nothing.cmd, EditorCmd::Nothing));
    assert!(matches!(
        inputs.act(4, &KeyAction::Paste, &facts("abc"), None).cmd,
        EditorCmd::Nothing
    ));
}

#[test]
fn restored_selections_stay_inside_the_text() {
    let mut inputs = field(false);
    let before = EditorFacts {
        raw: Snapshot { text: "ab".to_string(), anchor: 1, focus: 9 },
        selected: None,
    };
    inputs.act(4, &KeyAction::Delete, &before, None);
    let back = restored(inputs.act(4, &KeyAction::Undo, &facts("b"), None));
    assert_eq!((back.anchor, back.focus), (1, 2));
}

#[test]
fn changes_are_reported_once() {
    let mut inputs = field(false);
    assert_eq!(inputs.take_change(4, 7, "x".to_string()), Some("x".to_string()));
    assert_eq!(inputs.take_change(4, 7, "x".to_string()), None);
    assert_eq!(inputs.take_change(4, 8, "y".to_string()), Some("y".to_string()));
    assert_eq!(inputs.take_change(5, 1, "z".to_string()), None);
    inputs.remove(4);
    assert_eq!(inputs.take_change(4, 9, "x".to_string()), None);
    assert!(inputs.get(4).is_none());
}

#[test]
fn reconfiguring_keeps_the_history() {
    let mut inputs = field(false);
    inputs.act(4, &KeyAction::Backspace, &facts("abc"), None);
    let how = inputs.configure(4, Scalar(16f32.to_bits()), 0xEE, "hint", true);
    assert_eq!(how, Configured::Changed { font_size: false, color: true });
    assert!(inputs.is_multiline(4));
    assert_eq!(inputs.placeholder(4), Some("hint".to_string()));
    assert_eq!(restored(inputs.act(4, &KeyAction::Undo, &facts("ab"), None)).text, "abc");
    assert!(inputs.record(4, &raw("zz")));
    assert!(!inputs.record(9, &raw("zz")));
}

fn press(key: Key, text: Option<&str>, mods: Mods) -> KeyInput {
    KeyInput {
        key,
        text: text.map(|t| t.to_string()),
        char: text.map(|t| t.to_string()),
        mods,
    }
}

#[test]
fn keys_mean_actions() {
    let none = Mods::default();
    let meta = Mods { meta: true, ..none };
    let alt = Mods { alt: true, ..none };
    let shift = Mods { shift: true, ..none };
    let act = |k: KeyInput| key_action(&k, false);
    assert!(matches!(act(press(Key::Unknown, Some("q"), none)), Some(KeyAction::Insert(s)) if s == "q"));
    assert!(matches!(act(press(Key::Enter, None, none)), Some(KeyAction::Submit)));
    assert!(matches!(
        key_action(&press(Key::Enter, None, none), true),
        Some(KeyAction::Newline)
    ));
    assert!(matches!(act(press(Key::Left, None, none)), Some(KeyAction::MoveLeft)));
    assert!(matches!(act(press(Key::Left, None, shift)), Some(KeyAction::SelectLeft)));
    assert!(matches!(act(press(Key::Left, None, alt)), Some(KeyAction::MoveWordLeft)));
    assert!(matches!(act(press(Key::Backspace, None, alt)), Some(KeyAction::BackspaceWord)));
    assert!(matches!(act(press(Key::Unknown, Some("a"), meta)), Some(KeyAction::SelectAll)));
    assert!(matches!(act(press(Key::Unknown, Some("c"), meta)), Some(KeyAction::Copy)));
    assert!(matches!(act(press(Key::Unknown, Some("z"), meta)), Some(KeyAction::Undo)));
    assert!(act(press(Key::Tab, None, none)).is_none());
}
