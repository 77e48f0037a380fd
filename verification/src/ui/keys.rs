//! What a key press means to a text input.

use crate::events::{Key, KeyInput, Mods};
use crate::input::{lemma_empty_text, EditorCmdModel, InputModel, KeyAction};
use crate::wire::same_str;
use vstd::prelude::*;

verus! {

/// What a command chord means: letters first, then arrows.
pub open spec fn chord(c: Seq<char>, key: Key, shift: bool) -> Option<KeyAction> {
    if c == seq!['a'] {
        Some(KeyAction::SelectAll)
    } else if c == seq!['c'] {
        Some(KeyAction::Copy)
    } else if c == seq!['x'] {
        Some(KeyAction::Cut)
    } else if c == seq!['v'] {
        Some(KeyAction::Paste)
    } else if c == seq!['z'] && shift {
        Some(KeyAction::Redo)
    } else if c == seq!['z'] || c == seq!['y'] {
        Some(KeyAction::Undo)
    } else {
        match key {
            Key::Left | Key::Up => Some(
                if shift {
                    KeyAction::SelectTextStart
                } else {
                    KeyAction::MoveTextStart
                },
            ),
            Key::Right | Key::Down => Some(
                if shift {
                    KeyAction::SelectTextEnd
                } else {
                    KeyAction::MoveTextEnd
                },
            ),
            _ => None,
        }
    }
}

/// What a named key means without a command modifier: `alt` works by words,
/// `shift` selects.
pub open spec fn stroke(key: Key, shift: bool, alt: bool, multiline: bool) -> Option<KeyAction> {
    match key {
        Key::Backspace => Some(
            if alt {
                KeyAction::BackspaceWord
            } else {
                KeyAction::Backspace
            },
        ),
        Key::Delete => Some(
            if alt {
                KeyAction::DeleteWord
            } else {
                KeyAction::Delete
            },
        ),
        Key::Enter => Some(
            if multiline {
                KeyAction::Newline
            } else {
                KeyAction::Submit
            },
        ),
        Key::Left => Some(
            if shift && alt {
                KeyAction::SelectWordLeft
            } else if shift {
                KeyAction::SelectLeft
            } else if alt {
                KeyAction::MoveWordLeft
            } else {
                KeyAction::MoveLeft
            },
        ),
        Key::Right => Some(
            if shift && alt {
                KeyAction::SelectWordRight
            } else if shift {
                KeyAction::SelectRight
            } else if alt {
                KeyAction::MoveWordRight
            } else {
                KeyAction::MoveRight
            },
        ),
        Key::Up => Some(
            if shift {
                KeyAction::SelectUp
            } else {
                KeyAction::MoveUp
            },
        ),
        Key::Down => Some(
            if shift {
                KeyAction::SelectDown
            } else {
                KeyAction::MoveDown
            },
        ),
        Key::Home => Some(
            if shift {
                KeyAction::SelectLineStart
            } else {
                KeyAction::MoveLineStart
            },
        ),
        Key::End => Some(
            if shift {
                KeyAction::SelectLineEnd
            } else {
                KeyAction::MoveLineEnd
            },
        ),
        _ => None,
    }
}

/// The text of a press, where it has one.
pub open spec fn typed(text: Option<String>) -> Seq<char> {
    match text {
        Some(t) => t@,
        None => Seq::empty(),
    }
}

/// What a key press means to an input: printable text is inserted unless a
/// command modifier is held.
pub open spec fn meaning(k: KeyInput, multiline: bool) -> Option<KeyAction> {
    if !k.mods.meta && !k.mods.ctrl && typed(k.text).len() > 0 {
        Some(KeyAction::Insert(k.text.unwrap()))
    } else if k.mods.meta || k.mods.ctrl {
        chord(typed(k.char), k.key, k.mods.shift)
    } else {
        stroke(k.key, k.mods.shift, k.mods.alt, multiline)
    }
}

fn chord_action(c: &str, key: Key, shift: bool) -> (r: Option<KeyAction>)
    ensures
        r == chord(c@, key, shift),
{
    proof {
        reveal_strlit("a");
        reveal_strlit("c");
        reveal_strlit("x");
        reveal_strlit("v");
        reveal_strlit("z");
        reveal_strlit("y");
        assert("a"@ =~= seq!['a']);
        assert("c"@ =~= seq!['c']);
        assert("x"@ =~= seq!['x']);
        assert("v"@ =~= seq!['v']);
        assert("z"@ =~= seq!['z']);
        assert("y"@ =~= seq!['y']);
    }
    if same_str(c, "a") {
        return Some(KeyAction::SelectAll);
    }
    if same_str(c, "c") {
        return Some(KeyAction::Copy);
    }
    if same_str(c, "x") {
        return Some(KeyAction::Cut);
    }
    if same_str(c, "v") {
        return Some(KeyAction::Paste);
    }
    let z: bool = same_str(c, "z");
    if z && shift {
        return Some(KeyAction::Redo);
    }
    if z || same_str(c, "y") {
        return Some(KeyAction::Undo);
    }
    match key {
        Key::Left | Key::Up => Some(
            if shift {
                KeyAction::SelectTextStart
            } else {
                KeyAction::MoveTextStart
            },
        ),
        Key::Right | Key::Down => Some(
            if shift {
                KeyAction::SelectTextEnd
            } else {
                KeyAction::MoveTextEnd
            },
        ),
        _ => None,
    }
}

/// Maps a key press to an editing action. `meta` and `ctrl` take priority,
/// then `alt` (words), then `shift` (selection). `None` where the key means
/// nothing to an input.
pub fn key_action(k: &KeyInput, multiline: bool) -> (r: Option<KeyAction>)
    ensures
        r == meaning(*k, multiline),
{
    let m: Mods = k.mods;
    if !m.meta && !m.ctrl {
        if let Some(t) = &k.text {
            proof {
                lemma_empty_text(t@);
            }
            if t.as_str().as_bytes().len() > 0 {
                return Some(KeyAction::Insert(t.clone()));
            }
        }
    }
    if m.meta || m.ctrl {
        return match &k.char {
            Some(c) => chord_action(c.as_str(), k.key, m.shift),
            None => {
                proof {
                    reveal_strlit("");
                    assert(""@ =~= Seq::<char>::empty());
                }
                chord_action("", k.key, m.shift)
            },
        };
    }
    let sel: bool = m.shift;
    match k.key {
        Key::Backspace => Some(
            if m.alt {
                KeyAction::BackspaceWord
            } else {
                KeyAction::Backspace
            },
        ),
        Key::Delete => Some(
            if m.alt {
                KeyAction::DeleteWord
            } else {
                KeyAction::Delete
            },
        ),
        Key::Enter => Some(
            if multiline {
                KeyAction::Newline
            } else {
                KeyAction::Submit
            },
        ),
        Key::Left => Some(
            if sel && m.alt {
                KeyAction::SelectWordLeft
            } else if sel {
                KeyAction::SelectLeft
            } else if m.alt {
                KeyAction::MoveWordLeft
            } else {
                KeyAction::MoveLeft
            },
        ),
        Key::Right => Some(
            if sel && m.alt {
                KeyAction::SelectWordRight
            } else if sel {
                KeyAction::SelectRight
            } else if m.alt {
                KeyAction::MoveWordRight
            } else {
                KeyAction::MoveRight
            },
        ),
        Key::Up => Some(
            if sel {
                KeyAction::SelectUp
            } else {
                KeyAction::MoveUp
            },
        ),
        Key::Down => Some(
            if sel {
                KeyAction::SelectDown
            } else {
                KeyAction::MoveDown
            },
        ),
        Key::Home => Some(
            if sel {
                KeyAction::SelectLineStart
            } else {
                KeyAction::MoveLineStart
            },
        ),
        Key::End => Some(
            if sel {
                KeyAction::SelectLineEnd
            } else {
                KeyAction::MoveLineEnd
            },
        ),
        _ => None,
    }
}

/// A press with a command modifier never types.
pub proof fn law_commands_do_not_type(k: KeyInput, multiline: bool)
    requires
        k.mods.meta || k.mods.ctrl,
    ensures
        !(meaning(k, multiline) matches Some(KeyAction::Insert(_))),
{
}

/// Enter submits a single-line input and breaks the line of another, unless
/// it comes with text or a command modifier.
pub proof fn law_enter_submits_or_breaks(k: KeyInput, multiline: bool)
    requires
        k.key == Key::Enter,
        !k.mods.meta && !k.mods.ctrl,
        typed(k.text).len() == 0,
    ensures
        meaning(k, multiline) == Some(
            if multiline {
                KeyAction::Newline
            } else {
                KeyAction::Submit
            },
        ),
{
}

/// True of a press without a command modifier.
pub open spec fn plain(k: KeyInput) -> bool {
    !k.mods.meta && !k.mods.ctrl
}

/// True of a press that brings no text.
pub open spec fn silent(k: KeyInput) -> bool {
    match k.text {
        Some(t) => t@.len() == 0,
        None => true,
    }
}

/// Text that a press brings is inserted as it is, whatever key it came from,
/// unless a command modifier is held.
pub proof fn law_text_is_typed(k: KeyInput, multiline: bool)
    requires
        plain(k),
        k.text matches Some(t) && t@.len() > 0,
    ensures
        meaning(k, multiline) matches Some(KeyAction::Insert(s)) && s@ == k.text.unwrap()@,
{
}

/// The erasing keys: Backspace erases before the caret, Delete behind it; with
/// alt a word, else a character. The editor is asked for just that.
pub proof fn law_erasing_keys(
    k: KeyInput,
    multiline: bool,
    st: InputModel,
    selected: Option<Seq<char>>,
    clip: Option<Seq<char>>,
)
    requires
        plain(k),
        silent(k),
    ensures
        k.key == Key::Backspace && !k.mods.alt ==> meaning(k, multiline) == Some(
            KeyAction::Backspace,
        ),
        k.key == Key::Backspace && k.mods.alt ==> meaning(k, multiline) == Some(
            KeyAction::BackspaceWord,
        ),
        k.key == Key::Delete && !k.mods.alt ==> meaning(k, multiline) == Some(KeyAction::Delete),
        k.key == Key::Delete && k.mods.alt ==> meaning(k, multiline) == Some(
            KeyAction::DeleteWord,
        ),
        k.key == Key::Backspace ==> st.plan(meaning(k, multiline).unwrap(), selected, clip).cmd
            == (if k.mods.alt {
            EditorCmdModel::BackspaceWord
        } else {
            EditorCmdModel::Backspace
        }),
        k.key == Key::Delete ==> st.plan(meaning(k, multiline).unwrap(), selected, clip).cmd == (
        if k.mods.alt {
            EditorCmdModel::DeleteWord
        } else {
            EditorCmdModel::Delete
        }),
{
}

/// The keys that move the caret without selecting: arrows by a character or a
/// line, with alt by a word to the side, Home and End to the ends of the line.
pub proof fn law_moving_keys(k: KeyInput, multiline: bool)
    requires
        plain(k),
        silent(k),
        !k.mods.shift,
    ensures
        k.key == Key::Left && !k.mods.alt ==> meaning(k, multiline) == Some(KeyAction::MoveLeft),
        k.key == Key::Right && !k.mods.alt ==> meaning(k, multiline) == Some(KeyAction::MoveRight),
        k.key == Key::Left && k.mods.alt ==> meaning(k, multiline) == Some(KeyAction::MoveWordLeft),
        k.key == Key::Right && k.mods.alt ==> meaning(k, multiline) == Some(
            KeyAction::MoveWordRight,
        ),
        k.key == Key::Up ==> meaning(k, multiline) == Some(KeyAction::MoveUp),
        k.key == Key::Down ==> meaning(k, multiline) == Some(KeyAction::MoveDown),
        k.key == Key::Home ==> meaning(k, multiline) == Some(KeyAction::MoveLineStart),
        k.key == Key::End ==> meaning(k, multiline) == Some(KeyAction::MoveLineEnd),
{
}

/// The same keys with shift select what they would move over.
pub proof fn law_selecting_keys(k: KeyInput, multiline: bool)
    requires
        plain(k),
        silent(k),
        k.mods.shift,
    ensures
        k.key == Key::Left && !k.mods.alt ==> meaning(k, multiline) == Some(KeyAction::SelectLeft),
        k.key == Key::Right && !k.mods.alt ==> meaning(k, multiline) == Some(
            KeyAction::SelectRight,
        ),
        k.key == Key::Left && k.mods.alt ==> meaning(k, multiline) == Some(
            KeyAction::SelectWordLeft,
        ),
        k.key == Key::Right && k.mods.alt ==> meaning(k, multiline) == Some(
            KeyAction::SelectWordRight,
        ),
        k.key == Key::Up ==> meaning(k, multiline) == Some(KeyAction::SelectUp),
        k.key == Key::Down ==> meaning(k, multiline) == Some(KeyAction::SelectDown),
        k.key == Key::Home ==> meaning(k, multiline) == Some(KeyAction::SelectLineStart),
        k.key == Key::End ==> meaning(k, multiline) == Some(KeyAction::SelectLineEnd),
{
}

/// The character of a chord.
pub open spec fn struck(k: KeyInput, c: char) -> bool {
    k.char matches Some(t) && t@.len() == 1 && t@[0] == c
}

/// Command chords: letters select all, copy, cut, paste, undo and redo,
/// whatever text the press brings.
pub proof fn law_command_letters(k: KeyInput, multiline: bool)
    requires
        k.mods.meta || k.mods.ctrl,
    ensures
        struck(k, 'a') ==> meaning(k, multiline) == Some(KeyAction::SelectAll),
        struck(k, 'c') ==> meaning(k, multiline) == Some(KeyAction::Copy),
        struck(k, 'x') ==> meaning(k, multiline) == Some(KeyAction::Cut),
        struck(k, 'v') ==> meaning(k, multiline) == Some(KeyAction::Paste),
        struck(k, 'z') && !k.mods.shift ==> meaning(k, multiline) == Some(KeyAction::Undo),
        struck(k, 'z') && k.mods.shift ==> meaning(k, multiline) == Some(KeyAction::Redo),
        struck(k, 'y') ==> meaning(k, multiline) == Some(KeyAction::Undo),
{
    if let Some(t) = k.char {
        if t@.len() == 1 {
            let c = t@[0];
            assert(t@ =~= seq![c]);
            assert(seq!['a'][0] == 'a' && seq!['c'][0] == 'c' && seq!['x'][0] == 'x');
            assert(seq!['v'][0] == 'v' && seq!['z'][0] == 'z' && seq!['y'][0] == 'y');
        }
    }
}

/// Command arrows go to the ends of the text, and select up to them with
/// shift; any other command chord means nothing.
pub proof fn law_command_arrows(k: KeyInput, multiline: bool)
    requires
        k.mods.meta || k.mods.ctrl,
        k.char is None,
    ensures
        k.key == Key::Left || k.key == Key::Up ==> meaning(k, multiline) == Some(
            if k.mods.shift {
                KeyAction::SelectTextStart
            } else {
                KeyAction::MoveTextStart
            },
        ),
        k.key == Key::Right || k.key == Key::Down ==> meaning(k, multiline) == Some(
            if k.mods.shift {
                KeyAction::SelectTextEnd
            } else {
                KeyAction::MoveTextEnd
            },
        ),
        !(k.key == Key::Left || k.key == Key::Up || k.key == Key::Right || k.key == Key::Down)
            ==> meaning(k, multiline) is None,
{
    assert(seq!['a'].len() == 1 && seq!['c'].len() == 1 && seq!['x'].len() == 1);
    assert(seq!['v'].len() == 1 && seq!['z'].len() == 1 && seq!['y'].len() == 1);
}

/// The other keys mean nothing to an input, unless they bring text.
pub proof fn law_other_keys_mean_nothing(k: KeyInput, multiline: bool)
    requires
        plain(k),
        silent(k),
        k.key == Key::Unknown || k.key == Key::Tab || k.key == Key::Escape || k.key == Key::PageUp
            || k.key == Key::PageDown,
    ensures
        meaning(k, multiline) is None,
{
}

} // verus!
