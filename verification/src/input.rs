//! Text inputs: configuration, undo history, and what an editing action
//! asks of the editor that holds the buffer.
//!
//! The editor itself runs outside this crate: before an action it is read
//! (`EditorFacts`), and the plan that `Inputs::act` returns says what to do
//! to it. Undo is a stack of snapshots: consecutive inserts coalesce into
//! one entry, navigation and selection do not record, and structural edits
//! (delete, paste, undo) always split.

use crate::scalar::Scalar;
use crate::scene::Color;
use std::collections::HashMap;
use vstd::prelude::*;
use vstd::utf8::encode_utf8;

verus! {

broadcast use vstd::std_specs::hash::group_hash_axioms;

/// Entries that a history keeps at most.
pub const HISTORY: usize = 128;

/// Fill of a selection, 0xRRGGBBAA.
pub const SELECTION_COLOR: u32 = 0x3584_E47A;

/// Buffer and selection, by byte index.
#[derive(Debug)]
pub struct Snapshot {
    pub text: String,
    pub anchor: usize,
    pub focus: usize,
}

#[verifier::ext_equal]
pub struct SnapshotModel {
    pub text: Seq<char>,
    pub anchor: usize,
    pub focus: usize,
}

impl View for Snapshot {
    type V = SnapshotModel;

    open spec fn view(&self) -> SnapshotModel {
        SnapshotModel { text: self.text@, anchor: self.anchor, focus: self.focus }
    }
}

impl SnapshotModel {
    /// The snapshot with its selection held inside its text.
    pub open spec fn clamped(self) -> SnapshotModel {
        let len = encode_utf8(self.text).len();
        SnapshotModel {
            anchor: if self.anchor <= len {
                self.anchor
            } else {
                len as usize
            },
            focus: if self.focus <= len {
                self.focus
            } else {
                len as usize
            },
            ..self
        }
    }
}

/// What an action reads of the editor.
#[derive(Debug)]
pub struct EditorFacts {
    /// Buffer and selection.
    pub raw: Snapshot,
    /// The selected text, if anything is selected.
    pub selected: Option<String>,
}

/// What a plan asks of the editor.
#[derive(Debug)]
pub enum EditorCmd {
    Nothing,
    /// Replace the selection, or insert at the caret.
    Insert(String),
    Backspace,
    Delete,
    BackspaceWord,
    DeleteWord,
    DeleteSelection,
    /// Run the motion or selection that the action names.
    Navigate,
    /// Replace the buffer and the selection.
    Restore(Snapshot),
}

pub enum EditorCmdModel {
    Nothing,
    Insert(Seq<char>),
    Backspace,
    Delete,
    BackspaceWord,
    DeleteWord,
    DeleteSelection,
    Navigate,
    Restore(SnapshotModel),
}

impl View for EditorCmd {
    type V = EditorCmdModel;

    open spec fn view(&self) -> EditorCmdModel {
        match *self {
            EditorCmd::Nothing => EditorCmdModel::Nothing,
            EditorCmd::Insert(s) => EditorCmdModel::Insert(s@),
            EditorCmd::Backspace => EditorCmdModel::Backspace,
            EditorCmd::Delete => EditorCmdModel::Delete,
            EditorCmd::BackspaceWord => EditorCmdModel::BackspaceWord,
            EditorCmd::DeleteWord => EditorCmdModel::DeleteWord,
            EditorCmd::DeleteSelection => EditorCmdModel::DeleteSelection,
            EditorCmd::Navigate => EditorCmdModel::Navigate,
            EditorCmd::Restore(s) => EditorCmdModel::Restore(s@),
        }
    }
}

/// What an action comes to.
#[derive(Debug)]
pub struct Plan {
    /// Whether there was an input, and something to do.
    pub acted: bool,
    /// Text for the clipboard.
    pub copy: Option<String>,
    pub cmd: EditorCmd,
}

#[verifier::ext_equal]
pub struct PlanModel {
    pub acted: bool,
    pub copy: Option<Seq<char>>,
    pub cmd: EditorCmdModel,
}

impl View for Plan {
    type V = PlanModel;

    open spec fn view(&self) -> PlanModel {
        PlanModel {
            acted: self.acted,
            copy: match self.copy {
                Some(s) => Some(s@),
                None => None,
            },
            cmd: self.cmd@,
        }
    }
}

impl PlanModel {
    pub open spec fn idle() -> PlanModel {
        PlanModel { acted: false, copy: None, cmd: EditorCmdModel::Nothing }
    }

    pub open spec fn run(cmd: EditorCmdModel) -> PlanModel {
        PlanModel { acted: true, copy: None, cmd }
    }
}

/// A resolved editing or pointer action on an input.
#[derive(Debug)]
pub enum KeyAction {
    Insert(String),
    Backspace,
    Delete,
    BackspaceWord,
    DeleteWord,
    MoveLeft,
    MoveRight,
    MoveUp,
    MoveDown,
    MoveWordLeft,
    MoveWordRight,
    MoveLineStart,
    MoveLineEnd,
    MoveTextStart,
    MoveTextEnd,
    SelectLeft,
    SelectRight,
    SelectUp,
    SelectDown,
    SelectWordLeft,
    SelectWordRight,
    SelectLineStart,
    SelectLineEnd,
    SelectTextStart,
    SelectTextEnd,
    SelectAll,
    Newline,
    /// Enter on a single-line input: no edit, a submit event instead.
    Submit,
    Cut,
    Copy,
    Paste,
    Undo,
    Redo,
    /// Place the caret at a point (relative to the content box, logical).
    MoveTo(Scalar, Scalar),
    /// Extend the selection to a drag point.
    ExtendTo(Scalar, Scalar),
    /// Double-click: select the word at a point.
    SelectWordAt(Scalar, Scalar),
}

// ---------------------------------------------------------------- line breaks

/// `s` with each occurrence of two characters replaced by `with`.
pub open spec fn replaced(s: Seq<char>, a: char, b: char, with: Seq<char>) -> Seq<char>
    decreases s.len(),
{
    if s.len() == 0 {
        Seq::empty()
    } else {
        (if s[0] == a || s[0] == b {
            with
        } else {
            seq![s[0]]
        }) + replaced(s.drop_first(), a, b, with)
    }
}

/// `s` with each line feed and carriage return replaced by `with`.
pub open spec fn unbroken(s: Seq<char>, with: Seq<char>) -> Seq<char> {
    replaced(s, '\n', '\r', with)
}

/// `str::replace` with two characters as its pattern. Claimed of it: each of
/// their occurrences is replaced, and the rest is kept, in order.
#[verifier::external_body]
fn replace_chars(s: &str, a: char, b: char, with: &str) -> (r: String)
    ensures
        r@ == replaced(s@, a, b, with@),
{
    s.replace([a, b], with)
}

/// A text without its line breaks has none.
pub proof fn law_unbroken_has_no_breaks(s: Seq<char>, with: Seq<char>)
    requires
        forall|i: int| 0 <= i < with.len() ==> with[i] != '\n' && with[i] != '\r',
    ensures
        forall|i: int|
            0 <= i < unbroken(s, with).len() ==> #[trigger] unbroken(s, with)[i] != '\n'
                && unbroken(s, with)[i] != '\r',
    decreases s.len(),
{
    if s.len() > 0 {
        law_unbroken_has_no_breaks(s.drop_first(), with);
        let head = if s[0] == '\n' || s[0] == '\r' {
            with
        } else {
            seq![s[0]]
        };
        let rest = unbroken(s.drop_first(), with);
        assert forall|i: int| 0 <= i < unbroken(s, with).len() implies #[trigger] unbroken(s, with)[i]
            != '\n' && unbroken(s, with)[i] != '\r' by {
            if i < head.len() {
                assert((head + rest)[i] == head[i]);
            } else {
                assert((head + rest)[i] == rest[i - head.len()]);
            }
        }
    }
}

// -------------------------------------------------------------------- history

pub struct InputState {
    pub placeholder: String,
    pub font_size: Scalar,
    /// Text color, 0xRRGGBBAA.
    pub color: u32,
    /// Selection fill, 0xRRGGBBAA.
    pub selection_color: u32,
    pub multiline: bool,
    undo: Vec<Snapshot>,
    redo: Vec<Snapshot>,
    /// Whether the last entry came from an insert: consecutive inserts
    /// coalesce, anything else splits.
    coalescing_insert: bool,
}

#[verifier::ext_equal]
pub struct InputModel {
    pub placeholder: Seq<char>,
    pub font_size: Scalar,
    pub color: u32,
    pub selection_color: u32,
    pub multiline: bool,
    pub undo: Seq<SnapshotModel>,
    pub redo: Seq<SnapshotModel>,
    pub coalescing: bool,
}

pub open spec fn snapshots(s: Seq<Snapshot>) -> Seq<SnapshotModel> {
    Seq::new(s.len(), |i: int| s[i]@)
}

impl View for InputState {
    type V = InputModel;

    closed spec fn view(&self) -> InputModel {
        InputModel {
            placeholder: self.placeholder@,
            font_size: self.font_size,
            color: self.color,
            selection_color: self.selection_color,
            multiline: self.multiline,
            undo: snapshots(self.undo@),
            redo: snapshots(self.redo@),
            coalescing: self.coalescing_insert,
        }
    }
}

impl InputModel {
    pub open spec fn fresh(
        font_size: Scalar,
        color: u32,
        placeholder: Seq<char>,
        multiline: bool,
    ) -> InputModel {
        InputModel {
            placeholder,
            font_size,
            color,
            selection_color: SELECTION_COLOR,
            multiline,
            undo: Seq::empty(),
            redo: Seq::empty(),
            coalescing: false,
        }
    }

    /// The history is bounded.
    pub open spec fn wf(self) -> bool {
        self.undo.len() + self.redo.len() <= HISTORY
    }

    /// The input with its buffer recorded before an edit: a new entry,
    /// unless this insert coalesces with the one before. The oldest entry
    /// goes when the history is full, and what was undone is gone.
    pub open spec fn recorded(self, raw: SnapshotModel, coalesce: bool) -> InputModel {
        if coalesce && self.coalescing && self.undo.len() > 0 {
            self
        } else {
            InputModel {
                undo: if self.undo.len() >= HISTORY {
                    self.undo.push(raw).drop_first()
                } else {
                    self.undo.push(raw)
                },
                redo: Seq::empty(),
                coalescing: coalesce,
                ..self
            }
        }
    }

    /// The input with the run of inserts ended.
    pub open spec fn settled(self) -> InputModel {
        InputModel { coalescing: false, ..self }
    }

    /// The input after an undo: the last entry is to be restored, and the
    /// buffer as it is can be redone.
    pub open spec fn undone(self, raw: SnapshotModel) -> InputModel {
        if self.undo.len() == 0 {
            self
        } else {
            InputModel {
                undo: self.undo.drop_last(),
                redo: self.redo.push(raw),
                coalescing: false,
                ..self
            }
        }
    }

    pub open spec fn redone(self, raw: SnapshotModel) -> InputModel {
        if self.redo.len() == 0 {
            self
        } else {
            InputModel {
                redo: self.redo.drop_last(),
                undo: self.undo.push(raw),
                coalescing: false,
                ..self
            }
        }
    }

    /// The input after an action, given the editor's buffer and selection
    /// before it.
    pub open spec fn acted(
        self,
        action: KeyAction,
        raw: SnapshotModel,
        selected: Option<Seq<char>>,
        clip: Option<Seq<char>>,
    ) -> InputModel {
        match action {
            KeyAction::Insert(_) => self.recorded(raw, true),
            KeyAction::Newline => if self.multiline {
                self.recorded(raw, false)
            } else {
                self.settled()
            },
            KeyAction::Backspace
            | KeyAction::Delete
            | KeyAction::BackspaceWord
            | KeyAction::DeleteWord => self.recorded(raw, false),
            KeyAction::Cut => if selected is Some {
                self.recorded(raw, false)
            } else {
                self.settled()
            },
            KeyAction::Paste => if clip matches Some(s) && s.len() > 0 {
                self.recorded(raw, false)
            } else {
                self.settled()
            },
            KeyAction::Undo => self.undone(raw),
            KeyAction::Redo => self.redone(raw),
            _ => self.settled(),
        }
    }

    /// What an action asks of the editor and the clipboard.
    pub open spec fn plan(
        self,
        action: KeyAction,
        selected: Option<Seq<char>>,
        clip: Option<Seq<char>>,
    ) -> PlanModel {
        match action {
            KeyAction::Insert(s) => PlanModel::run(
                EditorCmdModel::Insert(
                    if self.multiline {
                        s@
                    } else {
                        unbroken(s@, Seq::empty())
                    },
                ),
            ),
            KeyAction::Newline => PlanModel::run(
                if self.multiline {
                    EditorCmdModel::Insert(seq!['\n'])
                } else {
                    EditorCmdModel::Nothing
                },
            ),
            KeyAction::Backspace => PlanModel::run(EditorCmdModel::Backspace),
            KeyAction::Delete => PlanModel::run(EditorCmdModel::Delete),
            KeyAction::BackspaceWord => PlanModel::run(EditorCmdModel::BackspaceWord),
            KeyAction::DeleteWord => PlanModel::run(EditorCmdModel::DeleteWord),
            KeyAction::Copy => PlanModel {
                copy: selected,
                ..PlanModel::run(EditorCmdModel::Nothing)
            },
            KeyAction::Cut => PlanModel {
                copy: selected,
                ..PlanModel::run(
                    if selected is Some {
                        EditorCmdModel::DeleteSelection
                    } else {
                        EditorCmdModel::Nothing
                    },
                )
            },
            KeyAction::Paste => PlanModel::run(
                if clip matches Some(s) && s.len() > 0 {
                    EditorCmdModel::Insert(
                        if self.multiline {
                            clip->0
                        } else {
                            unbroken(clip->0, seq![' '])
                        },
                    )
                } else {
                    EditorCmdModel::Nothing
                },
            ),
            KeyAction::Submit => PlanModel::run(EditorCmdModel::Nothing),
            KeyAction::Undo => if self.undo.len() == 0 {
                PlanModel::idle()
            } else {
                PlanModel::run(EditorCmdModel::Restore(self.undo.last().clamped()))
            },
            KeyAction::Redo => if self.redo.len() == 0 {
                PlanModel::idle()
            } else {
                PlanModel::run(EditorCmdModel::Restore(self.redo.last().clamped()))
            },
            _ => PlanModel::run(EditorCmdModel::Navigate),
        }
    }
}

fn byte_len(s: &String) -> (r: usize)
    ensures
        r == encode_utf8(s@).len(),
{
    let text = s.as_str();
    let bytes = text.as_bytes();
    bytes.len()
}

/// A snapshot with its selection held inside its text.
fn held(s: Snapshot) -> (r: Snapshot)
    ensures
        r@ == s@.clamped(),
{
    let len: usize = byte_len(&s.text);
    let anchor: usize = if s.anchor <= len {
        s.anchor
    } else {
        len
    };
    let focus: usize = if s.focus <= len {
        s.focus
    } else {
        len
    };
    Snapshot { text: s.text, anchor, focus }
}

fn copied(s: &Snapshot) -> (r: Snapshot)
    ensures
        r@ == s@,
{
    Snapshot { text: s.text.clone(), anchor: s.anchor, focus: s.focus }
}

fn run(cmd: EditorCmd) -> (r: Plan)
    ensures
        r@ == PlanModel::run(cmd@),
{
    Plan { acted: true, copy: None, cmd }
}

impl InputState {
    fn new(font_size: Scalar, color: u32, placeholder: &str, multiline: bool) -> (r: InputState)
        ensures
            r@ == InputModel::fresh(font_size, color, placeholder@, multiline),
    {
        let r = InputState {
            placeholder: placeholder.to_owned(),
            font_size,
            color,
            selection_color: SELECTION_COLOR,
            multiline,
            undo: Vec::new(),
            redo: Vec::new(),
            coalescing_insert: false,
        };
        proof {
            assert(r@ =~= InputModel::fresh(font_size, color, placeholder@, multiline));
        }
        r
    }

    /// Records the buffer before an edit. `coalesce` merges consecutive
    /// steps (plain typing).
    fn record_undo(&mut self, raw: &Snapshot, coalesce: bool)
        requires
            old(self)@.wf(),
        ensures
            final(self)@ == old(self)@.recorded(raw@, coalesce),
            final(self)@.wf(),
    {
        let ghost start = self@;
        if coalesce && self.coalescing_insert && self.undo.len() > 0 {
            return ;
        }
        self.undo.push(copied(raw));
        proof {
            assert(snapshots(self.undo@) =~= start.undo.push(raw@));
        }
        if self.undo.len() > HISTORY {
            let ghost full = self.undo@;
            self.undo.remove(0);
            proof {
                assert(snapshots(self.undo@) =~= snapshots(full).drop_first());
            }
        }
        self.redo = Vec::new();
        self.coalescing_insert = coalesce;
        proof {
            assert(self@ =~= start.recorded(raw@, coalesce));
        }
    }

    fn undo_redo(&mut self, raw: &Snapshot, undo: bool) -> (r: Plan)
        requires
            old(self)@.wf(),
        ensures
            final(self)@ == (if undo {
                old(self)@.undone(raw@)
            } else {
                old(self)@.redone(raw@)
            }),
            final(self)@.wf(),
            r@ == (if undo {
                if old(self)@.undo.len() == 0 {
                    PlanModel::idle()
                } else {
                    PlanModel::run(EditorCmdModel::Restore(old(self)@.undo.last().clamped()))
                }
            } else {
                if old(self)@.redo.len() == 0 {
                    PlanModel::idle()
                } else {
                    PlanModel::run(EditorCmdModel::Restore(old(self)@.redo.last().clamped()))
                }
            }),
    {
        let ghost start = self@;
        let ghost undos = self.undo@;
        let ghost redos = self.redo@;
        let snap: Option<Snapshot> = if undo {
            self.undo.pop()
        } else {
            self.redo.pop()
        };
        let snap: Snapshot = match snap {
            Some(snap) => snap,
            None => {
                return Plan { acted: false, copy: None, cmd: EditorCmd::Nothing };
            },
        };
        if undo {
            self.redo.push(copied(raw));
        } else {
            self.undo.push(copied(raw));
        }
        self.coalescing_insert = false;
        proof {
            if undo {
                assert(snapshots(self.undo@) =~= start.undo.drop_last());
                assert(snapshots(self.redo@) =~= start.redo.push(raw@));
                assert(start.undo.last() == undos.last()@);
            } else {
                assert(snapshots(self.redo@) =~= start.redo.drop_last());
                assert(snapshots(self.undo@) =~= start.undo.push(raw@));
                assert(start.redo.last() == redos.last()@);
            }
        }
        run(EditorCmd::Restore(held(snap)))
    }

    /// Performs an action on the history, and says what it asks of the
    /// editor and the clipboard.
    fn act(&mut self, action: &KeyAction, facts: &EditorFacts, clip: Option<String>) -> (r: Plan)
        requires
            old(self)@.wf(),
        ensures
            final(self)@ == old(self)@.acted(
                *action,
                facts.raw@,
                opt_view(facts.selected),
                opt_view(clip),
            ),
            final(self)@.wf(),
            r@ == old(self)@.plan(*action, opt_view(facts.selected), opt_view(clip)),
    {
        let ghost start = self@;
        match action {
            KeyAction::Insert(s) => {
                self.record_undo(&facts.raw, true);
                if self.multiline {
                    run(EditorCmd::Insert(s.clone()))
                } else {
                    proof {
                        reveal_strlit("");
                        assert(""@ =~= Seq::<char>::empty());
                    }
                    run(EditorCmd::Insert(replace_chars(s.as_str(), '\n', '\r', "")))
                }
            },
            KeyAction::Newline => if self.multiline {
                self.record_undo(&facts.raw, false);
                proof {
                    reveal_strlit("\n");
                    assert("\n"@ =~= seq!['\n']);
                }
                run(EditorCmd::Insert("\n".to_owned()))
            } else {
                self.coalescing_insert = false;
                run(EditorCmd::Nothing)
            },
            KeyAction::Backspace => {
                self.record_undo(&facts.raw, false);
                run(EditorCmd::Backspace)
            },
            KeyAction::Delete => {
                self.record_undo(&facts.raw, false);
                run(EditorCmd::Delete)
            },
            KeyAction::BackspaceWord => {
                self.record_undo(&facts.raw, false);
                run(EditorCmd::BackspaceWord)
            },
            KeyAction::DeleteWord => {
                self.record_undo(&facts.raw, false);
                run(EditorCmd::DeleteWord)
            },
            KeyAction::Copy => {
                self.coalescing_insert = false;
                Plan { acted: true, copy: copied_text(&facts.selected), cmd: EditorCmd::Nothing }
            },
            KeyAction::Cut => if facts.selected.is_some() {
                self.record_undo(&facts.raw, false);
                Plan {
                    acted: true,
                    copy: copied_text(&facts.selected),
                    cmd: EditorCmd::DeleteSelection,
                }
            } else {
                self.coalescing_insert = false;
                run(EditorCmd::Nothing)
            },
            KeyAction::Paste => match clip {
                Some(s) => {
                    proof {
                        lemma_empty_text(s@);
                    }
                    if byte_len(&s) > 0 {
                        self.record_undo(&facts.raw, false);
                        if self.multiline {
                            run(EditorCmd::Insert(s))
                        } else {
                            proof {
                                reveal_strlit(" ");
                                assert(" "@ =~= seq![' ']);
                            }
                            run(EditorCmd::Insert(replace_chars(s.as_str(), '\n', '\r', " ")))
                        }
                    } else {
                        self.coalescing_insert = false;
                        run(EditorCmd::Nothing)
                    }
                },
                None => {
                    self.coalescing_insert = false;
                    run(EditorCmd::Nothing)
                },
            },
            KeyAction::Submit => {
                self.coalescing_insert = false;
                run(EditorCmd::Nothing)
            },
            KeyAction::Undo => self.undo_redo(&facts.raw, true),
            KeyAction::Redo => self.undo_redo(&facts.raw, false),
            _ => {
                self.coalescing_insert = false;
                run(EditorCmd::Navigate)
            },
        }
    }
}

/// What an optional text holds.
pub open spec fn opt_view(s: Option<String>) -> Option<Seq<char>> {
    match s {
        Some(t) => Some(t@),
        None => None,
    }
}

fn copied_text(s: &Option<String>) -> (r: Option<String>)
    ensures
        opt_view(r) == opt_view(*s),
{
    match s {
        Some(t) => Some(t.clone()),
        None => None,
    }
}

/// A text is empty exactly where its bytes are.
pub(crate) proof fn lemma_empty_text(s: Seq<char>)
    ensures
        encode_utf8(s).len() == 0 <==> s.len() == 0,
{
    if s.len() > 0 {
        vstd::utf8::encode_utf8_decode_utf8(s);
        if encode_utf8(s).len() == 0 {
            assert(encode_utf8(s) =~= Seq::<u8>::empty());
            assert(vstd::utf8::decode_utf8(Seq::<u8>::empty()) =~= Seq::<char>::empty());
        }
    }
}

// --------------------------------------------------------------------- inputs

/// All live text inputs, keyed by node id.
pub struct Inputs {
    map: HashMap<u32, InputState>,
    /// Buffer generation last reported: a change event goes out only where
    /// the generation differs.
    notified: HashMap<u32, u64>,
}

/// What the inputs hold.
#[verifier::ext_equal]
pub struct InputsModel {
    pub inputs: Map<u32, InputModel>,
    pub notified: Map<u32, u64>,
}

/// How an editor follows a new configuration.
#[derive(Clone, Copy, Debug, PartialEq, Eq)]
pub enum Configured {
    /// There was no editor: make one.
    Made,
    /// The editor's font size or brush change, and it is laid out again.
    Changed { font_size: bool, color: bool },
}

impl InputsModel {
    pub open spec fn empty() -> InputsModel {
        InputsModel { inputs: Map::empty(), notified: Map::empty() }
    }

    pub open spec fn wf(self) -> bool {
        forall|id: u32| #[trigger] self.inputs.dom().contains(id) ==> self.inputs[id].wf()
    }

    pub open spec fn configured(
        self,
        id: u32,
        font_size: Scalar,
        color: u32,
        placeholder: Seq<char>,
        multiline: bool,
    ) -> InputsModel {
        InputsModel {
            inputs: self.inputs.insert(
                id,
                if self.inputs.dom().contains(id) {
                    let st = self.inputs[id];
                    InputModel {
                        font_size: if st.font_size.equals(font_size) {
                            st.font_size
                        } else {
                            font_size
                        },
                        color,
                        placeholder,
                        multiline,
                        ..st
                    }
                } else {
                    InputModel::fresh(font_size, color, placeholder, multiline)
                },
            ),
            ..self
        }
    }

    pub open spec fn without(self, id: u32) -> InputsModel {
        InputsModel { inputs: self.inputs.remove(id), notified: self.notified.remove(id) }
    }

    pub open spec fn with_input(self, id: u32, st: InputModel) -> InputsModel {
        InputsModel { inputs: self.inputs.insert(id, st), ..self }
    }

    /// The inputs with a buffer recorded before it is replaced or committed
    /// to.
    pub open spec fn recorded(self, id: u32, raw: SnapshotModel) -> InputsModel {
        if self.inputs.dom().contains(id) {
            self.with_input(id, self.inputs[id].recorded(raw, false))
        } else {
            self
        }
    }

    pub open spec fn acted(
        self,
        id: u32,
        action: KeyAction,
        raw: SnapshotModel,
        selected: Option<Seq<char>>,
        clip: Option<Seq<char>>,
    ) -> InputsModel {
        if self.inputs.dom().contains(id) {
            self.with_input(id, self.inputs[id].acted(action, raw, selected, clip))
        } else {
            self
        }
    }

    pub open spec fn plan(
        self,
        id: u32,
        action: KeyAction,
        selected: Option<Seq<char>>,
        clip: Option<Seq<char>>,
    ) -> PlanModel {
        if self.inputs.dom().contains(id) {
            self.inputs[id].plan(action, selected, clip)
        } else {
            PlanModel::idle()
        }
    }

    /// True where the buffer of an input is at a generation that was not
    /// reported.
    pub open spec fn owes_change(self, id: u32, generation: u64) -> bool {
        self.inputs.dom().contains(id) && !(self.notified.dom().contains(id) && self.notified[id]
            == generation)
    }

    /// The inputs with a generation reported.
    pub open spec fn reported(self, id: u32, generation: u64) -> InputsModel {
        if self.owes_change(id, generation) {
            InputsModel { notified: self.notified.insert(id, generation), ..self }
        } else {
            self
        }
    }
}

/// What the states of a map hold.
spec fn held_inputs(map: Map<u32, InputState>) -> Map<u32, InputModel> {
    map.map_values(|s: InputState| s@)
}

proof fn lemma_held(map: Map<u32, InputState>, id: u32, st: InputState)
    ensures
        held_inputs(map.insert(id, st)) == held_inputs(map).insert(id, st@),
        held_inputs(map.remove(id)) == held_inputs(map).remove(id),
        held_inputs(map).dom() == map.dom(),
{
    assert(held_inputs(map.insert(id, st)) =~= held_inputs(map).insert(id, st@));
    assert(held_inputs(map.remove(id)) =~= held_inputs(map).remove(id));
    assert(held_inputs(map).dom() =~= map.dom());
}

impl Inputs {
    pub closed spec fn model(&self) -> InputsModel {
        InputsModel { inputs: held_inputs(self.map@), notified: self.notified@ }
    }

    pub fn new() -> (r: Inputs)
        ensures
            r.model() == InputsModel::empty(),
            r.model().wf(),
    {
        let r = Inputs { map: HashMap::new(), notified: HashMap::new() };
        proof {
            assert(r.model() =~= InputsModel::empty());
        }
        r
    }

    pub fn get(&self, id: u32) -> (r: Option<&InputState>)
        ensures
            match r {
                Some(st) => self.model().inputs.dom().contains(id) && st@
                    == self.model().inputs[id],
                None => !self.model().inputs.dom().contains(id),
            },
    {
        self.map.get(&id)
    }

    /// Whether an input takes more than one line.
    pub fn is_multiline(&self, id: u32) -> (r: bool)
        ensures
            r == (self.model().inputs.dom().contains(id) && self.model().inputs[id].multiline),
    {
        match self.map.get(&id) {
            Some(st) => st.multiline,
            None => false,
        }
    }

    /// An input's placeholder, if it has one that is not empty.
    pub fn placeholder(&self, id: u32) -> (r: Option<String>)
        ensures
            opt_view(r) == (if self.model().inputs.dom().contains(id)
                && self.model().inputs[id].placeholder.len() > 0 {
                Some(self.model().inputs[id].placeholder)
            } else {
                None
            }),
    {
        match self.map.get(&id) {
            Some(st) => {
                proof {
                    lemma_empty_text(st.placeholder@);
                }
                if byte_len(&st.placeholder) > 0 {
                    Some(st.placeholder.clone())
                } else {
                    None
                }
            },
            None => None,
        }
    }

    /// Creates or reconfigures an input, and says how its editor follows.
    pub fn configure(
        &mut self,
        id: u32,
        font_size: Scalar,
        color: u32,
        placeholder: &str,
        multiline: bool,
    ) -> (r: Configured)
        requires
            old(self).model().wf(),
        ensures
            final(self).model() == old(self).model().configured(
                id,
                font_size,
                color,
                placeholder@,
                multiline,
            ),
            final(self).model().wf(),
            r == (if old(self).model().inputs.dom().contains(id) {
                Configured::Changed {
                    font_size: !old(self).model().inputs[id].font_size.equals(font_size),
                    color: old(self).model().inputs[id].color != color,
                }
            } else {
                Configured::Made
            }),
    {
        let ghost start = self.model();
        let ghost map = self.map@;
        match self.map.remove(&id) {
            Some(mut st) => {
                let ghost was = st@;
                let new_size: bool = !st.font_size.same(font_size);
                let new_color: bool = st.color != color;
                if new_size {
                    st.font_size = font_size;
                }
                st.color = color;
                st.placeholder = placeholder.to_owned();
                st.multiline = multiline;
                let ghost now = st@;
                self.map.insert(id, st);
                proof {
                    lemma_held(map, id, st);
                    lemma_held(map.remove(id), id, st);
                    assert(now.undo == was.undo && now.redo == was.redo);
                    assert(self.model() =~= start.configured(
                        id,
                        font_size,
                        color,
                        placeholder@,
                        multiline,
                    ));
                }
                Configured::Changed { font_size: new_size, color: new_color }
            },
            None => {
                let st = InputState::new(font_size, color, placeholder, multiline);
                self.map.insert(id, st);
                proof {
                    lemma_held(map, id, st);
                    lemma_held(map.remove(id), id, st);
                    assert(self.model() =~= start.configured(
                        id,
                        font_size,
                        color,
                        placeholder@,
                        multiline,
                    ));
                }
                Configured::Made
            },
        }
    }

    pub fn remove(&mut self, id: u32)
        requires
            old(self).model().wf(),
        ensures
            final(self).model() == old(self).model().without(id),
            final(self).model().wf(),
    {
        let ghost map = self.map@;
        let ghost start = self.model();
        let _ = self.map.remove(&id);
        let _ = self.notified.remove(&id);
        proof {
            assert(held_inputs(map.remove(id)) =~= held_inputs(map).remove(id));
            assert(self.model() =~= start.without(id));
        }
    }

    /// Records the buffer before it is replaced (a set-text command) or
    /// before composed text is committed. True where the input exists.
    pub fn record(&mut self, id: u32, raw: &Snapshot) -> (r: bool)
        requires
            old(self).model().wf(),
        ensures
            final(self).model() == old(self).model().recorded(id, raw@),
            final(self).model().wf(),
            r == old(self).model().inputs.dom().contains(id),
    {
        let ghost map = self.map@;
        let ghost start = self.model();
        match self.map.remove(&id) {
            Some(mut st) => {
                proof {
                    lemma_held(map, id, st);
                    assert(start.inputs[id].wf());
                }
                st.record_undo(raw, false);
                self.map.insert(id, st);
                proof {
                    lemma_held(map, id, st);
                    lemma_held(map.remove(id), id, st);
                    assert(self.model() =~= start.recorded(id, raw@));
                }
                true
            },
            None => {
                proof {
                    lemma_held_absent(map, id);
                }
                false
            },
        }
    }

    /// Marks a generation of an input's buffer reported, and hands its text
    /// back where it was not.
    pub fn take_change(&mut self, id: u32, generation: u64, text: String) -> (r: Option<String>)
        requires
            old(self).model().wf(),
        ensures
            final(self).model() == old(self).model().reported(id, generation),
            final(self).model().wf(),
            r == (if old(self).model().owes_change(id, generation) {
                Some(text)
            } else {
                None
            }),
    {
        let ghost start = self.model();
        if !self.map.contains_key(&id) {
            return None;
        }
        match self.notified.get(&id) {
            Some(g) => {
                if *g == generation {
                    return None;
                }
            },
            None => {},
        }
        self.notified.insert(id, generation);
        proof {
            assert(self.model() =~= start.reported(id, generation));
        }
        Some(text)
    }

    /// Applies an action to an input's history, and says what it asks of
    /// the editor and the clipboard.
    pub fn act(
        &mut self,
        id: u32,
        action: &KeyAction,
        facts: &EditorFacts,
        clip: Option<String>,
    ) -> (r: Plan)
        requires
            old(self).model().wf(),
        ensures
            final(self).model() == old(self).model().acted(
                id,
                *action,
                facts.raw@,
                opt_view(facts.selected),
                opt_view(clip),
            ),
            final(self).model().wf(),
            r@ == old(self).model().plan(id, *action, opt_view(facts.selected), opt_view(clip)),
    {
        let ghost map = self.map@;
        let ghost start = self.model();
        match self.map.remove(&id) {
            Some(mut st) => {
                proof {
                    lemma_held(map, id, st);
                    assert(start.inputs[id].wf());
                }
                let plan: Plan = st.act(action, facts, clip);
                self.map.insert(id, st);
                proof {
                    lemma_held(map, id, st);
                    lemma_held(map.remove(id), id, st);
                    assert(self.model() =~= start.acted(
                        id,
                        *action,
                        facts.raw@,
                        opt_view(facts.selected),
                        opt_view(clip),
                    ));
                }
                plan
            },
            None => {
                proof {
                    lemma_held_absent(map, id);
                }
                Plan { acted: false, copy: None, cmd: EditorCmd::Nothing }
            },
        }
    }
}

proof fn lemma_held_absent(map: Map<u32, InputState>, id: u32)
    requires
        !map.dom().contains(id),
    ensures
        held_inputs(map.remove(id)) == held_inputs(map),
{
    assert(held_inputs(map.remove(id)) =~= held_inputs(map));
}

impl Default for Inputs {
    fn default() -> (r: Inputs)
        ensures
            r.model() == InputsModel::empty(),
            r.model().wf(),
    {
        Inputs::new()
    }
}

/// What an input paints inside its box, back to front.
#[derive(Clone, Copy, Debug, PartialEq, Eq, Structural)]
pub struct InputPaint {
    /// Fill of the selection, behind the glyphs.
    pub selection: Option<u32>,
    /// Color of the placeholder, where it stands in for the text.
    pub placeholder: Option<u32>,
    /// Color of the caret.
    pub caret: Option<u32>,
    pub font_size: Scalar,
}

/// Selection and caret show while the input is focused; an input without
/// text shows its placeholder, if it has one, in half its text's alpha.
pub open spec fn input_paint_of(st: InputModel, focused: bool, empty: bool) -> InputPaint {
    InputPaint {
        selection: if focused {
            Some(st.selection_color)
        } else {
            None
        },
        placeholder: if empty && st.placeholder.len() > 0 {
            Some(Color(st.color).faded().0)
        } else {
            None
        },
        caret: if focused {
            Some(st.color)
        } else {
            None
        },
        font_size: st.font_size,
    }
}

/// What an input paints; `empty` says that its editor holds no text.
pub fn input_paint(inputs: &Inputs, id: u32, focused: bool, empty: bool) -> (r: Option<InputPaint>)
    ensures
        r == (if inputs.model().inputs.dom().contains(id) {
            Some(input_paint_of(inputs.model().inputs[id], focused, empty))
        } else {
            None
        }),
{
    let hint: bool = empty && inputs.placeholder(id).is_some();
    match inputs.get(id) {
        Some(st) => Some(
            InputPaint {
                selection: if focused {
                    Some(st.selection_color)
                } else {
                    None
                },
                placeholder: if hint {
                    Some(Color(st.color).half_alpha().0)
                } else {
                    None
                },
                caret: if focused {
                    Some(st.color)
                } else {
                    None
                },
                font_size: st.font_size,
            },
        ),
        None => None,
    }
}

// ----------------------------------------------------------------------- laws

/// A redo takes back an undo: where the editor holds what the undo restored,
/// the redo restores what the undo replaced, and the history is as before.
pub proof fn law_redo_undoes_undo(st: InputModel, before: SnapshotModel, restored: SnapshotModel)
    requires
        st.undo.len() > 0,
        restored == st.undo.last(),
    ensures
        st.undone(before).redo.last() == before,
        st.undone(before).redone(restored) == st.settled(),
{
    let once = st.undone(before);
    assert(once.redo.drop_last() =~= st.redo);
    assert(once.undo.push(restored) =~= st.undo);
}

/// An undo takes back a redo, in the same way.
pub proof fn law_undo_undoes_redo(st: InputModel, before: SnapshotModel, restored: SnapshotModel)
    requires
        st.redo.len() > 0,
        restored == st.redo.last(),
    ensures
        st.redone(before).undo.last() == before,
        st.redone(before).undone(restored) == st.settled(),
{
    let once = st.redone(before);
    assert(once.undo.drop_last() =~= st.undo);
    assert(once.redo.push(restored) =~= st.redo);
}

/// Consecutive inserts are one entry: the second leaves the history as the
/// first made it.
pub proof fn law_inserts_coalesce(
    st: InputModel,
    a: String,
    b: String,
    first: SnapshotModel,
    second: SnapshotModel,
    selected: Option<Seq<char>>,
    clip: Option<Seq<char>>,
)
    ensures
        ({
            let once = st.acted(KeyAction::Insert(a), first, selected, clip);
            once.acted(KeyAction::Insert(b), second, selected, clip) == once
        }),
{
}

/// An undo right after an edit gives the buffer back as it was before the
/// edit; after a run of inserts, as it was before the run.
pub proof fn law_undo_restores_what_an_edit_replaced(
    st: InputModel,
    raw: SnapshotModel,
    coalesce: bool,
)
    requires
        st.wf(),
        !(coalesce && st.coalescing && st.undo.len() > 0),
    ensures
        st.recorded(raw, coalesce).undo.last() == raw,
        st.recorded(raw, coalesce).redo.len() == 0,
        st.undo.len() < HISTORY ==> st.recorded(raw, coalesce).undo.drop_last() == st.undo,
{
    if st.undo.len() < HISTORY {
        assert(st.undo.push(raw).drop_last() =~= st.undo);
    }
}

/// Motions, selections and copies leave the history alone, and end a run of
/// inserts.
pub proof fn law_navigation_does_not_record(
    st: InputModel,
    action: KeyAction,
    raw: SnapshotModel,
    selected: Option<Seq<char>>,
    clip: Option<Seq<char>>,
)
    requires
        st.plan(action, selected, clip).cmd is Navigate || action is Copy,
    ensures
        st.acted(action, raw, selected, clip) == st.settled(),
{
}

/// The history never outgrows its bound, whatever is done.
pub proof fn law_history_is_bounded(
    st: InputModel,
    action: KeyAction,
    raw: SnapshotModel,
    selected: Option<Seq<char>>,
    clip: Option<Seq<char>>,
)
    requires
        st.wf(),
    ensures
        st.acted(action, raw, selected, clip).wf(),
        st.recorded(raw, false).wf(),
{
}

/// A buffer at one generation is reported once.
pub proof fn law_change_is_reported_once(m: InputsModel, id: u32, generation: u64)
    ensures
        !m.reported(id, generation).owes_change(id, generation),
{
}

// ------------------------------------------------------------- what actions do

/// What is typed or pasted goes in as it is where the input takes more than
/// one line. A single line takes typed text without its line breaks, and
/// pasted text with a blank for each.
pub proof fn law_text_goes_in(
    st: InputModel,
    typed: String,
    raw: SnapshotModel,
    selected: Option<Seq<char>>,
    pasted: Seq<char>,
)
    requires
        pasted.len() > 0,
    ensures
        ({
            let plan = st.plan(KeyAction::Insert(typed), selected, None);
            &&& plan.acted
            &&& plan.copy is None
            &&& plan.cmd matches EditorCmdModel::Insert(s)
            &&& st.multiline ==> s == typed@
            &&& !st.multiline ==> s == typed@.filter(|c: char| c != '\n' && c != '\r')
        }),
        ({
            let plan = st.plan(KeyAction::Paste, selected, Some(pasted));
            &&& plan.acted
            &&& plan.copy is None
            &&& plan.cmd matches EditorCmdModel::Insert(s)
            &&& st.multiline ==> s == pasted
            &&& !st.multiline ==> s == Seq::new(
                pasted.len(),
                |i: int|
                    if pasted[i] == '\n' || pasted[i] == '\r' {
                        ' '
                    } else {
                        pasted[i]
                    },
            )
        }),
        st.plan(KeyAction::Paste, selected, None).cmd is Nothing,
        st.plan(KeyAction::Paste, selected, Some(Seq::empty())).cmd is Nothing,
{
    lemma_unbroken_drops(typed@);
    lemma_unbroken_blanks(pasted);
}

proof fn lemma_unbroken_drops(s: Seq<char>)
    ensures
        unbroken(s, Seq::empty()) == s.filter(|c: char| c != '\n' && c != '\r'),
    decreases s.len(),
{
    let keep = |c: char| c != '\n' && c != '\r';
    if s.len() > 0 {
        let t = s.drop_first();
        lemma_unbroken_drops(t);
        assert(s =~= seq![s[0]] + t);
        Seq::filter_distributes_over_add(seq![s[0]], t, keep);
        assert(seq![s[0]].filter(keep) =~= (if keep(s[0]) {
            seq![s[0]]
        } else {
            Seq::<char>::empty()
        })) by {
            reveal(Seq::filter);
            assert(seq![s[0]].drop_last() =~= Seq::<char>::empty());
            assert(seq![s[0]].last() == s[0]);
            assert(Seq::<char>::empty().filter(keep) =~= Seq::<char>::empty());
        }
        assert(unbroken(s, Seq::empty()) =~= s.filter(keep));
    } else {
        reveal(Seq::filter);
        assert(s.filter(keep) =~= Seq::<char>::empty());
    }
}

proof fn lemma_unbroken_blanks(s: Seq<char>)
    ensures
        unbroken(s, seq![' ']).len() == s.len(),
        forall|i: int|
            0 <= i < s.len() ==> #[trigger] unbroken(s, seq![' '])[i] == (if s[i] == '\n' || s[i]
                == '\r' {
                ' '
            } else {
                s[i]
            }),
    decreases s.len(),
{
    if s.len() > 0 {
        let t = s.drop_first();
        lemma_unbroken_blanks(t);
        let head = if s[0] == '\n' || s[0] == '\r' {
            seq![' ']
        } else {
            seq![s[0]]
        };
        let all = unbroken(s, seq![' ']);
        assert(all == head + unbroken(t, seq![' ']));
        assert(head.len() == 1);
        assert forall|i: int| 0 <= i < s.len() implies #[trigger] all[i] == (if s[i] == '\n' || s[i]
            == '\r' {
            ' '
        } else {
            s[i]
        }) by {
            if i > 0 {
                assert(all[i] == unbroken(t, seq![' '])[i - 1]);
                assert(t[i - 1] == s[i]);
            }
        }
    }
}

/// Enter breaks the line of an input that takes more than one; the action
/// does nothing to another.
pub proof fn law_line_breaks(
    st: InputModel,
    raw: SnapshotModel,
    selected: Option<Seq<char>>,
    clip: Option<Seq<char>>,
)
    ensures
        st.multiline ==> st.plan(KeyAction::Newline, selected, clip).cmd == EditorCmdModel::Insert(
            seq!['\n'],
        ),
        !st.multiline ==> st.plan(KeyAction::Newline, selected, clip).cmd is Nothing && st.acted(
            KeyAction::Newline,
            raw,
            selected,
            clip,
        ).undo == st.undo,
        st.plan(KeyAction::Submit, selected, clip).cmd is Nothing,
{
}

/// Copying and cutting give the clipboard the selected text, and only cutting
/// takes it out of the buffer. Without a selection neither does anything.
pub proof fn law_copy_and_cut(st: InputModel, text: Seq<char>, clip: Option<Seq<char>>)
    ensures
        st.plan(KeyAction::Copy, Some(text), clip).copy == Some(text),
        st.plan(KeyAction::Copy, Some(text), clip).cmd is Nothing,
        st.plan(KeyAction::Cut, Some(text), clip).copy == Some(text),
        st.plan(KeyAction::Cut, Some(text), clip).cmd is DeleteSelection,
        st.plan(KeyAction::Copy, None, clip).copy is None,
        st.plan(KeyAction::Cut, None, clip).copy is None,
        st.plan(KeyAction::Cut, None, clip).cmd is Nothing,
{
}

/// The clipboard is only ever given the selection, by a copy or a cut.
pub proof fn law_only_copies_reach_the_clipboard(
    st: InputModel,
    action: KeyAction,
    selected: Option<Seq<char>>,
    clip: Option<Seq<char>>,
)
    requires
        st.plan(action, selected, clip).copy is Some,
    ensures
        action is Copy || action is Cut,
        st.plan(action, selected, clip).copy == selected,
{
}

/// True of a command that changes the buffer.
pub open spec fn edits(cmd: EditorCmdModel) -> bool {
    !(cmd is Nothing || cmd is Navigate)
}

/// Whatever changes the buffer can be undone: after an action other than undo
/// and redo that changes the buffer, the history has an entry more, which is
/// the buffer as it was, or the action went on with a run of typing. An action
/// that changes nothing leaves the history as it was.
pub proof fn law_edits_can_be_undone(
    st: InputModel,
    action: KeyAction,
    raw: SnapshotModel,
    selected: Option<Seq<char>>,
    clip: Option<Seq<char>>,
)
    requires
        st.wf(),
        !(action is Undo) && !(action is Redo),
    ensures
        ({
            let after = st.acted(action, raw, selected, clip);
            if edits(st.plan(action, selected, clip).cmd) {
                ||| after.undo.len() > 0 && after.undo.last() == raw && after.redo.len() == 0
                ||| action is Insert && st.coalescing && after == st
            } else {
                &&& after.undo == st.undo
                &&& after.redo == st.redo
                &&& !after.coalescing
            }
        }),
        !(action is Insert) && edits(st.plan(action, selected, clip).cmd) ==> st.acted(
            action,
            raw,
            selected,
            clip,
        ).undo.last() == raw && !st.acted(action, raw, selected, clip).coalescing,
        st.plan(action, selected, clip).acted,
{
}

/// The actions that only move the caret or the selection.
pub open spec fn motion(action: KeyAction) -> bool {
    match action {
        KeyAction::MoveLeft
        | KeyAction::MoveRight
        | KeyAction::MoveUp
        | KeyAction::MoveDown
        | KeyAction::MoveWordLeft
        | KeyAction::MoveWordRight
        | KeyAction::MoveLineStart
        | KeyAction::MoveLineEnd
        | KeyAction::MoveTextStart
        | KeyAction::MoveTextEnd
        | KeyAction::SelectLeft
        | KeyAction::SelectRight
        | KeyAction::SelectUp
        | KeyAction::SelectDown
        | KeyAction::SelectWordLeft
        | KeyAction::SelectWordRight
        | KeyAction::SelectLineStart
        | KeyAction::SelectLineEnd
        | KeyAction::SelectTextStart
        | KeyAction::SelectTextEnd
        | KeyAction::SelectAll => true,
        KeyAction::MoveTo(_, _) => true,
        KeyAction::ExtendTo(_, _) => true,
        KeyAction::SelectWordAt(_, _) => true,
        _ => false,
    }
}

/// Motions ask the editor to run the motion and nothing else, and end a run of
/// typing.
pub proof fn law_motions_are_run(
    st: InputModel,
    action: KeyAction,
    raw: SnapshotModel,
    selected: Option<Seq<char>>,
    clip: Option<Seq<char>>,
)
    ensures
        motion(action) <==> st.plan(action, selected, clip).cmd is Navigate,
        motion(action) ==> st.plan(action, selected, clip).copy is None && !st.acted(
            action,
            raw,
            selected,
            clip,
        ).coalescing,
{
}

/// Erasing actions ask the editor for just what they name.
pub proof fn law_erasures_are_run(
    st: InputModel,
    selected: Option<Seq<char>>,
    clip: Option<Seq<char>>,
)
    ensures
        st.plan(KeyAction::Backspace, selected, clip).cmd is Backspace,
        st.plan(KeyAction::Delete, selected, clip).cmd is Delete,
        st.plan(KeyAction::BackspaceWord, selected, clip).cmd is BackspaceWord,
        st.plan(KeyAction::DeleteWord, selected, clip).cmd is DeleteWord,
{
}

/// An undo right after an edit asks for the buffer as it was before the edit,
/// and a redo right after that for the buffer as the edit left it. Without
/// anything to undo or redo nothing is asked for, and nothing changes.
pub proof fn law_undo_and_redo_go_back_and_forth(
    st: InputModel,
    action: KeyAction,
    before: SnapshotModel,
    after: SnapshotModel,
    selected: Option<Seq<char>>,
    clip: Option<Seq<char>>,
)
    requires
        st.wf(),
        !(action is Undo) && !(action is Redo),
        edits(st.plan(action, selected, clip).cmd),
        !(action is Insert && st.coalescing),
        before.anchor <= encode_utf8(before.text).len(),
        before.focus <= encode_utf8(before.text).len(),
        after.anchor <= encode_utf8(after.text).len(),
        after.focus <= encode_utf8(after.text).len(),
    ensures
        ({
            let edited = st.acted(action, before, selected, clip);
            let undone = edited.acted(KeyAction::Undo, after, selected, clip);
            &&& edited.plan(KeyAction::Undo, selected, clip).cmd == EditorCmdModel::Restore(before)
            &&& undone.plan(KeyAction::Redo, selected, clip).cmd == EditorCmdModel::Restore(after)
            &&& edited.plan(KeyAction::Redo, selected, clip) == PlanModel::idle()
        }),
        st.undo.len() == 0 ==> st.plan(KeyAction::Undo, selected, clip).cmd is Nothing && !st.plan(
            KeyAction::Undo,
            selected,
            clip,
        ).acted && st.acted(KeyAction::Undo, after, selected, clip) == st,
        st.redo.len() == 0 ==> st.plan(KeyAction::Redo, selected, clip).cmd is Nothing && !st.plan(
            KeyAction::Redo,
            selected,
            clip,
        ).acted && st.acted(KeyAction::Redo, after, selected, clip) == st,
{
    let edited = st.acted(action, before, selected, clip);
    let undone = edited.acted(KeyAction::Undo, after, selected, clip);
    assert(edited.undo.last() == before);
    assert(undone.redo.last() == after);
    assert(before.clamped() =~= before);
    assert(after.clamped() =~= after);
}

/// What is restored is the text of the entry, with its selection held inside
/// that text.
pub proof fn law_restored_selection_is_inside(s: SnapshotModel)
    ensures
        s.clamped().text == s.text,
        s.clamped().anchor <= encode_utf8(s.text).len(),
        s.clamped().focus <= encode_utf8(s.text).len(),
        s.anchor <= encode_utf8(s.text).len() ==> s.clamped().anchor == s.anchor,
        s.focus <= encode_utf8(s.text).len() ==> s.clamped().focus == s.focus,
        s.anchor > encode_utf8(s.text).len() ==> s.clamped().anchor == encode_utf8(s.text).len(),
        s.focus > encode_utf8(s.text).len() ==> s.clamped().focus == encode_utf8(s.text).len(),
{
}

/// A full history drops its oldest entry, and no other.
pub proof fn law_full_history_drops_the_oldest(st: InputModel, raw: SnapshotModel)
    requires
        st.wf(),
        st.undo.len() == 128,
    ensures
        st.recorded(raw, false).undo.len() == 128,
        st.recorded(raw, false).undo.last() == raw,
        forall|i: int|
            0 <= i < 127 ==> #[trigger] st.recorded(raw, false).undo[i] == st.undo[i + 1],
{
}

/// An input takes the configuration that it is given; the history of one that
/// was there stays. Other inputs are left alone.
pub proof fn law_configuration_arrives(
    m: InputsModel,
    id: u32,
    font_size: Scalar,
    color: u32,
    placeholder: Seq<char>,
    multiline: bool,
)
    ensures
        ({
            let n = m.configured(id, font_size, color, placeholder, multiline);
            let st = n.inputs[id];
            &&& n.inputs.dom().contains(id)
            &&& !font_size.nan() ==> st.font_size.equals(font_size)
            &&& font_size.nan() ==> st.font_size == font_size
            &&& st.color == color
            &&& st.placeholder == placeholder
            &&& st.multiline == multiline
            &&& m.inputs.dom().contains(id) ==> st.undo == m.inputs[id].undo && st.redo
                == m.inputs[id].redo && st.coalescing == m.inputs[id].coalescing
                && st.selection_color == m.inputs[id].selection_color
            &&& !m.inputs.dom().contains(id) ==> st.undo.len() == 0 && st.redo.len() == 0
                && st.selection_color == 0x3584_E47A && !st.coalescing
            &&& n.notified == m.notified
            &&& forall|other: u32|
                other != id ==> #[trigger] n.inputs.dom().contains(other)
                    == m.inputs.dom().contains(other) && n.inputs[other] == m.inputs[other]
        }),
{
}

/// An action on one input leaves the others alone, and one on an input that is
/// not there does nothing.
pub proof fn law_actions_touch_one_input(
    m: InputsModel,
    id: u32,
    other: u32,
    action: KeyAction,
    raw: SnapshotModel,
    selected: Option<Seq<char>>,
    clip: Option<Seq<char>>,
)
    requires
        other != id,
    ensures
        m.acted(id, action, raw, selected, clip).inputs.dom().contains(other)
            == m.inputs.dom().contains(other),
        m.acted(id, action, raw, selected, clip).inputs[other] == m.inputs[other],
        !m.inputs.dom().contains(id) ==> m.acted(id, action, raw, selected, clip) == m && m.plan(
            id,
            action,
            selected,
            clip,
        ).cmd is Nothing && !m.plan(id, action, selected, clip).acted,
        m.inputs.dom().contains(id) ==> m.acted(id, action, raw, selected, clip).inputs[id]
            == m.inputs[id].acted(action, raw, selected, clip),
{
}

/// A change is owed where the buffer is at another generation than the one
/// last reported, and reporting it settles that.
pub proof fn law_changes_are_owed(m: InputsModel, id: u32, generation: u64, next: u64)
    requires
        m.inputs.dom().contains(id),
    ensures
        !m.notified.dom().contains(id) ==> m.owes_change(id, generation),
        m.owes_change(id, generation) && next != generation ==> m.reported(
            id,
            generation,
        ).owes_change(id, next),
        m.reported(id, generation).notified[id] == generation,
        m.reported(id, generation).inputs == m.inputs,
        !m.without(id).owes_change(id, generation),
{
}

/// What an input shows: selection and caret while it has the focus, and its
/// placeholder, in its color at half the alpha, while it holds no text.
pub proof fn law_what_an_input_shows(st: InputModel, focused: bool, empty: bool)
    ensures
        ({
            let p = input_paint_of(st, focused, empty);
            &&& p.selection is Some <==> focused
            &&& p.caret is Some <==> focused
            &&& focused ==> p.selection == Some(st.selection_color) && p.caret == Some(st.color)
            &&& p.placeholder is Some <==> empty && st.placeholder.len() > 0
            &&& p.placeholder matches Some(c) ==> c / 256 == st.color / 256 && c as int % 256 == (
            st.color as int % 256) / 2
            &&& p.font_size == st.font_size
        }),
{
}

/// A history keeps up to 128 entries: below that, what is recorded is added
/// behind the others, and what was undone is gone.
pub proof fn law_history_keeps_what_fits(st: InputModel, raw: SnapshotModel)
    requires
        st.undo.len() < 128,
    ensures
        st.recorded(raw, false).undo == st.undo.push(raw),
        st.recorded(raw, false).redo.len() == 0,
        !st.recorded(raw, false).coalescing,
        !st.coalescing ==> st.recorded(raw, true).undo == st.undo.push(raw) && st.recorded(
            raw,
            true,
        ).coalescing,
        st.recorded(raw, false) == (InputModel {
            undo: st.recorded(raw, false).undo,
            redo: st.recorded(raw, false).redo,
            coalescing: false,
            ..st
        }),
{
}

/// A text that comes from outside is recorded as an edit of its own; other
/// inputs are left alone, and where there is no input nothing happens.
pub proof fn law_replacements_are_recorded(m: InputsModel, id: u32, raw: SnapshotModel, other: u32)
    requires
        other != id,
    ensures
        !m.inputs.dom().contains(id) ==> m.recorded(id, raw) == m,
        m.inputs.dom().contains(id) && m.inputs[id].undo.len() < 128 ==> m.recorded(
            id,
            raw,
        ).inputs[id].undo == m.inputs[id].undo.push(raw) && !m.recorded(
            id,
            raw,
        ).inputs[id].coalescing,
        m.recorded(id, raw).inputs.dom().contains(other) == m.inputs.dom().contains(other),
        m.recorded(id, raw).inputs[other] == m.inputs[other],
        m.recorded(id, raw).notified == m.notified,
{
}

/// A forgotten input is gone with what was reported of it; the others stay.
pub proof fn law_forgotten_inputs_are_gone(m: InputsModel, id: u32, other: u32)
    requires
        other != id,
    ensures
        !m.without(id).inputs.dom().contains(id) && !m.without(id).notified.dom().contains(id),
        m.without(id).inputs.dom().contains(other) == m.inputs.dom().contains(other),
        m.without(id).inputs[other] == m.inputs[other],
        m.without(id).notified.dom().contains(other) == m.notified.dom().contains(other),
        m.without(id).notified[other] == m.notified[other],
        !InputsModel::empty().inputs.dom().contains(id),
{
}

} // verus!
