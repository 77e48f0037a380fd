//! What platform events do.

use super::super::keys::key_action;
use super::super::model::{
    addressed, first_focusable, is_input, lacking, listeners, listens, next_stop, packed, point_of,
    takes_focus, Facts, Job, UiModel,
};
use super::super::hit::{lemma_target_alive, Placed, Sight};
use super::{point_at, Ui};
use crate::events::{mask, mask_for, out_kind, Button, Event, Key, KeyInput, Mods};
use crate::events::{UiEvent, UiEventModel};
use crate::geom::Point;
use crate::host::model::lemma_position_is;
use crate::host::proofs::lemma_congruent;
use crate::host::NodeId;
use crate::input::KeyAction;
use crate::scalar::Scalar;
use vstd::prelude::*;

verus! {

fn bit_of(on: bool) -> (r: u32)
    ensures
        r == super::super::model::bit(on),
        r <= 1,
{
    if on {
        1
    } else {
        0
    }
}

/// Modifiers and button in one word.
pub fn pack(button: Button, mods: Mods) -> (r: u32)
    ensures
        r == packed(button, mods),
{
    let code: u32 = match button {
        Button::Primary => 1,
        Button::Secondary => 2,
        Button::Middle => 3,
        Button::Other(b) => b as u32,
    };
    bit_of(mods.shift) + 2 * bit_of(mods.ctrl) + 4 * bit_of(mods.alt) + 8 * bit_of(mods.meta) + 256
        * code
}

fn same_node(a: Option<NodeId>, b: Option<NodeId>) -> (r: bool)
    ensures
        r == (a == b),
{
    match (a, b) {
        (Some(x), Some(y)) => x.0 == y.0,
        (None, None) => true,
        _ => false,
    }
}

fn names(list: &Vec<NodeId>, x: NodeId) -> (r: bool)
    ensures
        r == list@.contains(x),
{
    let mut i: usize = 0;
    while i < list.len()
        invariant
            i <= list@.len(),
            forall|k: int| 0 <= k < i ==> list@[k] != x,
        decreases list@.len() - i,
    {
        if list[i].0 == x.0 {
            assert(list@[i as int] == x);
            return true;
        }
        i = i + 1;
    }
    false
}

/// The nodes of `list` that `other` lacks.
fn subtract(list: &Vec<NodeId>, other: &Vec<NodeId>) -> (out: Vec<NodeId>)
    ensures
        out@ == lacking(list@, other@),
{
    let mut out: Vec<NodeId> = Vec::new();
    let mut i: usize = 0;
    proof {
        assert(list@.take(0) =~= Seq::empty());
        assert(lacking(list@.take(0), other@) =~= Seq::empty());
    }
    while i < list.len()
        invariant
            i <= list@.len(),
            out@ == lacking(list@.take(i as int), other@),
        decreases list@.len() - i,
    {
        proof {
            assert(list@.take(i + 1).drop_last() =~= list@.take(i as int));
            assert(list@.take(i + 1).last() == list@[i as int]);
        }
        if !names(other, list[i]) {
            out.push(list[i]);
        }
        proof {
            assert(out@ =~= lacking(list@.take(i + 1), other@));
        }
        i = i + 1;
    }
    proof {
        assert(list@.take(i as int) =~= list@);
    }
    out
}

impl Ui {
    fn path_from(&self, id: Option<NodeId>) -> (r: Vec<NodeId>)
        requires
            self.sound(),
        ensures
            r@ == self.model().path_from(id),
    {
        match id {
            Some(h) => self.host.path_to(h),
            None => Vec::new(),
        }
    }

    /// Sends a pointer event up from `hit`.
    fn emit_pointer(
        &mut self,
        hit: NodeId,
        kind: u8,
        x: Scalar,
        y: Scalar,
        key: u32,
        offset: &Vec<Point>,
    )
        requires
            old(self).sound(),
        ensures
            final(self).sound(),
            final(self).model() == old(self).model().pointed(hit, kind, x, y, key, offset@),
    {
        let ghost start = self.model();
        let path = self.host.path_to(hit);
        let heard = self.listeners(&path, mask_for(kind));
        let ghost all = Seq::new(
            heard@.len(),
            |i: int|
                UiEventModel {
                    x,
                    y,
                    a: point_of(offset@, heard@[i]).x,
                    b: point_of(offset@, heard@[i]).y,
                    key,
                    ..UiEventModel::bare(kind, heard@[i].0)
                },
        );
        let mut i: usize = 0;
        proof {
            assert(start.with_events(all.take(0)) =~= start);
        }
        while i < heard.len()
            invariant
                i <= heard@.len(),
                self.sound(),
                all.len() == heard@.len(),
                forall|k: int|
                    0 <= k < heard@.len() ==> #[trigger] all[k] == (UiEventModel {
                        x,
                        y,
                        a: point_of(offset@, heard@[k]).x,
                        b: point_of(offset@, heard@[k]).y,
                        key,
                        ..UiEventModel::bare(kind, heard@[k].0)
                    }),
                self.model() == start.with_events(all.take(i as int)),
            decreases heard@.len() - i,
        {
            let id: NodeId = heard[i];
            let at: Point = point_at(offset, id);
            let mut e: UiEvent = UiEvent::new(kind, id.0);
            e.x = x;
            e.y = y;
            e.a = at.x;
            e.b = at.y;
            e.key = key;
            self.push_event(e);
            proof {
                assert(e@ =~= all[i as int]);
                assert(all.take(i + 1) =~= all.take(i as int).push(all[i as int]));
                assert(self.model() =~= start.with_events(all.take(i + 1)));
            }
            i = i + 1;
        }
        proof {
            assert(all.take(i as int) =~= all);
            assert(all =~= Seq::new(
                heard@.len(),
                |i: int|
                    UiEventModel {
                        x,
                        y,
                        a: point_of(offset@, heard@[i]).x,
                        b: point_of(offset@, heard@[i]).y,
                        key,
                        ..UiEventModel::bare(kind, heard@[i].0)
                    },
            ));
        }
    }

    /// The pointer is now over `hit`.
    fn hover_over(&mut self, hit: Option<NodeId>, x: Scalar, y: Scalar)
        requires
            old(self).sound(),
        ensures
            final(self).sound(),
            final(self).model() == old(self).model().hovered(hit, x, y),
    {
        let ghost start = self.model();
        if same_node(hit, self.hover) {
            return ;
        }
        let before = self.path_from(self.hover);
        let after = self.path_from(hit);
        let left = subtract(&before, &after);
        let entered = subtract(&after, &before);
        let left_by = self.listeners(&left, mask::POINTER_ENTER_LEAVE);
        let entered_by = self.listeners(&entered, mask::POINTER_ENTER_LEAVE);
        let mut leave: UiEvent = UiEvent::new(out_kind::POINTER_LEAVE, 0);
        leave.x = x;
        leave.y = y;
        let mut enter: UiEvent = UiEvent::new(out_kind::POINTER_ENTER, 0);
        enter.x = x;
        enter.y = y;
        self.address(&left_by, &leave);
        self.address(&entered_by, &enter);
        let ghost told = self.model();
        self.hover = hit;
        proof {
            let l = addressed(left_by@, leave@);
            let e = addressed(entered_by@, enter@);
            assert(told.events =~= start.events + (l + e));
            assert(told =~= start.with_events(l + e));
            assert(self.model() =~= (UiModel { hover: hit, ..told }));
        }
    }

    fn pointer_move(&mut self, x: Scalar, y: Scalar, facts: &Facts)
        requires
            old(self).sound(),
        ensures
            final(self).sound(),
            final(self).model() == old(self).model().moved(x, y, *facts),
    {
        // Drag capture: a press inside an input extends its selection.
        if let Some(pid) = self.pressed {
            if self.is_input(pid) {
                let at: Point = point_at(&facts.content, pid);
                self.push_job(
                    Job::Act { id: pid, action: KeyAction::ExtendTo(at.x, at.y), notify: false },
                );
                self.repaint();
            }
        }
        let hit = self.hit_test(x, y, &facts.placed);
        self.hover_over(hit, x, y);
        // A pressed node keeps receiving moves outside its bounds.
        let target: Option<NodeId> = if self.pressed.is_some() {
            self.pressed
        } else {
            hit
        };
        if let Some(id) = target {
            let key: u32 = pack(Button::Primary, Mods::default());
            self.emit_pointer(id, out_kind::POINTER_MOVE, x, y, key, &facts.offset);
        }
    }

    /// The first node of a path that takes focus.
    fn focusable_on(&self, path: &Vec<NodeId>) -> (r: Option<NodeId>)
        requires
            self.sound(),
        ensures
            r == first_focusable(self.model().host, path@),
    {
        let ghost m = self.model().host;
        let mut i: usize = 0;
        proof {
            assert(path@.skip(0) =~= path@);
        }
        while i < path.len()
            invariant
                i <= path@.len(),
                self.sound(),
                m == self.model().host,
                first_focusable(m, path@) == first_focusable(m, path@.skip(i as int)),
            decreases path@.len() - i,
        {
            proof {
                assert(path@.skip(i as int)[0] == path@[i as int]);
                assert(path@.skip(i as int).drop_first() =~= path@.skip(i + 1));
            }
            if self.takes_focus(path[i]) {
                return Some(path[i]);
            }
            i = i + 1;
        }
        None
    }

    /// Caret or selection for a primary press on an input.
    fn place_caret(&mut self, id: NodeId, mods: Mods, facts: &Facts)
        requires
            old(self).sound(),
        ensures
            final(self).sound(),
            final(self).model() == old(self).model().caret_placed(id, mods, *facts),
    {
        let at: Point = point_at(&facts.content, id);
        let action: KeyAction = if mods.shift {
            KeyAction::ExtendTo(at.x, at.y)
        } else if same_node(self.last_click, Some(id)) && facts.near {
            KeyAction::SelectWordAt(at.x, at.y)
        } else {
            KeyAction::MoveTo(at.x, at.y)
        };
        self.push_job(Job::Act { id, action, notify: false });
        self.repaint();
        let ghost shown = self.model();
        self.last_click = Some(id);
        proof {
            assert(self.model() =~= (UiModel { last_click: Some(id), ..shown }));
        }
    }

    fn pointer_down(&mut self, x: Scalar, y: Scalar, button: Button, mods: Mods, facts: &Facts)
        requires
            old(self).sound(),
        ensures
            final(self).sound(),
            final(self).model() == old(self).model().pressed_at(x, y, button, mods, *facts),
    {
        let ghost start = self.model();
        let hit = self.hit_test(x, y, &facts.placed);
        self.pressed = hit;
        proof {
            assert(self.model() =~= (UiModel { pressed: hit, ..start }));
        }
        // The nearest focusable ancestor takes the focus; a press on
        // anything else blurs.
        let path = self.path_from(hit);
        let goal = self.focusable_on(&path);
        self.set_focus(goal);
        if let Some(id) = hit {
            if self.is_input(id) && button == Button::Primary {
                self.place_caret(id, mods, facts);
            }
            self.emit_pointer(id, out_kind::POINTER_DOWN, x, y, pack(button, mods), &facts.offset);
        }
    }

    fn pointer_up(&mut self, x: Scalar, y: Scalar, button: Button, facts: &Facts)
        requires
            old(self).sound(),
        ensures
            final(self).sound(),
            final(self).model() == old(self).model().released_at(x, y, button, *facts),
    {
        let ghost start = self.model();
        // While a button was held the press target owns the release.
        let target: Option<NodeId> = if self.pressed.is_some() {
            self.pressed
        } else {
            self.hit_test(x, y, &facts.placed)
        };
        self.pressed = None;
        proof {
            assert(self.model() =~= (UiModel { pressed: None, ..start }));
        }
        if let Some(id) = target {
            let key: u32 = pack(button, Mods::default());
            self.emit_pointer(id, out_kind::POINTER_UP, x, y, key, &facts.offset);
        }
    }

    fn wheel(&mut self, x: Scalar, y: Scalar, dx: Scalar, dy: Scalar, facts: &Facts)
        requires
            old(self).sound(),
        ensures
            final(self).sound(),
            final(self).model() == old(self).model().wheeled(x, y, dx, dy, *facts),
    {
        let hit: NodeId = match self.hit_test(x, y, &facts.placed) {
            Some(hit) => hit,
            None => {
                return ;
            },
        };
        if let Some(id) = self.wheel_target(hit) {
            let to: Point = point_at(&facts.scrolled, id);
            let moved = self.scroll_to(id, to.x, to.y);
            if let Some(off) = moved {
                if self.listens(id, mask::SCROLL) {
                    let mut e: UiEvent = UiEvent::new(out_kind::SCROLL, id.0);
                    e.a = off.x;
                    e.b = off.y;
                    self.push_event(e);
                }
            }
        }
        let path = self.host.path_to(hit);
        let mut e: UiEvent = UiEvent::new(out_kind::WHEEL, hit.0);
        e.x = x;
        e.y = y;
        e.a = dx;
        e.b = dy;
        self.emit_path(&path, &e);
    }

    /// Tab traversal.
    fn tab(&mut self, k: &KeyInput)
        requires
            old(self).sound(),
        ensures
            final(self).sound(),
            final(self).model() == old(self).model().tabbed(*k),
    {
        if k.key != Key::Tab || k.mods.ctrl || k.mods.meta {
            return ;
        }
        let ring = self.focusables();
        if ring.len() == 0 {
            return ;
        }
        let next: NodeId = match self.focus {
            None => ring[0],
            Some(f) => {
                let mut i: usize = 0;
                while i < ring.len() && ring[i].0 != f.0
                    invariant
                        i <= ring@.len(),
                        forall|j: int| 0 <= j < i ==> ring@[j] != f,
                    decreases ring@.len() - i,
                {
                    i = i + 1;
                }
                proof {
                    lemma_position_is(ring@, f, i as int);
                }
                if i == ring.len() {
                    ring[0]
                } else if k.mods.shift {
                    if i == 0 {
                        ring[ring.len() - 1]
                    } else {
                        ring[i - 1]
                    }
                } else if i + 1 == ring.len() {
                    ring[0]
                } else {
                    ring[i + 1]
                }
            },
        };
        self.set_focus(Some(next));
    }

    /// Sends a key to the focused input.
    fn type_into(&mut self, k: &KeyInput)
        requires
            old(self).sound(),
        ensures
            final(self).sound(),
            final(self).model() == old(self).model().typed_into(*k),
    {
        let id: NodeId = match self.focus {
            Some(id) => id,
            None => {
                return ;
            },
        };
        if !self.is_input(id) {
            return ;
        }
        let multiline: bool = self.inputs.is_multiline(id.0);
        if k.key == Key::Escape {
            self.set_focus(None);
        }
        match key_action(k, multiline) {
            None => {},
            Some(KeyAction::Submit) => self.push_job(Job::Submit { id }),
            Some(action) => {
                self.push_job(Job::Act { id, action, notify: true });
                self.repaint();
            },
        }
    }

    /// The event of a key.
    fn key_event(kind: u8, k: &KeyInput) -> (e: UiEvent)
        ensures
            e@ == UiModel::key_event(kind, *k),
    {
        let mut e: UiEvent = UiEvent::new(kind, 0);
        e.key = k.key.code();
        if let Some(c) = &k.char {
            e.text = c.clone();
        }
        e
    }

    /// Tells listeners of a key press: the path of the focused node, or
    /// every key listener where nothing is focused.
    fn hear_key(&mut self, k: &KeyInput)
        requires
            old(self).sound(),
        ensures
            final(self).sound(),
            final(self).model() == old(self).model().key_heard(*k),
    {
        let e = Ui::key_event(out_kind::KEY_DOWN, k);
        match self.focus {
            Some(f) => {
                let path = self.host.path_to(f);
                self.emit_path(&path, &e);
            },
            None => {
                let list = self.host.document_order(false);
                self.emit_path(&list, &e);
            },
        }
    }

    /// Handles one platform event: scrolling, focus, and events for
    /// listeners. Work on editors is queued (`take_jobs`); `finish` follows
    /// once it is done.
    pub fn dispatch(&mut self, ev: &Event, facts: &Facts)
        requires
            old(self).wf(),
        ensures
            final(self).wf(),
            final(self).model() == old(self).model().dispatched(*ev, *facts),
    {
        proof {
            law_events_aim_at_live_nodes(self.model(), *ev, *facts);
        }
        match ev {
            Event::PointerMove { x, y } => self.pointer_move(*x, *y, facts),
            Event::PointerDown { x, y, button, mods } => self.pointer_down(
                *x,
                *y,
                *button,
                *mods,
                facts,
            ),
            Event::PointerUp { x, y, button } => self.pointer_up(*x, *y, *button, facts),
            Event::Wheel { x, y, dx, dy } => self.wheel(*x, *y, *dx, *dy, facts),
            Event::KeyDown(k) => {
                self.tab(k);
                self.type_into(k);
            },
            Event::KeyUp(k) => {
                if let Some(f) = self.focus {
                    let path = self.host.path_to(f);
                    let e = Ui::key_event(out_kind::KEY_UP, k);
                    self.emit_path(&path, &e);
                }
            },
            Event::ImePreedit { text, cursor } => {
                if let Some(id) = self.focus {
                    self.push_job(Job::SetCompose { id, text: text.clone(), cursor: *cursor });
                    self.repaint();
                }
            },
            Event::ImeCommit(text) => {
                if let Some(id) = self.focus {
                    self.push_job(Job::Commit { id, text: text.clone() });
                    self.repaint();
                }
            },
            Event::ImeDone => {
                if let Some(id) = self.focus {
                    self.push_job(Job::FinishCompose { id });
                }
            },
            Event::Focus(gained) => {
                if !*gained {
                    let ghost start = self.model();
                    self.hover = None;
                    self.pressed = None;
                    proof {
                        assert(self.model() =~= (UiModel { hover: None, pressed: None, ..start }));
                    }
                }
            },
        }
    }

    /// What is left of an event once its jobs are done: a key press is heard
    /// after the change that it made.
    pub fn finish(&mut self, ev: &Event)
        requires
            old(self).wf(),
        ensures
            final(self).wf(),
            final(self).model() == old(self).model().finished(*ev),
    {
        if let Event::KeyDown(k) = ev {
            self.hear_key(k);
        }
    }

    /// Reports a change of an input's buffer that was not reported.
    fn emit_change(&mut self, id: NodeId, generation: u64, text: String)
        requires
            old(self).sound(),
        ensures
            final(self).sound(),
            final(self).model() == old(self).model().changed(id, generation, text@),
    {
        let ghost start = self.model();
        let changed = self.inputs.take_change(id.0, generation, text);
        match changed {
            Some(text) => {
                self.a11y_stale = true;
                proof {
                    assert(self.model() =~= (UiModel {
                        inputs: start.inputs.reported(id.0, generation),
                        a11y_stale: true,
                        ..start
                    }));
                }
                if self.listens(id, mask::INPUT) {
                    let mut e: UiEvent = UiEvent::new(out_kind::CHANGE, id.0);
                    e.text = text;
                    self.push_event(e);
                }
            },
            None => {
                proof {
                    assert(self.model() =~= start);
                }
            },
        }
    }

    /// Notes that a job is done: the editor of its node is at `generation`,
    /// with `text` as its committed text.
    pub fn settle(&mut self, job: &Job, generation: u64, text: String)
        requires
            old(self).wf(),
        ensures
            final(self).wf(),
            final(self).model() == old(self).model().settled(job@, generation, text@),
    {
        match job {
            Job::Commit { id, .. } => self.emit_change(*id, generation, text),
            Job::SetText { id, notify, .. } => {
                if *notify {
                    self.emit_change(*id, generation, text);
                }
            },
            Job::Act { id, notify, .. } => {
                if *notify {
                    self.emit_change(*id, generation, text);
                }
            },
            Job::Submit { id } => {
                let mut e: UiEvent = UiEvent::new(out_kind::SUBMIT, id.0);
                e.text = text;
                self.push_event(e);
            },
            _ => {},
        }
    }
}

/// A node that takes a hit is alive.
proof fn lemma_hit_alive(u: UiModel, placed: Seq<Placed>, x: Scalar, y: Scalar)
    requires
        u.host.wf(),
    ensures
        u.hit(placed, x, y) matches Some(id) ==> u.host.alive(id),
{
    let s = Sight { host: u.host, layouts: u.layouts, placed, x, y };
    lemma_target_alive(s, u.host.roots.len());
}

/// Moving the focus leaves it on a live node, or nowhere.
pub(super) proof fn lemma_focused_aimed(u: UiModel, next: Option<NodeId>)
    requires
        u.aimed(),
    ensures
        u.focused(next).aimed(),
        forall|id: NodeId| u.host.alive(id) == u.focused(next).host.alive(id),
{
}

/// An event leaves the focus, the pointer and the capture on live nodes, or
/// nowhere.
pub proof fn law_events_aim_at_live_nodes(u: UiModel, ev: Event, f: Facts)
    requires
        u.host.wf(),
        u.aimed(),
    ensures
        u.dispatched(ev, f).aimed(),
        u.finished(ev).aimed(),
{
    match ev {
        Event::PointerMove { x, y } => {
            lemma_hit_alive(u, f.placed@, x, y);
            lemma_congruent(u.host, u.host.with_paint(true));
            lemma_hit_alive(u.repainting(), f.placed@, x, y);
            let a = match u.pressed {
                Some(pid) => if is_input(u.host, pid) {
                    u.repainting()
                } else {
                    u
                },
                None => u,
            };
            assert(a.host.alive(NodeId(0)) == u.host.alive(NodeId(0)));
        },
        Event::PointerDown { x, y, button, mods } => {
            lemma_hit_alive(u, f.placed@, x, y);
            let hit = u.hit(f.placed@, x, y);
            let a = UiModel { pressed: hit, ..u };
            lemma_focused_aimed(a, first_focusable(u.host, u.path_from(hit)));
        },
        Event::KeyDown(k) => {
            if u.ring().len() > 0 {
                lemma_focused_aimed(u, Some(next_stop(u.ring(), u.focus, k.mods.shift)));
            }
            let a = u.tabbed(k);
            lemma_focused_aimed(a, None);
        },
        _ => {},
    }
}

} // verus!
