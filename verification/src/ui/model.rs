//! Mathematical model of the interaction core: what each commit, command
//! and event does.

use super::hit::{Placed, Sight};
use super::keys::{meaning, typed};
use crate::custom::CustomModel;
use crate::events::out::mask_of;
use crate::events::{mask, out_kind, Button, Event, Key, KeyInput, Mods, UiEventModel};
use crate::geom::Point;
use crate::host::model::HostModel;
use crate::host::{NodeFlags, NodeId, NodeKind};
use crate::input::{Configured, InputsModel, KeyAction};
use crate::layout::LayoutsModel;
use crate::scalar::Scalar;
use crate::style::{Overflow, Style};
use crate::wire::{CommandModel, OpModel};
use vstd::prelude::*;

verus! {

/// What an event needs to know that takes arithmetic on coordinates: the
/// caller works it out for the event's position. Tables are by node id.
pub struct Facts {
    /// Where each node lies.
    pub placed: Vec<Placed>,
    /// The pointer relative to each node's border box.
    pub offset: Vec<Point>,
    /// The pointer relative to each node's content box.
    pub content: Vec<Point>,
    /// Each node's scroll offset plus the wheel delta.
    pub scrolled: Vec<Point>,
    /// The press is near enough to the last one, in time and place, to make
    /// a double click.
    pub near: bool,
}

/// The point that a table has for a node; the origin where it has none.
pub open spec fn point_of(table: Seq<Point>, id: NodeId) -> Point {
    if id.0 < table.len() {
        table[id.0 as int]
    } else {
        Point::zero()
    }
}

/// Work on an editor, to be done in the order in which it was queued.
#[derive(Debug)]
pub enum Job {
    /// Drop the editor and the text layout of a slot.
    Forget { id: NodeId },
    /// The editor follows a new configuration.
    Configure { id: NodeId, how: Configured },
    FinishCompose { id: NodeId },
    SetCompose { id: NodeId, text: String, cursor: Option<(usize, usize)> },
    /// Commit composed text, and report the change.
    Commit { id: NodeId, text: String },
    /// Replace the buffer; with `notify`, report the change.
    SetText { id: NodeId, text: String, notify: bool },
    /// Perform an action; with `notify`, report the change.
    Act { id: NodeId, action: KeyAction, notify: bool },
    /// Report the buffer as submitted.
    Submit { id: NodeId },
}

pub enum JobModel {
    Forget { id: NodeId },
    Configure { id: NodeId, how: Configured },
    FinishCompose { id: NodeId },
    SetCompose { id: NodeId, text: Seq<char>, cursor: Option<(usize, usize)> },
    Commit { id: NodeId, text: Seq<char> },
    SetText { id: NodeId, text: Seq<char>, notify: bool },
    Act { id: NodeId, action: KeyAction, notify: bool },
    Submit { id: NodeId },
}

impl View for Job {
    type V = JobModel;

    open spec fn view(&self) -> JobModel {
        match *self {
            Job::Forget { id } => JobModel::Forget { id },
            Job::Configure { id, how } => JobModel::Configure { id, how },
            Job::FinishCompose { id } => JobModel::FinishCompose { id },
            Job::SetCompose { id, text, cursor } => JobModel::SetCompose {
                id,
                text: text@,
                cursor,
            },
            Job::Commit { id, text } => JobModel::Commit { id, text: text@ },
            Job::SetText { id, text, notify } => JobModel::SetText { id, text: text@, notify },
            Job::Act { id, action, notify } => JobModel::Act { id, action, notify },
            Job::Submit { id } => JobModel::Submit { id },
        }
    }
}

/// What the interaction core holds.
#[verifier::ext_equal]
pub struct UiModel {
    pub host: HostModel,
    pub layouts: LayoutsModel,
    pub inputs: InputsModel,
    /// Scroll offsets, by node id.
    pub scroll: Map<u32, Point>,
    /// Payloads of custom nodes, by node id.
    pub custom: Map<u32, CustomModel>,
    /// Accessibility names, by node id.
    pub labels: Map<u32, Seq<char>>,
    pub focus: Option<NodeId>,
    pub hover: Option<NodeId>,
    pub pressed: Option<NodeId>,
    /// Input of the last primary press.
    pub last_click: Option<NodeId>,
    /// Events for listeners, oldest first.
    pub events: Seq<UiEventModel>,
    /// Work on editors, oldest first.
    pub jobs: Seq<JobModel>,
    pub a11y_stale: bool,
    pub scale: Scalar,
    pub clear: u32,
    pub seq: u64,
}

/// Modifiers and button in one word: bits 0 to 3 shift, ctrl, alt, meta; the
/// button from bit 8 on.
pub open spec fn packed(button: Button, mods: Mods) -> u32 {
    let code: int = match button {
        Button::Primary => 1,
        Button::Secondary => 2,
        Button::Middle => 3,
        Button::Other(b) => b as int,
    };
    (bit(mods.shift) + 2 * bit(mods.ctrl) + 4 * bit(mods.alt) + 8 * bit(mods.meta) + 256
        * code) as u32
}

pub open spec fn bit(on: bool) -> int {
    if on {
        1
    } else {
        0
    }
}

/// The first of `path` that scrolls on the wanted axis; none where a node
/// before it is not live.
pub open spec fn first_scrolling(
    m: HostModel,
    l: LayoutsModel,
    path: Seq<NodeId>,
    vertical: bool,
) -> Option<NodeId>
    decreases path.len(),
{
    if path.len() == 0 || !m.alive(path[0]) {
        None
    } else {
        let o = l.style_of(m, path[0]).overflow;
        if (if vertical {
            o.y
        } else {
            o.x
        }) == Overflow::Scroll {
            Some(path[0])
        } else {
            first_scrolling(m, l, path.drop_first(), vertical)
        }
    }
}

/// The first of `path` that takes focus.
pub open spec fn first_focusable(m: HostModel, path: Seq<NodeId>) -> Option<NodeId>
    decreases path.len(),
{
    if path.len() == 0 {
        None
    } else if takes_focus(m, path[0]) {
        Some(path[0])
    } else {
        first_focusable(m, path.drop_first())
    }
}

pub open spec fn is_input(m: HostModel, id: NodeId) -> bool {
    m.alive(id) && m.header(id).kind_index() == NodeKind::INPUT
}

pub open spec fn takes_focus(m: HostModel, id: NodeId) -> bool {
    is_input(m, id) || m.props_of(id).focusable
}

pub open spec fn listens(m: HostModel, id: NodeId, bits: u32) -> bool {
    m.props_of(id).listeners & bits != 0
}

/// The nodes among `list` that listen, in order.
pub open spec fn listeners(m: HostModel, list: Seq<NodeId>, bits: u32) -> Seq<NodeId>
    decreases list.len(),
{
    if list.len() == 0 {
        Seq::empty()
    } else {
        listeners(m, list.drop_last(), bits) + (if listens(m, list.last(), bits) {
            seq![list.last()]
        } else {
            Seq::empty()
        })
    }
}

/// An event sent to each node of a list.
pub open spec fn addressed(list: Seq<NodeId>, e: UiEventModel) -> Seq<UiEventModel> {
    Seq::new(list.len(), |i: int| UiEventModel { node: list[i].0, ..e })
}

/// The nodes among `list` that `other` lacks, in order.
pub open spec fn lacking(list: Seq<NodeId>, other: Seq<NodeId>) -> Seq<NodeId>
    decreases list.len(),
{
    if list.len() == 0 {
        Seq::empty()
    } else {
        lacking(list.drop_last(), other) + (if other.contains(list.last()) {
            Seq::empty()
        } else {
            seq![list.last()]
        })
    }
}

/// The nodes among `list` that take focus, in order.
pub open spec fn focus_ring(m: HostModel, list: Seq<NodeId>) -> Seq<NodeId>
    decreases list.len(),
{
    if list.len() == 0 {
        Seq::empty()
    } else {
        focus_ring(m, list.drop_last()) + (if takes_focus(m, list.last()) {
            seq![list.last()]
        } else {
            Seq::empty()
        })
    }
}

/// The next stop in a ring: the first where the focus is not in the ring,
/// else the one after it, or before it when going back.
pub open spec fn next_stop(ring: Seq<NodeId>, focus: Option<NodeId>, back: bool) -> NodeId
    recommends
        ring.len() > 0,
{
    match focus {
        None => ring[0],
        Some(f) => {
            let i = crate::host::model::position(ring, f);
            if i >= ring.len() {
                ring[0]
            } else if back {
                ring[if i == 0 {
                    ring.len() - 1
                } else {
                    i - 1
                }]
            } else {
                ring[if i + 1 == ring.len() {
                    0
                } else {
                    i + 1
                }]
            }
        },
    }
}

impl UiModel {
    pub open spec fn fresh(scale: Scalar) -> UiModel {
        UiModel {
            host: HostModel::empty(),
            layouts: LayoutsModel::empty(),
            inputs: InputsModel::empty(),
            scroll: Map::empty(),
            custom: Map::empty(),
            labels: Map::empty(),
            focus: None,
            hover: None,
            pressed: None,
            last_click: None,
            events: Seq::empty(),
            jobs: Seq::empty(),
            a11y_stale: true,
            scale,
            clear: 0x1415_18FF,
            seq: 0,
        }
    }

    /// No dead node has the focus, the pointer or the capture.
    pub open spec fn aimed(self) -> bool {
        &&& self.focus matches Some(id) ==> self.host.alive(id)
        &&& self.hover matches Some(id) ==> self.host.alive(id)
        &&& self.pressed matches Some(id) ==> self.host.alive(id)
    }

    /// Each part keeps its own invariant.
    pub open spec fn sound(self) -> bool {
        &&& self.host.wf()
        &&& self.layouts.wf()
        &&& self.inputs.wf()
    }

    pub open spec fn with_event(self, e: UiEventModel) -> UiModel {
        UiModel { events: self.events.push(e), ..self }
    }

    pub open spec fn with_events(self, more: Seq<UiEventModel>) -> UiModel {
        UiModel { events: self.events + more, ..self }
    }

    pub open spec fn with_job(self, job: JobModel) -> UiModel {
        UiModel { jobs: self.jobs.push(job), ..self }
    }

    pub open spec fn repainting(self) -> UiModel {
        UiModel { host: self.host.with_paint(true), ..self }
    }

    pub open spec fn relayout(self, id: NodeId) -> UiModel {
        UiModel { host: self.host.marked(id, NodeFlags(NodeFlags::LAYOUT)), ..self }
    }

    pub open spec fn style_of(self, id: NodeId) -> Style {
        self.layouts.style_of(self.host, id)
    }

    pub open spec fn offset_of(self, id: NodeId) -> Point {
        if self.scroll.dom().contains(id.0) {
            self.scroll[id.0]
        } else {
            Point::zero()
        }
    }

    /// The events that wait were taken.
    pub open spec fn without_events(self) -> UiModel {
        UiModel { events: Seq::empty(), ..self }
    }

    /// The jobs that wait were taken.
    pub open spec fn without_jobs(self) -> UiModel {
        UiModel { jobs: Seq::empty(), ..self }
    }

    /// The semantic tree is about to be told anew.
    pub open spec fn with_fresh_a11y(self) -> UiModel {
        UiModel { a11y_stale: false, ..self }
    }

    /// An input has the focus, so that the platform composes text.
    pub open spec fn composing(self) -> bool {
        self.focus matches Some(id) && is_input(self.host, id)
    }

    /// Every solver cache is emptied, and a repaint is owed.
    pub open spec fn uncached(self) -> UiModel {
        UiModel {
            layouts: self.layouts.forgotten(self.host.nodes.len()),
            ..self.repainting()
        }
    }

    /// The deepest node at a point.
    pub open spec fn hit(self, placed: Seq<Placed>, x: Scalar, y: Scalar) -> Option<NodeId> {
        Sight { host: self.host, layouts: self.layouts, placed, x, y }.target()
    }

    // ------------------------------------------------------------- focus

    /// The focus leaves its node: a composition in an input is finished, and
    /// a listener hears of it.
    pub open spec fn blurred(self) -> UiModel {
        match self.focus {
            None => self,
            Some(old) => {
                let a = if is_input(self.host, old) {
                    self.with_job(JobModel::FinishCompose { id: old })
                } else {
                    self
                };
                if listens(self.host, old, mask::FOCUS) {
                    a.with_event(UiEventModel::bare(out_kind::BLUR, old.0))
                } else {
                    a
                }
            },
        }
    }

    /// The focus moves; a node that is not live leaves it nowhere.
    pub open spec fn focused(self, next: Option<NodeId>) -> UiModel {
        if self.focus == next {
            self
        } else {
            let to = match next {
                Some(id) => if self.host.alive(id) {
                    Some(id)
                } else {
                    None
                },
                None => None,
            };
            let a = UiModel { focus: to, ..self.blurred() };
            let b = match to {
                Some(id) => if listens(self.host, id, mask::FOCUS) {
                    a.with_event(UiEventModel::bare(out_kind::FOCUS, id.0))
                } else {
                    a
                },
                None => a,
            };
            UiModel { a11y_stale: true, ..b.repainting() }
        }
    }

    /// Focusable nodes in document order; what is hidden is left out with
    /// all that is below it.
    pub open spec fn ring(self) -> Seq<NodeId> {
        focus_ring(self.host, self.host.document(self.host.unhidden()))
    }

    // ------------------------------------------------------------- scroll

    /// The offset that a node goes to when asked for (x, y): each axis that
    /// its style scrolls is clamped to the extent, the other stays.
    pub open spec fn scroll_goal(self, id: NodeId, x: Scalar, y: Scalar) -> Point {
        let o = self.style_of(id).overflow;
        let e = self.layouts.data(id).scroll_extent;
        let cur = self.offset_of(id);
        Point {
            x: if o.x == Overflow::Scroll {
                x.clamped(Scalar(0), e.x)
            } else {
                cur.x
            },
            y: if o.y == Overflow::Scroll {
                y.clamped(Scalar(0), e.y)
            } else {
                cur.y
            },
        }
    }

    pub open spec fn can_scroll(self, id: NodeId) -> bool {
        self.host.alive(id) && self.style_of(id).scrolling()
    }

    /// True where scrolling a node to (x, y) moves it.
    pub open spec fn scroll_moves(self, id: NodeId, x: Scalar, y: Scalar) -> bool {
        let cur = self.offset_of(id);
        let next = self.scroll_goal(id, x, y);
        self.can_scroll(id) && !(cur.x.equals(next.x) && cur.y.equals(next.y))
    }

    pub open spec fn scrolled_to(self, id: NodeId, x: Scalar, y: Scalar) -> UiModel {
        if !self.can_scroll(id) {
            self
        } else if self.scroll_moves(id, x, y) {
            UiModel {
                scroll: self.scroll.insert(id.0, self.scroll_goal(id, x, y)),
                a11y_stale: true,
                ..self.repainting()
            }
        } else {
            UiModel { scroll: self.scroll.insert(id.0, self.offset_of(id)), ..self }
        }
    }

    /// The node that a wheel over `hit` scrolls: the nearest that scrolls
    /// vertically, else the nearest that scrolls horizontally.
    pub open spec fn wheel_target(self, hit: NodeId) -> Option<NodeId> {
        let path = self.host.path_up(hit);
        match first_scrolling(self.host, self.layouts, path, true) {
            Some(id) => Some(id),
            None => first_scrolling(self.host, self.layouts, path, false),
        }
    }

    // -------------------------------------------------------------- events

    /// An event sent to every node on a path that listens for it.
    pub open spec fn told(self, path: Seq<NodeId>, e: UiEventModel) -> UiModel {
        self.with_events(addressed(listeners(self.host, path, mask_of(e.kind)), e))
    }

    /// A pointer event sent up from `hit`: each listener gets the position
    /// relative to its own border box.
    pub open spec fn pointed(
        self,
        hit: NodeId,
        kind: u8,
        x: Scalar,
        y: Scalar,
        key: u32,
        offset: Seq<Point>,
    ) -> UiModel {
        let heard = listeners(self.host, self.host.path_up(hit), mask_of(kind));
        self.with_events(
            Seq::new(
                heard.len(),
                |i: int|
                    UiEventModel {
                        x,
                        y,
                        a: point_of(offset, heard[i]).x,
                        b: point_of(offset, heard[i]).y,
                        key,
                        ..UiEventModel::bare(kind, heard[i].0)
                    },
            ),
        )
    }

    pub open spec fn path_from(self, id: Option<NodeId>) -> Seq<NodeId> {
        match id {
            Some(h) => self.host.path_up(h),
            None => Seq::empty(),
        }
    }

    /// The pointer goes from one node to another: nodes that it leaves hear
    /// of it, then nodes that it enters, each deepest first.
    pub open spec fn hovered(self, hit: Option<NodeId>, x: Scalar, y: Scalar) -> UiModel {
        if hit == self.hover {
            self
        } else {
            let before = self.path_from(self.hover);
            let after = self.path_from(hit);
            let bits = mask::POINTER_ENTER_LEAVE;
            let leave = UiEventModel { x, y, ..UiEventModel::bare(out_kind::POINTER_LEAVE, 0) };
            let enter = UiEventModel { x, y, ..UiEventModel::bare(out_kind::POINTER_ENTER, 0) };
            UiModel {
                hover: hit,
                ..self.with_events(
                    addressed(listeners(self.host, lacking(before, after), bits), leave)
                        + addressed(listeners(self.host, lacking(after, before), bits), enter),
                )
            }
        }
    }

    pub open spec fn moved(self, x: Scalar, y: Scalar, f: Facts) -> UiModel {
        let a = match self.pressed {
            Some(pid) => if is_input(self.host, pid) {
                let at = point_of(f.content@, pid);
                self.with_job(
                    JobModel::Act {
                        id: pid,
                        action: KeyAction::ExtendTo(at.x, at.y),
                        notify: false,
                    },
                ).repainting()
            } else {
                self
            },
            None => self,
        };
        let hit = a.hit(f.placed@, x, y);
        let b = a.hovered(hit, x, y);
        match (if b.pressed is Some {
            b.pressed
        } else {
            hit
        }) {
            Some(target) => b.pointed(
                target,
                out_kind::POINTER_MOVE,
                x,
                y,
                packed(Button::Primary, Mods::none()),
                f.offset@,
            ),
            None => b,
        }
    }

    /// A press on an input places the caret, extends the selection or, as a
    /// double click, selects a word.
    pub open spec fn caret_placed(self, id: NodeId, mods: Mods, f: Facts) -> UiModel {
        let at = point_of(f.content@, id);
        let action = if mods.shift {
            KeyAction::ExtendTo(at.x, at.y)
        } else if self.last_click == Some(id) && f.near {
            KeyAction::SelectWordAt(at.x, at.y)
        } else {
            KeyAction::MoveTo(at.x, at.y)
        };
        UiModel {
            last_click: Some(id),
            ..self.with_job(JobModel::Act { id, action, notify: false }).repainting()
        }
    }

    pub open spec fn pressed_at(
        self,
        x: Scalar,
        y: Scalar,
        button: Button,
        mods: Mods,
        f: Facts,
    ) -> UiModel {
        let hit = self.hit(f.placed@, x, y);
        let a = UiModel { pressed: hit, ..self };
        let b = a.focused(first_focusable(self.host, self.path_from(hit)));
        match hit {
            None => b,
            Some(id) => {
                let c = if is_input(b.host, id) && button == Button::Primary {
                    b.caret_placed(id, mods, f)
                } else {
                    b
                };
                c.pointed(id, out_kind::POINTER_DOWN, x, y, packed(button, mods), f.offset@)
            },
        }
    }

    pub open spec fn released_at(self, x: Scalar, y: Scalar, button: Button, f: Facts) -> UiModel {
        let target = if self.pressed is Some {
            self.pressed
        } else {
            self.hit(f.placed@, x, y)
        };
        let a = UiModel { pressed: None, ..self };
        match target {
            Some(id) => a.pointed(
                id,
                out_kind::POINTER_UP,
                x,
                y,
                packed(button, Mods::none()),
                f.offset@,
            ),
            None => a,
        }
    }

    /// A wheel scrolls the node under it that scrolls, which hears of its
    /// new offset; the path under the pointer hears of the wheel.
    pub open spec fn wheeled(
        self,
        x: Scalar,
        y: Scalar,
        dx: Scalar,
        dy: Scalar,
        f: Facts,
    ) -> UiModel {
        match self.hit(f.placed@, x, y) {
            None => self,
            Some(hit) => {
                let a = match self.wheel_target(hit) {
                    None => self,
                    Some(id) => {
                        let to = point_of(f.scrolled@, id);
                        let s = self.scrolled_to(id, to.x, to.y);
                        let goal = self.scroll_goal(id, to.x, to.y);
                        if self.scroll_moves(id, to.x, to.y) && listens(
                            self.host,
                            id,
                            mask::SCROLL,
                        ) {
                            s.with_event(
                                UiEventModel {
                                    a: goal.x,
                                    b: goal.y,
                                    ..UiEventModel::bare(out_kind::SCROLL, id.0)
                                },
                            )
                        } else {
                            s
                        }
                    },
                };
                a.told(
                    a.host.path_up(hit),
                    UiEventModel {
                        x,
                        y,
                        a: dx,
                        b: dy,
                        ..UiEventModel::bare(out_kind::WHEEL, hit.0)
                    },
                )
            },
        }
    }

    /// Tab moves the focus along the ring, unless a command modifier is
    /// held.
    pub open spec fn tabbed(self, k: KeyInput) -> UiModel {
        if k.key == Key::Tab && !k.mods.ctrl && !k.mods.meta && self.ring().len() > 0 {
            self.focused(Some(next_stop(self.ring(), self.focus, k.mods.shift)))
        } else {
            self
        }
    }

    pub open spec fn multiline(self, id: NodeId) -> bool {
        self.inputs.inputs.dom().contains(id.0) && self.inputs.inputs[id.0].multiline
    }

    /// A key goes to the focused input, if there is one.
    pub open spec fn typed_into(self, k: KeyInput) -> UiModel {
        match self.focus {
            Some(id) => if is_input(self.host, id) {
                let a = if k.key == Key::Escape {
                    self.focused(None)
                } else {
                    self
                };
                match meaning(k, self.multiline(id)) {
                    None => a,
                    Some(KeyAction::Submit) => a.with_job(JobModel::Submit { id }),
                    Some(action) => a.with_job(
                        JobModel::Act { id, action, notify: true },
                    ).repainting(),
                }
            } else {
                self
            },
            None => self,
        }
    }

    /// What a key press does before the editors are brought up to date.
    pub open spec fn key_pressed(self, k: KeyInput) -> UiModel {
        self.tabbed(k).typed_into(k)
    }

    /// The event of a key.
    pub open spec fn key_event(kind: u8, k: KeyInput) -> UiEventModel {
        UiEventModel { key: k.key.wire(), text: typed(k.char), ..UiEventModel::bare(kind, 0) }
    }

    /// A key press is heard on the path of the focused node, or by every
    /// key listener in document order where nothing is focused.
    pub open spec fn key_heard(self, k: KeyInput) -> UiModel {
        let e = UiModel::key_event(out_kind::KEY_DOWN, k);
        match self.focus {
            Some(f) => self.told(self.host.path_up(f), e),
            None => self.told(self.host.document(self.host.every()), e),
        }
    }

    pub open spec fn key_released(self, k: KeyInput) -> UiModel {
        match self.focus {
            Some(f) => self.told(self.host.path_up(f), UiModel::key_event(out_kind::KEY_UP, k)),
            None => self,
        }
    }

    pub open spec fn dispatched(self, ev: Event, f: Facts) -> UiModel {
        match ev {
            Event::PointerMove { x, y } => self.moved(x, y, f),
            Event::PointerDown { x, y, button, mods } => self.pressed_at(x, y, button, mods, f),
            Event::PointerUp { x, y, button } => self.released_at(x, y, button, f),
            Event::Wheel { x, y, dx, dy } => self.wheeled(x, y, dx, dy, f),
            Event::KeyDown(k) => self.key_pressed(k),
            Event::KeyUp(k) => self.key_released(k),
            Event::ImePreedit { text, cursor } => match self.focus {
                Some(id) => self.with_job(
                    JobModel::SetCompose { id, text: text@, cursor },
                ).repainting(),
                None => self,
            },
            Event::ImeCommit(text) => match self.focus {
                Some(id) => self.with_job(JobModel::Commit { id, text: text@ }).repainting(),
                None => self,
            },
            Event::ImeDone => match self.focus {
                Some(id) => self.with_job(JobModel::FinishCompose { id }),
                None => self,
            },
            Event::Focus(gained) => if gained {
                self
            } else {
                UiModel { hover: None, pressed: None, ..self }
            },
        }
    }

    /// What is left of an event once the editors are up to date: a key press
    /// is heard after the change that it made.
    pub open spec fn finished(self, ev: Event) -> UiModel {
        match ev {
            Event::KeyDown(k) => self.key_heard(k),
            _ => self,
        }
    }

    /// The buffer of an input is at a generation: a change that was not
    /// reported is, to a listener.
    pub open spec fn changed(self, id: NodeId, generation: u64, text: Seq<char>) -> UiModel {
        if self.inputs.owes_change(id.0, generation) {
            let a = UiModel {
                inputs: self.inputs.reported(id.0, generation),
                a11y_stale: true,
                ..self
            };
            if listens(self.host, id, mask::INPUT) {
                a.with_event(UiEventModel { text, ..UiEventModel::bare(out_kind::CHANGE, id.0) })
            } else {
                a
            }
        } else {
            self
        }
    }

    /// A job is done, and the editor of its node is at a generation with a
    /// text.
    pub open spec fn settled(self, job: JobModel, generation: u64, text: Seq<char>) -> UiModel {
        match job {
            JobModel::Commit { id, .. } => self.changed(id, generation, text),
            JobModel::SetText { id, notify, .. } => if notify {
                self.changed(id, generation, text)
            } else {
                self
            },
            JobModel::Act { id, notify, .. } => if notify {
                self.changed(id, generation, text)
            } else {
                self
            },
            JobModel::Submit { id } => self.with_event(
                UiEventModel { text, ..UiEventModel::bare(out_kind::SUBMIT, id.0) },
            ),
            _ => self,
        }
    }

    // -------------------------------------------------------------- commits

    pub open spec fn commanded(self, id: NodeId, cmd: CommandModel) -> UiModel {
        match cmd {
            CommandModel::Focus => self.focused(Some(id)),
            CommandModel::Blur => if self.focus == Some(id) {
                self.focused(None)
            } else {
                self
            },
            CommandModel::SetInputText(text) => self.with_job(
                JobModel::SetText { id, text, notify: false },
            ).relayout(id),
            CommandModel::ScrollTo(x, y) => self.scrolled_to(id, x, y),
        }
    }

    /// A slot drops what belonged to its last occupant.
    pub open spec fn forgotten(self, id: u32) -> UiModel {
        UiModel {
            inputs: self.inputs.without(id),
            scroll: self.scroll.remove(id),
            custom: self.custom.remove(id),
            labels: self.labels.remove(id),
            ..self.with_job(JobModel::Forget { id: NodeId(id) })
        }
    }

    /// No longer aimed at a node.
    pub open spec fn averted(self, id: u32) -> UiModel {
        let gone = Some(NodeId(id));
        UiModel {
            focus: if self.focus == gone {
                None
            } else {
                self.focus
            },
            hover: if self.hover == gone {
                None
            } else {
                self.hover
            },
            pressed: if self.pressed == gone {
                None
            } else {
                self.pressed
            },
            ..self
        }
    }

    /// What an op does beyond the tree and the styles.
    pub open spec fn effect(self, op: OpModel) -> UiModel {
        match op {
            OpModel::Create { id, .. } => self.forgotten(id),
            OpModel::Remove { id } => self.forgotten(id).averted(id),
            OpModel::InputProps { id, font_size, color, placeholder, multiline } => {
                let how = if self.inputs.inputs.dom().contains(id) {
                    Configured::Changed {
                        font_size: !self.inputs.inputs[id].font_size.equals(font_size),
                        color: self.inputs.inputs[id].color != color,
                    }
                } else {
                    Configured::Made
                };
                UiModel {
                    inputs: self.inputs.configured(id, font_size, color, placeholder, multiline),
                    ..self
                }.with_job(JobModel::Configure { id: NodeId(id), how }).relayout(NodeId(id))
            },
            OpModel::Command { id, cmd } => self.commanded(NodeId(id), cmd),
            OpModel::Custom { id, tag, data, text } => UiModel {
                custom: self.custom.insert(id, CustomModel { tag, data, text }),
                ..self
            }.repainting(),
            OpModel::Label { id, text } => UiModel {
                labels: if text.len() == 0 {
                    self.labels.remove(id)
                } else {
                    self.labels.insert(id, text)
                },
                ..self
            },
            _ => self,
        }
    }

    /// The effects of the first `k` ops, in order.
    pub open spec fn effects(self, ops: Seq<OpModel>, k: nat) -> UiModel
        decreases k,
    {
        if k == 0 {
            self
        } else {
            self.effects(ops, (k - 1) as nat).effect(ops[k - 1])
        }
    }
}

} // verus!
