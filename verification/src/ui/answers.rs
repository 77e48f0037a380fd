//! What events, commands and ops come to in the interaction core, told whole:
//! what is queued, for whom, and what else changes.

use super::hit::{Edges, Placed, Sight};
use super::keys::meaning;
use super::laws::law_focus_changes_are_told;
use super::model::{
    first_focusable, first_scrolling, focus_ring, lacking, listeners, next_stop, packed, Facts,
    JobModel, UiModel,
};
use super::state::committed;
use crate::custom::CustomModel;
use crate::events::out::mask_of;
use crate::events::{mask, out_kind, Button, Event, Key, KeyInput, Mods, UiEventModel};
use crate::geom::Point;
use crate::host::model::HostModel;
use crate::host::proofs::{lemma_congruent, lemma_path_congruent};
use crate::host::tree::lemma_height;
use crate::host::NodeId;
use crate::input::{Configured, KeyAction};
use crate::layout::LayoutsModel;
use crate::scalar::Scalar;
use crate::style::Overflow;
use crate::wire::apply::{host_after, host_run, layouts_after, layouts_run};
use crate::wire::{CommandModel, OpModel, TxnModel};
use vstd::prelude::*;

verus! {

// ----------------------------------------------------------------------- words

/// The codes of event kinds, and the listener bit that each kind asks for.
pub proof fn law_event_codes()
    ensures
        out_kind::POINTER_MOVE == 1 && mask_of(1) == 0x001,
        out_kind::POINTER_DOWN == 2 && mask_of(2) == 0x002,
        out_kind::POINTER_UP == 3 && mask_of(3) == 0x004,
        out_kind::POINTER_ENTER == 4 && mask_of(4) == 0x008,
        out_kind::POINTER_LEAVE == 5 && mask_of(5) == 0x008,
        out_kind::WHEEL == 6 && mask_of(6) == 0x010,
        out_kind::KEY_DOWN == 7 && mask_of(7) == 0x020,
        out_kind::KEY_UP == 8 && mask_of(8) == 0x020,
        out_kind::FOCUS == 9 && mask_of(9) == 0x040,
        out_kind::BLUR == 10 && mask_of(10) == 0x040,
        out_kind::CHANGE == 11 && mask_of(11) == 0x080,
        out_kind::SUBMIT == 12 && mask_of(12) == 0x080,
        out_kind::SCROLL == 13 && mask_of(13) == 0x100,
        mask::FOCUS == 0x040 && mask::POINTER_ENTER_LEAVE == 0x008 && mask::INPUT == 0x080
            && mask::SCROLL == 0x100,
{
}

/// The codes of keys in outgoing events.
pub proof fn law_key_codes(key: Key)
    ensures
        key.wire() == (match key {
            Key::Unknown => 0u32,
            Key::Backspace => 1,
            Key::Tab => 2,
            Key::Enter => 3,
            Key::Escape => 4,
            Key::Left => 5,
            Key::Up => 6,
            Key::Right => 7,
            Key::Down => 8,
            Key::Home => 9,
            Key::End => 10,
            Key::PageUp => 11,
            Key::PageDown => 12,
            Key::Delete => 13,
        }),
{
}

/// The word of a pointer event reads back: shift, ctrl, alt and meta from its
/// low bits, and the button's number from bit 8 on.
pub proof fn law_pointer_word_reads_back(button: Button, mods: Mods)
    ensures
        ({
            let w = packed(button, mods) as int;
            &&& mods.shift <==> w % 2 == 1
            &&& mods.ctrl <==> w / 2 % 2 == 1
            &&& mods.alt <==> w / 4 % 2 == 1
            &&& mods.meta <==> w / 8 % 2 == 1
            &&& w / 16 % 16 == 0
            &&& w / 256 == (match button {
                Button::Primary => 1int,
                Button::Secondary => 2,
                Button::Middle => 3,
                Button::Other(b) => b as int,
            })
        }),
{
}

// ----------------------------------------------------------------- lists of nodes

/// Listens for some of the kinds in `bits`.
pub open spec fn hearing(m: HostModel, bits: u32) -> spec_fn(NodeId) -> bool {
    |n: NodeId| m.props_of(n).listeners & bits != 0
}

/// Takes the focus: a live input, or a node that is focusable.
pub open spec fn focusable(m: HostModel) -> spec_fn(NodeId) -> bool {
    |n: NodeId|
        (m.alive(n) && m.header(n).kind as int % 0x8000 == 2) || m.props_of(n).focusable
}

pub open spec fn missing_from(other: Seq<NodeId>) -> spec_fn(NodeId) -> bool {
    |n: NodeId| !other.contains(n)
}

/// The nodes that hear an event are those of the list that listen for it, in
/// the order of the list.
pub proof fn law_listeners_are_those_that_listen(m: HostModel, list: Seq<NodeId>, bits: u32)
    ensures
        listeners(m, list, bits) == list.filter(hearing(m, bits)),
    decreases list.len(),
{
    reveal(Seq::filter);
    if list.len() > 0 {
        law_listeners_are_those_that_listen(m, list.drop_last(), bits);
        assert(listeners(m, list, bits) =~= list.filter(hearing(m, bits)));
    } else {
        assert(list.filter(hearing(m, bits)) =~= Seq::<NodeId>::empty());
    }
}

/// The focus ring is what takes the focus, in the order of the list.
pub proof fn law_ring_is_what_takes_focus(m: HostModel, list: Seq<NodeId>)
    ensures
        focus_ring(m, list) == list.filter(focusable(m)),
    decreases list.len(),
{
    reveal(Seq::filter);
    if list.len() > 0 {
        law_ring_is_what_takes_focus(m, list.drop_last());
        assert(focus_ring(m, list) =~= list.filter(focusable(m)));
    } else {
        assert(list.filter(focusable(m)) =~= Seq::<NodeId>::empty());
    }
}

proof fn lemma_lacking_filter(list: Seq<NodeId>, other: Seq<NodeId>)
    ensures
        lacking(list, other) == list.filter(missing_from(other)),
    decreases list.len(),
{
    reveal(Seq::filter);
    if list.len() > 0 {
        lemma_lacking_filter(list.drop_last(), other);
        assert(lacking(list, other) =~= list.filter(missing_from(other)));
    } else {
        assert(list.filter(missing_from(other)) =~= Seq::<NodeId>::empty());
    }
}

/// A press finds the nearest node on the path that takes the focus: none
/// before it does; where none is found, none does.
pub proof fn law_nearest_focusable(m: HostModel, path: Seq<NodeId>)
    ensures
        match first_focusable(m, path) {
            Some(t) => exists|i: int|
                {
                    &&& 0 <= i < path.len()
                    &&& #[trigger] path[i] == t
                    &&& focusable(m)(t)
                    &&& forall|j: int| 0 <= j < i ==> !focusable(m)(#[trigger] path[j])
                },
            None => forall|j: int| 0 <= j < path.len() ==> !focusable(m)(#[trigger] path[j]),
        },
    decreases path.len(),
{
    if path.len() > 0 {
        let rest = path.drop_first();
        law_nearest_focusable(m, rest);
        if focusable(m)(path[0]) {
            assert(path[0] == path[0]);
        } else {
            match first_focusable(m, path) {
                Some(t) => {
                    let i = choose|i: int|
                        {
                            &&& 0 <= i < rest.len()
                            &&& #[trigger] rest[i] == t
                            &&& focusable(m)(t)
                            &&& forall|j: int| 0 <= j < i ==> !focusable(m)(#[trigger] rest[j])
                        };
                    assert(path[i + 1] == t);
                    assert forall|j: int| 0 <= j < i + 1 implies !focusable(m)(
                        #[trigger] path[j],
                    ) by {
                        if j > 0 {
                            assert(path[j] == rest[j - 1]);
                        }
                    }
                },
                None => {
                    assert forall|j: int| 0 <= j < path.len() implies !focusable(m)(
                        #[trigger] path[j],
                    ) by {
                        if j > 0 {
                            assert(path[j] == rest[j - 1]);
                        }
                    }
                },
            }
        }
    }
}

/// Tab goes to the next stop of the ring, with shift to the one before, round
/// both ends; from outside the ring it goes to the first.
pub proof fn law_tab_steps(ring: Seq<NodeId>, i: int, f: NodeId)
    requires
        ring.no_duplicates(),
        ring.len() > 0,
    ensures
        next_stop(ring, None, false) == ring[0] && next_stop(ring, None, true) == ring[0],
        !ring.contains(f) ==> next_stop(ring, Some(f), false) == ring[0] && next_stop(
            ring,
            Some(f),
            true,
        ) == ring[0],
        0 <= i < ring.len() - 1 ==> next_stop(ring, Some(ring[i]), false) == ring[i + 1]
            && next_stop(ring, Some(ring[i + 1]), true) == ring[i],
        next_stop(ring, Some(ring.last()), false) == ring[0],
        next_stop(ring, Some(ring[0]), true) == ring.last(),
{
    crate::host::model::lemma_position(ring, f);
    crate::host::model::lemma_position(ring, ring[0]);
    crate::host::model::lemma_position(ring, ring.last());
    assert(ring.contains(ring[0]));
    assert(ring.contains(ring.last()));
    if 0 <= i < ring.len() - 1 {
        crate::host::model::lemma_position(ring, ring[i]);
        crate::host::model::lemma_position(ring, ring[i + 1]);
        assert(ring.contains(ring[i]));
        assert(ring.contains(ring[i + 1]));
    }
}

// ----------------------------------------------------------------- what is told

/// An input that is live.
pub open spec fn edits_text(m: HostModel, id: NodeId) -> bool {
    m.alive(id) && m.header(id).kind as int % 0x8000 == 2
}

/// A point out of a table by node; the origin where the table has none.
pub open spec fn point_in(table: Seq<Point>, id: NodeId) -> Point {
    if id.0 < table.len() {
        table[id.0 as int]
    } else {
        Point { x: Scalar(0), y: Scalar(0) }
    }
}

/// The pointer events of a path: one for each node that listens, with the
/// pointer's position, the position in the node, and the word.
pub open spec fn pointer_told(
    m: HostModel,
    path: Seq<NodeId>,
    kind: u8,
    bits: u32,
    x: Scalar,
    y: Scalar,
    key: u32,
    offset: Seq<Point>,
) -> Seq<UiEventModel> {
    path.filter(hearing(m, bits)).map_values(
        |n: NodeId|
            UiEventModel {
                kind,
                node: n.0,
                x,
                y,
                a: point_in(offset, n).x,
                b: point_in(offset, n).y,
                key,
                text: Seq::empty(),
            },
    )
}

/// One event for each node of a list that listens.
pub open spec fn each_told(
    m: HostModel,
    list: Seq<NodeId>,
    bits: u32,
    e: UiEventModel,
) -> Seq<UiEventModel> {
    list.filter(hearing(m, bits)).map_values(|n: NodeId| UiEventModel { node: n.0, ..e })
}

proof fn lemma_pointed(
    u: UiModel,
    hit: NodeId,
    kind: u8,
    bits: u32,
    x: Scalar,
    y: Scalar,
    key: u32,
    offset: Seq<Point>,
)
    requires
        mask_of(kind) == bits,
    ensures
        u.pointed(hit, kind, x, y, key, offset) == (UiModel {
            events: u.events + pointer_told(
                u.host,
                u.host.path_up(hit),
                kind,
                bits,
                x,
                y,
                key,
                offset,
            ),
            ..u
        }),
{
    law_listeners_are_those_that_listen(u.host, u.host.path_up(hit), bits);
    let told = pointer_told(u.host, u.host.path_up(hit), kind, bits, x, y, key, offset);
    assert(u.pointed(hit, kind, x, y, key, offset).events =~= u.events + told);
}

proof fn lemma_told(u: UiModel, path: Seq<NodeId>, bits: u32, e: UiEventModel)
    requires
        mask_of(e.kind) == bits,
    ensures
        u.told(path, e) == (UiModel {
            events: u.events + each_told(u.host, path, bits, e),
            ..u
        }),
{
    law_listeners_are_those_that_listen(u.host, path, bits);
    assert(u.told(path, e).events =~= u.events + each_told(u.host, path, bits, e));
}

/// A host that owes a repaint, and is else the same.
pub open spec fn owing_paint(m: HostModel) -> HostModel {
    HostModel { paint_dirty: true, ..m }
}

/// The repaint that a host owes does not matter to its paths.
proof fn lemma_paint_path(m: HostModel, id: NodeId)
    requires
        m.wf(),
    ensures
        owing_paint(m).wf(),
        owing_paint(m).path_up(id) == m.path_up(id),
{
    lemma_congruent(m, owing_paint(m));
    lemma_path_congruent(m, owing_paint(m), id);
}

/// Nor to hits.
proof fn lemma_paint_hit(s: Sight, t: Sight, id: NodeId, clip: Edges)
    requires
        s.host.wf(),
        t == (Sight { host: owing_paint(s.host), ..s }),
    ensures
        s.hit(id, clip) == t.hit(id, clip),
    decreases s.host.height(id), 1int, 0int,
{
    lemma_congruent(s.host, t.host);
    assert(s.clip_below(id, clip) == t.clip_below(id, clip));
    assert(s.host.list(id) == t.host.list(id));
    assert(s.layouts.suppressed(s.host, id) == t.layouts.suppressed(t.host, id));
    lemma_paint_below(s, t, id, s.host.list(id).len(), s.clip_below(id, clip));
}

proof fn lemma_paint_below(s: Sight, t: Sight, p: NodeId, k: nat, clip: Edges)
    requires
        s.host.wf(),
        t == (Sight { host: owing_paint(s.host), ..s }),
    ensures
        s.hit_below(p, k, clip) == t.hit_below(p, k, clip),
    decreases s.host.height(p), 0int, k,
{
    lemma_congruent(s.host, t.host);
    assert(s.host.list(p) == t.host.list(p));
    if k > 0 && p.0 < s.host.nodes.len() && k <= s.host.list(p).len() {
        lemma_height(s.host, p, k - 1);
        lemma_paint_hit(s, t, s.host.list(p)[k - 1], clip);
        lemma_paint_below(s, t, p, (k - 1) as nat, clip);
    }
}

proof fn lemma_paint_root(s: Sight, t: Sight, k: nat)
    requires
        s.host.wf(),
        t == (Sight { host: owing_paint(s.host), ..s }),
    ensures
        s.hit_root(k) == t.hit_root(k),
    decreases k,
{
    if k > 0 && k <= s.host.roots.len() {
        lemma_paint_hit(s, t, s.host.roots[k - 1], Edges::everywhere());
        lemma_paint_root(s, t, (k - 1) as nat);
    }
}

proof fn lemma_paint_target(u: UiModel, placed: Seq<Placed>, x: Scalar, y: Scalar)
    requires
        u.host.wf(),
    ensures
        u.repainting().hit(placed, x, y) == u.hit(placed, x, y),
{
    let s = Sight { host: u.host, layouts: u.layouts, placed, x, y };
    let t = Sight { host: owing_paint(u.host), ..s };
    lemma_paint_root(s, t, u.host.roots.len());
    assert(u.repainting().host == t.host);
}

// ----------------------------------------------------------------------- focus

/// Moving the focus: it goes to the node, or nowhere where the node is not
/// live; an input that loses it finishes its composition; listeners hear the
/// blur and then the focus; a repaint and a new semantic tree are owed.
/// Focusing what has the focus does nothing.
pub proof fn law_focus_moves(u: UiModel, next: Option<NodeId>)
    ensures
        u.focus == next ==> u.focused(next) == u,
        u.focus != next ==> u.focused(next) == (UiModel {
            focus: match next {
                Some(id) => if u.host.alive(id) {
                    Some(id)
                } else {
                    None
                },
                None => None,
            },
            jobs: match u.focus {
                Some(was) => if edits_text(u.host, was) {
                    u.jobs.push(JobModel::FinishCompose { id: was })
                } else {
                    u.jobs
                },
                None => u.jobs,
            },
            events: u.events + (match u.focus {
                Some(was) => if u.host.props_of(was).listeners & 0x040 != 0 {
                    seq![UiEventModel::bare(10, was.0)]
                } else {
                    Seq::empty()
                },
                None => Seq::empty(),
            }) + (match next {
                Some(id) => if u.host.alive(id) && u.host.props_of(id).listeners & 0x040 != 0 {
                    seq![UiEventModel::bare(9, id.0)]
                } else {
                    Seq::empty()
                },
                None => Seq::empty(),
            }),
            host: owing_paint(u.host),
            a11y_stale: true,
            ..u
        }),
{
    law_focus_changes_are_told(u, next);
}

/// An event that carries nothing but its kind and node.
pub proof fn law_bare_events(kind: u8, node: u32)
    ensures
        ({
            let e = UiEventModel::bare(kind, node);
            &&& e.kind == kind
            &&& e.node == node
            &&& e.x == Scalar(0) && e.y == Scalar(0) && e.a == Scalar(0) && e.b == Scalar(0)
            &&& e.key == 0
            &&& e.text.len() == 0
        }),
{
}

// ---------------------------------------------------------------------- pointer

/// A press: the node under the pointer captures it, the nearest node that
/// takes the focus gets it, and the path hears of the press. On an input a
/// primary press queues one action at the press's place in the content:
/// with shift the selection extends to it, as a double click the word there
/// is selected, else the caret moves to it.
#[verifier::rlimit(40)]
pub proof fn law_press_is_answered(
    u: UiModel,
    x: Scalar,
    y: Scalar,
    button: Button,
    mods: Mods,
    f: Facts,
)
    requires
        u.host.wf(),
    ensures
        ({
            let hit = u.hit(f.placed@, x, y);
            let w = u.focused(
                match hit {
                    Some(id) => first_focusable(u.host, u.host.path_up(id)),
                    None => None,
                },
            );
            let v = u.pressed_at(x, y, button, mods, f);
            match hit {
                None => v == (UiModel { pressed: None, ..w }),
                Some(id) => {
                    let at = point_in(f.content@, id);
                    let action = if mods.shift {
                        KeyAction::ExtendTo(at.x, at.y)
                    } else if u.last_click == Some(id) && f.near {
                        KeyAction::SelectWordAt(at.x, at.y)
                    } else {
                        KeyAction::MoveTo(at.x, at.y)
                    };
                    let edit = edits_text(u.host, id) && button == Button::Primary;
                    v == (UiModel {
                        pressed: Some(id),
                        jobs: if edit {
                            w.jobs.push(JobModel::Act { id, action, notify: false })
                        } else {
                            w.jobs
                        },
                        last_click: if edit {
                            Some(id)
                        } else {
                            u.last_click
                        },
                        host: if edit {
                            owing_paint(u.host)
                        } else {
                            w.host
                        },
                        events: w.events + pointer_told(
                            u.host,
                            u.host.path_up(id),
                            2,
                            0x002,
                            x,
                            y,
                            packed(button, mods),
                            f.offset@,
                        ),
                        ..w
                    })
                },
            }
        }),
{
    let hit = u.hit(f.placed@, x, y);
    let next = first_focusable(u.host, u.path_from(hit));
    let a = UiModel { pressed: hit, ..u };
    let w = u.focused(next);
    let b = a.focused(next);
    assert(b == (UiModel { pressed: hit, ..w }));
    if let Some(id) = hit {
        lemma_paint_path(u.host, id);
        assert(w.host == u.host || w.host == owing_paint(u.host));
        let c = if edits_text(u.host, id) && button == Button::Primary {
            b.caret_placed(id, mods, f)
        } else {
            b
        };
        assert(c.host == u.host || c.host == owing_paint(u.host));
        lemma_pointed(c, id, 2, 0x002, x, y, packed(button, mods), f.offset@);
        assert(hearing(c.host, 0x002) =~= hearing(u.host, 0x002));
    }
}

/// A primary press on an input, for itself: it queues one action there, at the
/// press's place in the content, and no other action; the input has the focus.
pub proof fn law_press_acts_on_the_input(
    u: UiModel,
    x: Scalar,
    y: Scalar,
    mods: Mods,
    f: Facts,
    id: NodeId,
)
    requires
        u.host.wf(),
        u.hit(f.placed@, x, y) == Some(id),
        edits_text(u.host, id),
    ensures
        ({
            let v = u.pressed_at(x, y, Button::Primary, mods, f);
            let at = point_in(f.content@, id);
            let n = v.jobs.len() as int - 1;
            &&& v.focus == Some(id)
            &&& v.pressed == Some(id)
            &&& u.jobs.len() <= n <= u.jobs.len() + 1
            &&& v.jobs.take(u.jobs.len() as int) == u.jobs
            &&& forall|i: int| u.jobs.len() <= i < n ==> #[trigger] v.jobs[i] is FinishCompose
            &&& v.jobs[n] matches JobModel::Act { id: on, action, notify }
            &&& on == id
            &&& !notify
            &&& mods.shift ==> action == KeyAction::ExtendTo(at.x, at.y)
            &&& !mods.shift && u.last_click == Some(id) && f.near ==> action
                == KeyAction::SelectWordAt(at.x, at.y)
            &&& !mods.shift && !(u.last_click == Some(id) && f.near) ==> action
                == KeyAction::MoveTo(at.x, at.y)
        }),
{
    law_press_is_answered(u, x, y, Button::Primary, mods, f);
    let path = u.host.path_up(id);
    crate::host::proofs::lemma_path_up(u.host, id);
    assert(first_focusable(u.host, path) == Some(id)) by {
        assert(path[0] == id);
    }
    law_focus_moves(u, Some(id));
    let w = u.focused(Some(id));
    assert(w.jobs.take(u.jobs.len() as int) =~= u.jobs);
    let v = u.pressed_at(x, y, Button::Primary, mods, f);
    assert(v.jobs.take(u.jobs.len() as int) =~= u.jobs);
}

/// A release: the capture ends, and the node that had it, or else the node
/// under the pointer, hears of the release with its path. Nothing else
/// changes.
pub proof fn law_release_is_answered(u: UiModel, x: Scalar, y: Scalar, button: Button, f: Facts)
    ensures
        ({
            let target = match u.pressed {
                Some(id) => Some(id),
                None => u.hit(f.placed@, x, y),
            };
            u.released_at(x, y, button, f) == (UiModel {
                pressed: None,
                events: match target {
                    Some(id) => u.events + pointer_told(
                        u.host,
                        u.host.path_up(id),
                        3,
                        0x004,
                        x,
                        y,
                        packed(button, Mods { shift: false, ctrl: false, alt: false, meta: false }),
                        f.offset@,
                    ),
                    None => u.events,
                },
                ..u
            })
        }),
{
    let target = if u.pressed is Some {
        u.pressed
    } else {
        u.hit(f.placed@, x, y)
    };
    if let Some(id) = target {
        lemma_pointed(
            UiModel { pressed: None, ..u },
            id,
            3,
            0x004,
            x,
            y,
            packed(button, Mods::none()),
            f.offset@,
        );
    }
}

/// The path of a node, if there is one.
pub open spec fn path_of(u: UiModel, id: Option<NodeId>) -> Seq<NodeId> {
    match id {
        Some(n) => u.host.path_up(n),
        None => Seq::empty(),
    }
}

/// What the pointer tells on its way from one node to another: first the nodes
/// that it leaves, then those that it enters, each path deepest first.
pub open spec fn hover_told(
    u: UiModel,
    hit: Option<NodeId>,
    x: Scalar,
    y: Scalar,
) -> Seq<UiEventModel> {
    let before = path_of(u, u.hover);
    let after = path_of(u, hit);
    if hit == u.hover {
        Seq::empty()
    } else {
        each_told(
            u.host,
            before.filter(missing_from(after)),
            0x008,
            UiEventModel { x, y, ..UiEventModel::bare(5, 0) },
        ) + each_told(
            u.host,
            after.filter(missing_from(before)),
            0x008,
            UiEventModel { x, y, ..UiEventModel::bare(4, 0) },
        )
    }
}

proof fn lemma_hovered(u: UiModel, hit: Option<NodeId>, x: Scalar, y: Scalar)
    ensures
        u.hovered(hit, x, y) == (UiModel {
            hover: hit,
            events: u.events + hover_told(u, hit, x, y),
            ..u
        }),
{
    let before = path_of(u, u.hover);
    let after = path_of(u, hit);
    lemma_lacking_filter(before, after);
    lemma_lacking_filter(after, before);
    law_listeners_are_those_that_listen(u.host, lacking(before, after), 0x008);
    law_listeners_are_those_that_listen(u.host, lacking(after, before), 0x008);
    assert(u.hovered(hit, x, y).events =~= u.events + hover_told(u, hit, x, y));
}

/// The repaint that a host owes does not matter to what is told.
proof fn lemma_paint_told(
    u: UiModel,
    v: UiModel,
    hit: Option<NodeId>,
    x: Scalar,
    y: Scalar,
    offset: Seq<Point>,
)
    requires
        u.host.wf(),
        v.hover == u.hover,
        v.host == u.host || v.host == owing_paint(u.host),
    ensures
        hover_told(v, hit, x, y) == hover_told(u, hit, x, y),
        forall|id: NodeId|
            pointer_told(v.host, #[trigger] v.host.path_up(id), 1, 0x001, x, y, 256, offset)
                == pointer_told(u.host, u.host.path_up(id), 1, 0x001, x, y, 256, offset),
{
    assert(hearing(v.host, 0x008) =~= hearing(u.host, 0x008));
    assert(hearing(v.host, 0x001) =~= hearing(u.host, 0x001));
    if let Some(h) = u.hover {
        lemma_paint_path(u.host, h);
    }
    if let Some(h) = hit {
        lemma_paint_path(u.host, h);
    }
    assert(path_of(v, v.hover) == path_of(u, u.hover));
    assert(path_of(v, hit) == path_of(u, hit));
    assert forall|id: NodeId|
        pointer_told(v.host, #[trigger] v.host.path_up(id), 1, 0x001, x, y, 256, offset)
            == pointer_told(u.host, u.host.path_up(id), 1, 0x001, x, y, 256, offset) by {
        lemma_paint_path(u.host, id);
    }
}

/// A move: a drag that began on an input extends its selection to the
/// pointer's place in the content; nodes that the pointer leaves and enters
/// hear of it; then the node that has the capture, or else the node under the
/// pointer, hears of the move with its path.
#[verifier::rlimit(40)]
pub proof fn law_move_is_answered(u: UiModel, x: Scalar, y: Scalar, f: Facts)
    requires
        u.host.wf(),
    ensures
        ({
            let hit = u.hit(f.placed@, x, y);
            let drag = u.pressed matches Some(p) && edits_text(u.host, p);
            let target = match u.pressed {
                Some(id) => Some(id),
                None => hit,
            };
            u.moved(x, y, f) == (UiModel {
                hover: hit,
                jobs: if drag {
                    let p = u.pressed.unwrap();
                    let at = point_in(f.content@, p);
                    u.jobs.push(
                        JobModel::Act {
                            id: p,
                            action: KeyAction::ExtendTo(at.x, at.y),
                            notify: false,
                        },
                    )
                } else {
                    u.jobs
                },
                host: if drag {
                    owing_paint(u.host)
                } else {
                    u.host
                },
                events: u.events + hover_told(u, hit, x, y) + (match target {
                    Some(id) => pointer_told(
                        u.host,
                        u.host.path_up(id),
                        1,
                        0x001,
                        x,
                        y,
                        256,
                        f.offset@,
                    ),
                    None => Seq::empty(),
                }),
                ..u
            })
        }),
{
    let drag = u.pressed matches Some(p) && edits_text(u.host, p);
    let hit = u.hit(f.placed@, x, y);
    let a = if drag {
        let p = u.pressed.unwrap();
        let at = point_in(f.content@, p);
        u.with_job(
            JobModel::Act { id: p, action: KeyAction::ExtendTo(at.x, at.y), notify: false },
        ).repainting()
    } else {
        u
    };
    lemma_paint_target(u, f.placed@, x, y);
    assert(a.hit(f.placed@, x, y) == hit);
    lemma_hovered(a, hit, x, y);
    lemma_paint_told(u, a, hit, x, y, f.offset@);
    let b = a.hovered(hit, x, y);
    let target = match u.pressed {
        Some(id) => Some(id),
        None => hit,
    };
    assert(packed(Button::Primary, Mods::none()) == 256);
    let told = u.events + hover_told(u, hit, x, y);
    assert(b.events == told);
    if let Some(t) = target {
        lemma_pointed(b, t, 1, 0x001, x, y, 256, f.offset@);
        assert(b.host.path_up(t) == a.host.path_up(t));
    } else {
        assert(told + Seq::<UiEventModel>::empty() =~= told);
    }
}

// ------------------------------------------------------------------------ scroll

/// A node that scrolls on an axis.
pub open spec fn scrolls_on(u: UiModel, id: NodeId, vertical: bool) -> bool {
    let o = u.layouts.style_of(u.host, id).overflow;
    if vertical {
        o.y == Overflow::Scroll
    } else {
        o.x == Overflow::Scroll
    }
}

/// `i` is the first place on a path of a node that scrolls on an axis.
pub open spec fn first_on(u: UiModel, path: Seq<NodeId>, vertical: bool, i: int) -> bool {
    &&& 0 <= i < path.len()
    &&& scrolls_on(u, path[i], vertical)
    &&& forall|j: int| 0 <= j <= i ==> u.host.alive(#[trigger] path[j])
    &&& forall|j: int| 0 <= j < i ==> !scrolls_on(u, #[trigger] path[j], vertical)
}

proof fn lemma_first_on(u: UiModel, path: Seq<NodeId>, vertical: bool)
    ensures
        match first_scrolling(u.host, u.layouts, path, vertical) {
            Some(t) => exists|i: int| #[trigger] first_on(u, path, vertical, i) && path[i] == t,
            None => forall|i: int| !(#[trigger] first_on(u, path, vertical, i)),
        },
    decreases path.len(),
{
    if path.len() > 0 && u.host.alive(path[0]) {
        if scrolls_on(u, path[0], vertical) {
            assert(first_on(u, path, vertical, 0));
        } else {
            let rest = path.drop_first();
            lemma_first_on(u, rest, vertical);
            match first_scrolling(u.host, u.layouts, path, vertical) {
                Some(t) => {
                    let i = choose|i: int|
                        #[trigger] first_on(u, rest, vertical, i) && rest[i] == t;
                    assert forall|j: int| 0 <= j <= i + 1 implies u.host.alive(
                        #[trigger] path[j],
                    ) by {
                        if j > 0 {
                            assert(path[j] == rest[j - 1]);
                        }
                    }
                    assert forall|j: int| 0 <= j < i + 1 implies !scrolls_on(
                        u,
                        #[trigger] path[j],
                        vertical,
                    ) by {
                        if j > 0 {
                            assert(path[j] == rest[j - 1]);
                        }
                    }
                    assert(first_on(u, path, vertical, i + 1));
                },
                None => {
                    assert forall|i: int| !(#[trigger] first_on(u, path, vertical, i)) by {
                        if first_on(u, path, vertical, i) {
                            assert forall|j: int| 0 <= j <= i - 1 implies u.host.alive(
                                #[trigger] rest[j],
                            ) by {
                                assert(rest[j] == path[j + 1]);
                            }
                            assert forall|j: int| 0 <= j < i - 1 implies !scrolls_on(
                                u,
                                #[trigger] rest[j],
                                vertical,
                            ) by {
                                assert(rest[j] == path[j + 1]);
                            }
                            assert(first_on(u, rest, vertical, i - 1));
                        }
                    }
                },
            }
        }
    } else {
        assert forall|i: int| !(#[trigger] first_on(u, path, vertical, i)) by {
            if first_on(u, path, vertical, i) {
                assert(u.host.alive(path[0]));
            }
        }
    }
}

/// A wheel scrolls the nearest node on the path that scrolls up and down; only
/// where there is none, the nearest that scrolls sideways.
pub proof fn law_wheel_scrolls_the_nearest(u: UiModel, hit: NodeId)
    ensures
        ({
            let path = u.host.path_up(hit);
            match u.wheel_target(hit) {
                Some(t) => {
                    ||| exists|i: int| #[trigger] first_on(u, path, true, i) && path[i] == t
                    ||| {
                        &&& forall|i: int| !(#[trigger] first_on(u, path, true, i))
                        &&& exists|i: int| #[trigger] first_on(u, path, false, i) && path[i] == t
                    }
                },
                None => forall|i: int|
                    !(#[trigger] first_on(u, path, true, i)) && !(#[trigger] first_on(
                        u,
                        path,
                        false,
                        i,
                    )),
            }
        }),
{
    let path = u.host.path_up(hit);
    lemma_first_on(u, path, true);
    lemma_first_on(u, path, false);
}

/// Where a node goes that is scrolled: each axis that its style scrolls to
/// what was asked, held between nothing and the extent; the other axis stays.
pub proof fn law_scrolled_where_asked(u: UiModel, id: NodeId, x: Scalar, y: Scalar)
    requires
        u.layouts.wf(),
        u.host.alive(id),
        scrolls_on(u, id, false) || scrolls_on(u, id, true),
        !x.nan() && !y.nan(),
        !u.offset_of(id).x.nan() && !u.offset_of(id).y.nan(),
    ensures
        ({
            let e = u.layouts.data(id).scroll_extent;
            let at = u.scrolled_to(id, x, y).offset_of(id);
            &&& scrolls_on(u, id, false) && 0 <= x.rank() <= e.x.rank() ==> at.x.rank() == x.rank()
            &&& scrolls_on(u, id, false) && x.rank() < 0 ==> at.x.rank() == 0
            &&& scrolls_on(u, id, false) && x.rank() > e.x.rank() ==> at.x.rank() == e.x.rank()
            &&& !scrolls_on(u, id, false) ==> at.x == u.offset_of(id).x
            &&& scrolls_on(u, id, true) && 0 <= y.rank() <= e.y.rank() ==> at.y.rank() == y.rank()
            &&& scrolls_on(u, id, true) && y.rank() < 0 ==> at.y.rank() == 0
            &&& scrolls_on(u, id, true) && y.rank() > e.y.rank() ==> at.y.rank() == e.y.rank()
            &&& !scrolls_on(u, id, true) ==> at.y == u.offset_of(id).y
        }),
        forall|other: NodeId|
            other != id ==> #[trigger] u.scrolled_to(id, x, y).offset_of(other) == u.offset_of(
                other,
            ),
        ({
            let v = u.scrolled_to(id, x, y);
            v == (UiModel {
                scroll: v.scroll,
                host: v.host,
                a11y_stale: v.a11y_stale,
                ..u
            })
        }),
        u.scroll_moves(id, x, y) ==> u.scrolled_to(id, x, y).host == owing_paint(u.host)
            && u.scrolled_to(id, x, y).a11y_stale,
        !u.scroll_moves(id, x, y) ==> u.scrolled_to(id, x, y).host == u.host,
{
    let e = u.layouts.data(id).scroll_extent;
    if id.0 < u.layouts.rects.len() {
        assert(u.layouts.rects[id.0 as int].scrollable());
    }
}

/// A node that scrolls on no axis, or is not live, does not move.
pub proof fn law_others_do_not_scroll(u: UiModel, id: NodeId, x: Scalar, y: Scalar)
    requires
        !u.host.alive(id) || !(scrolls_on(u, id, false) || scrolls_on(u, id, true)),
    ensures
        u.scrolled_to(id, x, y) == u,
        !u.scroll_moves(id, x, y),
{
}

/// A wheel: the nearest node that scrolls goes by the wheel, and hears of its
/// new offset where it moved and listens; then the path under the pointer
/// hears of the wheel, with its deltas. Over nothing it does nothing.
#[verifier::rlimit(40)]
pub proof fn law_wheel_is_answered(
    u: UiModel,
    x: Scalar,
    y: Scalar,
    dx: Scalar,
    dy: Scalar,
    f: Facts,
)
    requires
        u.host.wf(),
    ensures
        ({
            let v = u.wheeled(x, y, dx, dy, f);
            match u.hit(f.placed@, x, y) {
                None => v == u,
                Some(hit) => {
                    let e = UiEventModel {
                        kind: 6,
                        node: 0,
                        x,
                        y,
                        a: dx,
                        b: dy,
                        key: 0,
                        text: Seq::empty(),
                    };
                    let told = each_told(u.host, u.host.path_up(hit), 0x010, e);
                    match u.wheel_target(hit) {
                        None => v == (UiModel { events: u.events + told, ..u }),
                        Some(id) => {
                            let to = point_in(f.scrolled@, id);
                            let s = u.scrolled_to(id, to.x, to.y);
                            let heard = u.scroll_moves(id, to.x, to.y) && u.host.props_of(
                                id,
                            ).listeners & 0x100 != 0;
                            let moved = if heard {
                                seq![
                                    UiEventModel {
                                        a: s.offset_of(id).x,
                                        b: s.offset_of(id).y,
                                        ..UiEventModel::bare(13, id.0)
                                    },
                                ]
                            } else {
                                Seq::empty()
                            };
                            v == (UiModel { events: u.events + moved + told, ..s })
                        },
                    }
                },
            }
        }),
{
    if let Some(hit) = u.hit(f.placed@, x, y) {
        lemma_paint_path(u.host, hit);
        let e = UiEventModel { x, y, a: dx, b: dy, ..UiEventModel::bare(6, hit.0) };
        let e0 = UiEventModel { node: 0, ..e };
        let a = match u.wheel_target(hit) {
            None => u,
            Some(id) => {
                let to = point_in(f.scrolled@, id);
                let s = u.scrolled_to(id, to.x, to.y);
                if u.scroll_moves(id, to.x, to.y) && u.host.props_of(id).listeners & 0x100 != 0 {
                    let m = UiEventModel {
                        a: s.offset_of(id).x,
                        b: s.offset_of(id).y,
                        ..UiEventModel::bare(13, id.0)
                    };
                    assert(s.with_event(m).events =~= u.events + seq![m]);
                    s.with_event(m)
                } else {
                    assert(s.events =~= u.events + Seq::<UiEventModel>::empty());
                    s
                }
            },
        };
        assert(a.host == u.host || a.host == owing_paint(u.host));
        assert(hearing(a.host, 0x010) =~= hearing(u.host, 0x010));
        lemma_told(a, u.host.path_up(hit), 0x010, e);
        assert(each_told(u.host, u.host.path_up(hit), 0x010, e) =~= each_told(
            u.host,
            u.host.path_up(hit),
            0x010,
            e0,
        ));
        assert(e0 =~= UiEventModel {
            kind: 6,
            node: 0,
            x,
            y,
            a: dx,
            b: dy,
            key: 0,
            text: Seq::empty(),
        });
    }
}

// -------------------------------------------------------------------------- keys

/// Tab moves the focus to the next stop of the ring, with shift to the one
/// before; with a command modifier, or without a ring, it does nothing here,
/// and no other key does.
pub proof fn law_tab_moves_the_focus(u: UiModel, k: KeyInput)
    ensures
        k.key == Key::Tab && !k.mods.ctrl && !k.mods.meta && u.ring().len() > 0 ==> u.tabbed(k)
            == u.focused(Some(next_stop(u.ring(), u.focus, k.mods.shift))),
        k.key != Key::Tab || k.mods.ctrl || k.mods.meta || u.ring().len() == 0 ==> u.tabbed(k) == u,
        u.ring() == u.host.document(u.host.unhidden()).filter(focusable(u.host)),
{
    law_ring_is_what_takes_focus(u.host, u.host.document(u.host.unhidden()));
}

/// A key goes to the input that has the focus: what it means is queued for the
/// editor, with the change to be reported, and a repaint is owed; a submit is
/// queued as one. Escape takes the focus away. Without a focused input a key
/// does nothing here.
pub proof fn law_keys_go_to_the_focused_input(u: UiModel, k: KeyInput)
    ensures
        ({
            let v = u.typed_into(k);
            match u.focus {
                None => v == u,
                Some(id) => if !edits_text(u.host, id) {
                    v == u
                } else {
                    let w = if k.key == Key::Escape {
                        u.focused(None)
                    } else {
                        u
                    };
                    let lines = u.inputs.inputs.dom().contains(id.0)
                        && u.inputs.inputs[id.0].multiline;
                    match meaning(k, lines) {
                        None => v == w,
                        Some(action) => if action is Submit {
                            v == (UiModel { jobs: w.jobs.push(JobModel::Submit { id }), ..w })
                        } else {
                            v == (UiModel {
                                jobs: w.jobs.push(JobModel::Act { id, action, notify: true }),
                                host: owing_paint(w.host),
                                ..w
                            })
                        },
                    }
                },
            }
        }),
        k.key == Key::Escape && u.focus is Some && edits_text(u.host, u.focus.unwrap())
            ==> u.typed_into(k).focus is None,
{
}

/// A key press is first looked at as a tab, then given to the input that has
/// the focus after that.
pub proof fn law_key_press_order(u: UiModel, k: KeyInput)
    ensures
        u.key_pressed(k) == u.tabbed(k).typed_into(k),
        k.key != Key::Tab ==> u.key_pressed(k) == u.typed_into(k),
{
}

/// Who hears of a key: the path of the node that has the focus; without one, a
/// press goes to every node of the document that listens for keys, and a
/// release to nobody. The event carries the key's code and character.
pub proof fn law_keys_are_heard(u: UiModel, k: KeyInput)
    ensures
        ({
            let e = UiEventModel {
                key: k.key.wire(),
                text: match k.char {
                    Some(c) => c@,
                    None => Seq::empty(),
                },
                ..UiEventModel::bare(7, 0)
            };
            let up = UiEventModel { kind: 8, ..e };
            let path = match u.focus {
                Some(f) => u.host.path_up(f),
                None => u.host.document(u.host.every()),
            };
            &&& u.finished(Event::KeyDown(k)) == (UiModel {
                events: u.events + each_told(u.host, path, 0x020, e),
                ..u
            })
            &&& u.focus is Some ==> u.key_released(k) == (UiModel {
                events: u.events + each_told(u.host, path, 0x020, up),
                ..u
            })
            &&& u.focus is None ==> u.key_released(k) == u
        }),
{
    let e = UiModel::key_event(7, k);
    let up = UiModel::key_event(8, k);
    match u.focus {
        Some(f) => {
            lemma_told(u, u.host.path_up(f), 0x020, e);
            lemma_told(u, u.host.path_up(f), 0x020, up);
        },
        None => lemma_told(u, u.host.document(u.host.every()), 0x020, e),
    }
}

// ----------------------------------------------------------- composing and window

/// Composition goes to the node that has the focus: its text and cursor, its
/// commit and its end, each as one job. Without a focus it goes nowhere.
pub proof fn law_composition_goes_to_the_focus(
    u: UiModel,
    f: Facts,
    text: String,
    cursor: Option<(usize, usize)>,
)
    ensures
        match u.focus {
            Some(id) => {
                &&& u.dispatched(Event::ImePreedit { text, cursor }, f) == (UiModel {
                    jobs: u.jobs.push(JobModel::SetCompose { id, text: text@, cursor }),
                    host: owing_paint(u.host),
                    ..u
                })
                &&& u.dispatched(Event::ImeCommit(text), f) == (UiModel {
                    jobs: u.jobs.push(JobModel::Commit { id, text: text@ }),
                    host: owing_paint(u.host),
                    ..u
                })
                &&& u.dispatched(Event::ImeDone, f) == (UiModel {
                    jobs: u.jobs.push(JobModel::FinishCompose { id }),
                    ..u
                })
            },
            None => {
                &&& u.dispatched(Event::ImePreedit { text, cursor }, f) == u
                &&& u.dispatched(Event::ImeCommit(text), f) == u
                &&& u.dispatched(Event::ImeDone, f) == u
            },
        },
{
}

/// A window that loses the keyboard lets go of the pointer and the capture,
/// and keeps the focused node; one that gains it changes nothing.
pub proof fn law_window_focus(u: UiModel, f: Facts)
    ensures
        u.dispatched(Event::Focus(true), f) == u,
        u.dispatched(Event::Focus(false), f) == (UiModel { hover: None, pressed: None, ..u }),
{
}

/// Each event is answered as its own kind.
pub proof fn law_events_are_told_apart(
    u: UiModel,
    f: Facts,
    x: Scalar,
    y: Scalar,
    dx: Scalar,
    dy: Scalar,
    button: Button,
    mods: Mods,
    k: KeyInput,
)
    ensures
        u.dispatched(Event::PointerMove { x, y }, f) == u.moved(x, y, f),
        u.dispatched(Event::PointerDown { x, y, button, mods }, f) == u.pressed_at(
            x,
            y,
            button,
            mods,
            f,
        ),
        u.dispatched(Event::PointerUp { x, y, button }, f) == u.released_at(x, y, button, f),
        u.dispatched(Event::Wheel { x, y, dx, dy }, f) == u.wheeled(x, y, dx, dy, f),
        u.dispatched(Event::KeyDown(k), f) == u.key_pressed(k),
        u.dispatched(Event::KeyUp(k), f) == u.key_released(k),
        u.finished(Event::PointerMove { x, y }) == u,
        u.finished(Event::PointerDown { x, y, button, mods }) == u,
        u.finished(Event::PointerUp { x, y, button }) == u,
        u.finished(Event::Wheel { x, y, dx, dy }) == u,
        u.finished(Event::KeyUp(k)) == u,
{
}

// ------------------------------------------------------------------ jobs come back

/// A job that came back: a change of the buffer that is owed is reported,
/// once, to an input that listens, with its text; a submit is told to its
/// node with the text. A job that owes no report changes nothing.
pub proof fn law_jobs_come_back(
    u: UiModel,
    id: NodeId,
    action: KeyAction,
    text: Seq<char>,
    generation: u64,
    now: Seq<char>,
)
    ensures
        ({
            let owed = u.inputs.inputs.dom().contains(id.0) && !(u.inputs.notified.dom().contains(
                id.0,
            ) && u.inputs.notified[id.0] == generation);
            let told = if owed {
                UiModel {
                    inputs: u.inputs.reported(id.0, generation),
                    a11y_stale: true,
                    events: if u.host.props_of(id).listeners & 0x080 != 0 {
                        u.events.push(UiEventModel { text: now, ..UiEventModel::bare(11, id.0) })
                    } else {
                        u.events
                    },
                    ..u
                }
            } else {
                u
            };
            &&& u.settled(JobModel::Act { id, action, notify: true }, generation, now) == told
            &&& u.settled(JobModel::Commit { id, text }, generation, now) == told
            &&& u.settled(JobModel::SetText { id, text, notify: true }, generation, now) == told
        }),
        u.settled(JobModel::Act { id, action, notify: false }, generation, now) == u,
        u.settled(JobModel::SetText { id, text, notify: false }, generation, now) == u,
        u.settled(JobModel::FinishCompose { id }, generation, now) == u,
        u.settled(JobModel::Forget { id }, generation, now) == u,
        u.settled(JobModel::Submit { id }, generation, now) == (UiModel {
            events: u.events.push(UiEventModel { text: now, ..UiEventModel::bare(12, id.0) }),
            ..u
        }),
{
}

// ------------------------------------------------------------------ ops and commands

/// Commands: focus and blur move the focus, blur only from the node that has
/// it; a text goes to the editor without a report, and the node is laid out
/// again; a scroll goes where it says.
pub proof fn law_commands_are_done(u: UiModel, id: NodeId, text: Seq<char>, x: Scalar, y: Scalar)
    ensures
        u.commanded(id, CommandModel::Focus) == u.focused(Some(id)),
        u.focus == Some(id) ==> u.commanded(id, CommandModel::Blur) == u.focused(None),
        u.focus != Some(id) ==> u.commanded(id, CommandModel::Blur) == u,
        ({
            let v = u.commanded(id, CommandModel::SetInputText(text));
            &&& v.jobs == u.jobs.push(JobModel::SetText { id, text, notify: false })
            &&& v == (UiModel { jobs: v.jobs, host: v.host, ..u })
            &&& v.host.paint_dirty
            &&& u.host.alive(id) ==> v.host.header(id).flags.0 & 1u8 != 0
        }),
        u.commanded(id, CommandModel::ScrollTo(x, y)) == u.scrolled_to(id, x, y),
{
    if u.host.alive(id) {
        let b = u.host.header(id).flags.0;
        assert((b | 1u8) & 1u8 != 0) by (bit_vector);
    }
}

/// A command op is the command on its node.
pub proof fn law_command_op(u: UiModel, id: u32, cmd: CommandModel)
    ensures
        u.effect(OpModel::Command { id, cmd }) == u.commanded(NodeId(id), cmd),
{
}

/// A payload is stored as it came, and repainted; a name too, and an empty one
/// takes the name away. Other nodes keep theirs, and nothing else changes.
pub proof fn law_payloads_and_names_arrive(
    u: UiModel,
    id: u32,
    payload: CustomModel,
    name: Seq<char>,
)
    ensures
        u.effect(
            OpModel::Custom { id, tag: payload.tag, data: payload.data, text: payload.text },
        ) == (UiModel {
            custom: u.custom.insert(id, payload),
            host: owing_paint(u.host),
            ..u
        }),
        name.len() > 0 ==> u.effect(OpModel::Label { id, text: name }) == (UiModel {
            labels: u.labels.insert(id, name),
            ..u
        }),
        u.effect(OpModel::Label { id, text: Seq::empty() }) == (UiModel {
            labels: u.labels.remove(id),
            ..u
        }),
{
}

/// An input's configuration is stored, its editor is told to follow, and it is
/// laid out again.
pub proof fn law_input_props_arrive(
    u: UiModel,
    id: u32,
    font_size: Scalar,
    color: u32,
    placeholder: Seq<char>,
    multiline: bool,
)
    ensures
        ({
            let v = u.effect(
                OpModel::InputProps { id, font_size, color, placeholder, multiline },
            );
            let st = v.inputs.inputs[id];
            &&& v.inputs.inputs.dom().contains(id)
            &&& st.color == color && st.placeholder == placeholder && st.multiline == multiline
            &&& st.font_size == font_size || st.font_size.equals(font_size)
            &&& v.jobs.len() == u.jobs.len() + 1
            &&& v.jobs.drop_last() == u.jobs
            &&& v.jobs.last() matches JobModel::Configure { id: on, how }
            &&& on == NodeId(id)
            &&& how is Made <==> !u.inputs.inputs.dom().contains(id)
            &&& how matches Configured::Changed { font_size: size, color: brush } ==> {
                &&& size <==> !u.inputs.inputs[id].font_size.equals(font_size)
                &&& brush <==> u.inputs.inputs[id].color != color
            }
            &&& v == (UiModel { inputs: v.inputs, jobs: v.jobs, host: v.host, ..u })
            &&& v.host.paint_dirty
            &&& u.host.alive(NodeId(id)) ==> v.host.header(NodeId(id)).flags.0 & 1u8 != 0
        }),
{
    if u.host.alive(NodeId(id)) {
        let b = u.host.header(NodeId(id)).flags.0;
        assert((b | 1u8) & 1u8 != 0) by (bit_vector);
    }
    let v = u.effect(OpModel::InputProps { id, font_size, color, placeholder, multiline });
    assert(v.jobs.drop_last() =~= u.jobs);
}

/// A created or removed slot drops its editor; a removed node loses the focus,
/// the pointer and the capture, and only it does. What belongs to other nodes
/// stays.
pub proof fn law_slots_are_forgotten(u: UiModel, id: u32, kind: u8, other: u32)
    requires
        other != id,
    ensures
        ({
            let a = u.effect(OpModel::Create { id, kind });
            let b = u.effect(OpModel::Remove { id });
            &&& a.jobs == u.jobs.push(JobModel::Forget { id: NodeId(id) })
            &&& b.jobs == u.jobs.push(JobModel::Forget { id: NodeId(id) })
            &&& a.focus == u.focus && a.hover == u.hover && a.pressed == u.pressed
            &&& b.focus == (if u.focus == Some(NodeId(id)) {
                None
            } else {
                u.focus
            })
            &&& b.hover == (if u.hover == Some(NodeId(id)) {
                None
            } else {
                u.hover
            })
            &&& b.pressed == (if u.pressed == Some(NodeId(id)) {
                None
            } else {
                u.pressed
            })
            &&& b.events == u.events && a.events == u.events
            &&& a.offset_of(NodeId(other)) == u.offset_of(NodeId(other))
            &&& b.offset_of(NodeId(other)) == u.offset_of(NodeId(other))
            &&& a.custom.dom().contains(other) == u.custom.dom().contains(other)
            &&& a.custom[other] == u.custom[other]
            &&& b.custom.dom().contains(other) == u.custom.dom().contains(other)
            &&& b.labels.dom().contains(other) == u.labels.dom().contains(other)
            &&& b.labels[other] == u.labels[other]
            &&& a.labels.dom().contains(other) == u.labels.dom().contains(other)
            &&& a.inputs.inputs.dom().contains(other) == u.inputs.inputs.dom().contains(other)
            &&& a.inputs.inputs[other] == u.inputs.inputs[other]
            &&& b.inputs.inputs.dom().contains(other) == u.inputs.inputs.dom().contains(other)
            &&& b.inputs.inputs[other] == u.inputs.inputs[other]
        }),
{
}

/// Ops that only write to the tree or the styles do nothing else here.
pub proof fn law_tree_ops_have_no_other_effect(u: UiModel, op: OpModel)
    requires
        !(op is Create || op is Remove || op is InputProps || op is Command || op is Custom
            || op is Label),
    ensures
        u.effect(op) == u,
{
}

/// Effects come in the order of the ops, each once.
pub proof fn law_effects_come_in_order(u: UiModel, a: Seq<OpModel>, b: Seq<OpModel>, k: nat)
    requires
        k <= b.len(),
    ensures
        u.effects(a + b, a.len() + k) == u.effects(a, a.len()).effects(b, k),
        u.effects(Seq::empty(), 0) == u,
    decreases k,
{
    if k == 0 {
        lemma_effects_prefix(u, a, b, a.len());
    } else {
        law_effects_come_in_order(u, a, b, (k - 1) as nat);
        assert((a + b)[a.len() + k - 1] == b[k - 1]);
    }
}

proof fn lemma_effects_prefix(u: UiModel, a: Seq<OpModel>, b: Seq<OpModel>, k: nat)
    requires
        k <= a.len(),
    ensures
        u.effects(a + b, k) == u.effects(a, k),
    decreases k,
{
    if k > 0 {
        lemma_effects_prefix(u, a, b, (k - 1) as nat);
        assert((a + b)[k - 1] == a[k - 1]);
    }
}

/// The effect of a transaction of one op is the effect of that op.
pub proof fn law_one_effect(u: UiModel, op: OpModel)
    ensures
        u.effects(seq![op], 1) == u.effect(op),
{
    reveal_with_fuel(UiModel::effects, 2);
}

/// A commit: the tree and the styles are those after all its ops, the effects
/// are those of its ops, its number is the last one applied, and a new
/// semantic tree is owed. An empty commit changes nothing else.
pub proof fn law_commits_leave_their_number(u: UiModel, txn: TxnModel)
    ensures
        committed(u, txn).seq == txn.seq,
        committed(u, txn).a11y_stale,
        txn.ops.len() == 0 ==> committed(u, txn) == (UiModel {
            seq: txn.seq,
            a11y_stale: true,
            ..u
        }),
{
    reveal_with_fuel(UiModel::effects, 1);
    lemma_effects_keep_number(u, txn.ops, txn.ops.len());
}

proof fn lemma_effects_keep_number(u: UiModel, ops: Seq<OpModel>, k: nat)
    ensures
        u.effects(ops, k).seq == u.seq,
    decreases k,
{
    if k > 0 {
        lemma_effects_keep_number(u, ops, (k - 1) as nat);
    }
}

/// A commit of one op: the tree and the styles are those after the op, but for
/// what its effect marks, and the rest is its effect.
pub proof fn law_commit_of_one_op(u: UiModel, seq: u64, op: OpModel)
    ensures
        committed(u, TxnModel { seq, ops: seq![op] }) == (UiModel {
            seq,
            a11y_stale: true,
            ..UiModel {
                host: host_after(u.host, op),
                layouts: layouts_after(u.layouts, u.host, op),
                ..u
            }.effect(op)
        }),
{
    let ops = seq![op];
    reveal_with_fuel(host_run, 2);
    reveal_with_fuel(layouts_run, 2);
    reveal_with_fuel(UiModel::effects, 2);
    assert(ops[0] == op);
}

/// A fresh core is empty, aims at nothing, has nothing to tell and owes a
/// semantic tree; it is cleared to a dark grey.
pub proof fn law_fresh_core(scale: Scalar)
    ensures
        ({
            let u = UiModel::fresh(scale);
            &&& u.host == HostModel::empty() && u.layouts == LayoutsModel::empty()
            &&& u.focus is None && u.hover is None && u.pressed is None && u.last_click is None
            &&& u.events.len() == 0 && u.jobs.len() == 0
            &&& u.scroll == Map::<u32, Point>::empty()
            &&& u.custom == Map::<u32, CustomModel>::empty()
            &&& u.labels == Map::<u32, Seq<char>>::empty()
            &&& u.scale == scale && u.clear == 0x1415_18FF && u.seq == 0
            &&& u.a11y_stale
        }),
{
}

/// A scroll moves a node exactly where the offset that it leads to is another
/// one.
pub proof fn law_scroll_moves_to_another_offset(u: UiModel, id: NodeId, x: Scalar, y: Scalar)
    requires
        u.host.alive(id),
        scrolls_on(u, id, false) || scrolls_on(u, id, true),
    ensures
        ({
            let was = u.offset_of(id);
            let at = u.scroll_goal(id, x, y);
            &&& u.scroll_moves(id, x, y) <==> !(was.x.equals(at.x) && was.y.equals(at.y))
            &&& u.scroll_moves(id, x, y) ==> u.scrolled_to(id, x, y).offset_of(id) == at
            &&& !u.scroll_moves(id, x, y) ==> u.scrolled_to(id, x, y).offset_of(id) == was
        }),
{
}

/// A node that was never scrolled stands at the origin.
pub proof fn law_unscrolled_nodes_stand_at_the_origin(u: UiModel, id: NodeId)
    ensures
        !u.scroll.dom().contains(id.0) ==> u.offset_of(id).x == Scalar(0) && u.offset_of(id).y
            == Scalar(0),
        u.scroll.dom().contains(id.0) ==> u.offset_of(id) == u.scroll[id.0],
{
}

/// The platform composes text exactly while an input has the focus.
pub proof fn law_composing_follows_the_focus(u: UiModel)
    ensures
        u.composing() ==> u.focus is Some && edits_text(u.host, u.focus.unwrap()),
        u.focus is Some && edits_text(u.host, u.focus.unwrap()) ==> u.composing(),
{
}

/// A new size leaves no solver cache filled, owes a repaint, and keeps all
/// else.
pub proof fn law_new_size_lays_out_anew(u: UiModel, i: int)
    ensures
        ({
            let v = u.uncached();
            &&& v.host == owing_paint(u.host)
            &&& v.layouts.caches.len() >= u.host.nodes.len()
            &&& 0 <= i < v.layouts.caches.len() ==> v.layouts.caches[i].is_empty()
            &&& v.layouts == (LayoutsModel { caches: v.layouts.caches, ..u.layouts })
            &&& v == (UiModel { host: v.host, layouts: v.layouts, ..u })
        }),
{
}

/// What is taken is taken whole and alone: no event or job is left, and what
/// was told of the semantic tree is no longer owed.
pub proof fn law_queues_are_emptied_alone(u: UiModel)
    ensures
        u.without_events().events.len() == 0,
        u.without_events() == (UiModel { events: u.without_events().events, ..u }),
        u.without_jobs().jobs.len() == 0,
        u.without_jobs() == (UiModel { jobs: u.without_jobs().jobs, ..u }),
        !u.with_fresh_a11y().a11y_stale,
        u.with_fresh_a11y() == (UiModel { a11y_stale: false, ..u }),
{
}

} // verus!
