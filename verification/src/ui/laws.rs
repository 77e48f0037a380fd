//! What holds of the interaction core as a whole.

use super::model::{
    addressed, first_focusable, focus_ring, is_input, lacking, listeners, listens, next_stop, packed,
    point_of, takes_focus, Facts, JobModel, UiModel,
};
use crate::events::out::mask_of;
use crate::events::{mask, out_kind, Button, Event, Mods, UiEventModel};
use crate::host::model::{lemma_position, position, HostModel};
use crate::host::tree::law_document_has_no_duplicates;
use crate::host::NodeId;
use crate::input::KeyAction;
use crate::scalar::Scalar;
use vstd::prelude::*;

verus! {

// ----------------------------------------------------------------------- focus

/// What takes focus comes from the list, in its order, each at most once
/// where the list has no duplicates.
proof fn lemma_ring(m: HostModel, list: Seq<NodeId>)
    ensures
        forall|x: NodeId| #[trigger]
            focus_ring(m, list).contains(x) ==> list.contains(x) && takes_focus(m, x),
        list.no_duplicates() ==> focus_ring(m, list).no_duplicates(),
    decreases list.len(),
{
    if list.len() > 0 {
        let head = list.drop_last();
        lemma_ring(m, head);
        let r = focus_ring(m, list);
        let h = focus_ring(m, head);
        assert forall|x: NodeId| #[trigger] r.contains(x) implies list.contains(x) && takes_focus(
            m,
            x,
        ) by {
            let i = choose|i: int| 0 <= i < r.len() && r[i] == x;
            if i < h.len() {
                assert(h[i] == x);
                assert(h.contains(x));
                let j = choose|j: int| 0 <= j < head.len() && head[j] == x;
                assert(list[j] == x);
            } else {
                assert(x == list[list.len() - 1]);
            }
        }
        if list.no_duplicates() {
            assert(head.no_duplicates());
            assert forall|i: int, j: int| 0 <= i < r.len() && 0 <= j < r.len() && i != j implies r[i]
                != r[j] by {
                if i < h.len() && j < h.len() {
                    assert(h[i] != h[j]);
                } else if i < h.len() {
                    assert(h.contains(h[i]));
                    let k = choose|k: int| 0 <= k < head.len() && head[k] == h[i];
                    assert(list[k] != list[list.len() - 1]);
                } else if j < h.len() {
                    assert(h.contains(h[j]));
                    let k = choose|k: int| 0 <= k < head.len() && head[k] == h[j];
                    assert(list[k] != list[list.len() - 1]);
                }
            }
        }
    }
}

proof fn lemma_stop_at(ring: Seq<NodeId>, i: int)
    requires
        ring.no_duplicates(),
        0 <= i < ring.len(),
    ensures
        position(ring, ring[i]) == i,
{
    lemma_position(ring, ring[i]);
    assert(ring.contains(ring[i]));
}

/// Going back undoes going forward, and the other way round, from any stop of
/// the ring.
pub proof fn law_tab_and_back(u: UiModel, f: NodeId)
    requires
        u.host.wf(),
        u.ring().contains(f),
    ensures
        next_stop(u.ring(), Some(next_stop(u.ring(), Some(f), false)), true) == f,
        next_stop(u.ring(), Some(next_stop(u.ring(), Some(f), true)), false) == f,
{
    let ring = u.ring();
    law_document_has_no_duplicates(u.host, u.host.unhidden());
    lemma_ring(u.host, u.host.document(u.host.unhidden()));
    let i = choose|i: int| 0 <= i < ring.len() && ring[i] == f;
    let n = ring.len() as int;
    lemma_stop_at(ring, i);
    lemma_stop_at(
        ring,
        if i + 1 == n {
            0
        } else {
            i + 1
        },
    );
    lemma_stop_at(
        ring,
        if i == 0 {
            n - 1
        } else {
            i - 1
        },
    );
}

/// Tab goes through the whole ring: the stop after the `i`-th is the next one,
/// and after the last comes the first.
pub proof fn law_tab_visits_the_ring(u: UiModel, i: int)
    requires
        u.host.wf(),
        0 <= i < u.ring().len(),
    ensures
        next_stop(u.ring(), Some(u.ring()[i]), false) == u.ring()[(i + 1) % u.ring().len() as int],
        takes_focus(u.host, u.ring()[i]),
{
    law_document_has_no_duplicates(u.host, u.host.unhidden());
    lemma_ring(u.host, u.host.document(u.host.unhidden()));
    lemma_stop_at(u.ring(), i);
    assert(u.ring().contains(u.ring()[i]));
    if i + 1 < u.ring().len() {
        vstd::arithmetic::div_mod::lemma_small_mod((i + 1) as nat, u.ring().len());
    } else {
        assert((i + 1) % u.ring().len() as int == 0) by (nonlinear_arith)
            requires
                i + 1 == u.ring().len(),
                i >= 0,
        ;
    }
}

/// The blur that a focus change queues.
pub open spec fn blur_told(u: UiModel) -> Seq<UiEventModel> {
    match u.focus {
        Some(id) => if listens(u.host, id, mask::FOCUS) {
            seq![UiEventModel::bare(out_kind::BLUR, id.0)]
        } else {
            Seq::empty()
        },
        None => Seq::empty(),
    }
}

/// The focus that a focus change queues.
pub open spec fn focus_told(u: UiModel, next: Option<NodeId>) -> Seq<UiEventModel> {
    match next {
        Some(id) => if u.host.alive(id) && listens(u.host, id, mask::FOCUS) {
            seq![UiEventModel::bare(out_kind::FOCUS, id.0)]
        } else {
            Seq::empty()
        },
        None => Seq::empty(),
    }
}

/// A focus change is told once to each side that listens, the blur before the
/// focus; focusing the focused node again tells nothing.
pub proof fn law_focus_changes_are_told(u: UiModel, next: Option<NodeId>)
    ensures
        u.focused(next).events == (if u.focus == next {
            u.events
        } else {
            u.events + blur_told(u) + focus_told(u, next)
        }),
        u.focused(next).focused(u.focused(next).focus) == u.focused(next),
{
    if u.focus != next {
        assert(u.focused(next).events =~= u.events + blur_told(u) + focus_told(u, next));
    }
}

/// A press focuses the nearest node above the pointer that takes focus, and
/// takes the focus away where there is none.
pub proof fn law_press_moves_the_focus(
    u: UiModel,
    x: Scalar,
    y: Scalar,
    button: Button,
    mods: Mods,
    f: Facts,
)
    ensures
        u.pressed_at(x, y, button, mods, f).focus == first_focusable(
            u.host,
            u.path_from(u.hit(f.placed@, x, y)),
        ),
        u.hit(f.placed@, x, y) is None ==> u.pressed_at(x, y, button, mods, f).focus is None,
{
    lemma_focusable_alive(u.host, u.path_from(u.hit(f.placed@, x, y)));
}

proof fn lemma_focusable_alive(m: HostModel, path: Seq<NodeId>)
    ensures
        first_focusable(m, path) matches Some(id) ==> m.alive(id) && takes_focus(m, id),
    decreases path.len(),
{
    if path.len() > 0 {
        lemma_focusable_alive(m, path.drop_first());
    }
}

// --------------------------------------------------------------------- pointer

/// While a button is held the pressed node owns the pointer: it gets the
/// moves and the release wherever the pointer is, and the release ends the
/// capture.
pub proof fn law_press_captures_the_pointer(
    u: UiModel,
    p: NodeId,
    x: Scalar,
    y: Scalar,
    button: Button,
    f: Facts,
)
    requires
        u.pressed == Some(p),
    ensures
        u.released_at(x, y, button, f) == (UiModel { pressed: None, ..u }).pointed(
            p,
            out_kind::POINTER_UP,
            x,
            y,
            packed(button, Mods::none()),
            f.offset@,
        ),
        u.released_at(x, y, button, f).pressed is None,
        u.moved(x, y, f).pressed == Some(p),
        exists|b: UiModel|
            b.host.nodes == u.host.nodes && u.moved(x, y, f) == #[trigger] b.pointed(
                p,
                out_kind::POINTER_MOVE,
                x,
                y,
                packed(Button::Primary, Mods::none()),
                f.offset@,
            ),
{
    let a = if is_input(u.host, p) {
        let at = point_of(f.content@, p);
        u.with_job(
            JobModel::Act {
                id: p,
                action: KeyAction::ExtendTo(at.x, at.y),
                notify: false,
            },
        ).repainting()
    } else {
        u
    };
    let b = a.hovered(a.hit(f.placed@, x, y), x, y);
    assert(u.moved(x, y, f) == b.pointed(
        p,
        out_kind::POINTER_MOVE,
        x,
        y,
        packed(Button::Primary, Mods::none()),
        f.offset@,
    ));
}

/// The nodes that a list has over another are of the list, and not of the
/// other.
proof fn lemma_lacking(list: Seq<NodeId>, other: Seq<NodeId>)
    ensures
        forall|x: NodeId| #[trigger]
            lacking(list, other).contains(x) <==> list.contains(x) && !other.contains(x),
    decreases list.len(),
{
    let r = lacking(list, other);
    if list.len() > 0 {
        let head = list.drop_last();
        let last = list.last();
        lemma_lacking(head, other);
        let h = lacking(head, other);
        assert forall|x: NodeId| #[trigger] r.contains(x) <==> list.contains(x) && !other.contains(
            x,
        ) by {
            assert(list.contains(x) <==> head.contains(x) || x == last) by {
                if list.contains(x) {
                    let k = choose|k: int| 0 <= k < list.len() && list[k] == x;
                    if k < head.len() {
                        assert(head[k] == x);
                    }
                }
                if head.contains(x) {
                    let k = choose|k: int| 0 <= k < head.len() && head[k] == x;
                    assert(list[k] == x);
                }
                assert(list[list.len() - 1] == last);
            }
            assert(h.contains(x) ==> r.contains(x)) by {
                if h.contains(x) {
                    let k = choose|k: int| 0 <= k < h.len() && h[k] == x;
                    assert(r[k] == x);
                }
            }
            assert(h.contains(x) <==> head.contains(x) && !other.contains(x));
            if r.contains(x) {
                let k = choose|k: int| 0 <= k < r.len() && r[k] == x;
                if k < h.len() {
                    assert(h[k] == x);
                    assert(h.contains(x));
                } else {
                    assert(x == last && !other.contains(last));
                }
            }
            if x == last && !other.contains(last) {
                assert(r[r.len() - 1] == last);
            }
        }
    }
}

/// A node that the pointer stays in, on its way from one node to another,
/// hears neither enter nor leave; no node hears both.
pub proof fn law_enter_and_leave_exclude_each_other(
    before: Seq<NodeId>,
    after: Seq<NodeId>,
    x: NodeId,
)
    ensures
        before.contains(x) && after.contains(x) ==> !lacking(before, after).contains(x)
            && !lacking(after, before).contains(x),
        !(lacking(before, after).contains(x) && lacking(after, before).contains(x)),
{
    lemma_lacking(before, after);
    lemma_lacking(after, before);
}

// ----------------------------------------------------------------------- events

/// An event goes to a node that listens for its kind.
pub open spec fn heard(m: HostModel, e: UiEventModel) -> bool {
    listens(m, NodeId(e.node), mask_of(e.kind))
}

/// Events were only added, each for a node that listens for it.
pub open spec fn told_listeners(
    m: HostModel,
    before: Seq<UiEventModel>,
    after: Seq<UiEventModel>,
) -> bool {
    &&& before.len() <= after.len()
    &&& after.take(before.len() as int) == before
    &&& forall|i: int| before.len() <= i < after.len() ==> heard(m, #[trigger] after[i])
}

proof fn lemma_told_step(
    m: HostModel,
    a: Seq<UiEventModel>,
    b: Seq<UiEventModel>,
    more: Seq<UiEventModel>,
)
    requires
        told_listeners(m, a, b),
        forall|i: int| 0 <= i < more.len() ==> heard(m, #[trigger] more[i]),
    ensures
        told_listeners(m, a, b + more),
{
    let c = b + more;
    assert(c.take(a.len() as int) =~= b.take(a.len() as int));
    assert forall|i: int| a.len() <= i < c.len() implies heard(m, #[trigger] c[i]) by {
        if i < b.len() {
            assert(c[i] == b[i]);
        } else {
            assert(c[i] == more[i - b.len()]);
        }
    }
}

proof fn lemma_listeners(m: HostModel, list: Seq<NodeId>, bits: u32)
    ensures
        forall|i: int|
            0 <= i < listeners(m, list, bits).len() ==> listens(
                m,
                #[trigger] listeners(m, list, bits)[i],
                bits,
            ),
    decreases list.len(),
{
    if list.len() > 0 {
        let head = listeners(m, list.drop_last(), bits);
        lemma_listeners(m, list.drop_last(), bits);
        assert forall|i: int| 0 <= i < listeners(m, list, bits).len() implies listens(
            m,
            #[trigger] listeners(m, list, bits)[i],
            bits,
        ) by {
            if i < head.len() {
                assert(listeners(m, list, bits)[i] == head[i]);
            }
        }
    }
}

proof fn lemma_same_listeners(a: HostModel, b: HostModel, list: Seq<NodeId>, bits: u32)
    requires
        a.props == b.props,
        a.nodes == b.nodes,
    ensures
        listeners(a, list, bits) == listeners(b, list, bits),
    decreases list.len(),
{
    if list.len() > 0 {
        lemma_same_listeners(a, b, list.drop_last(), bits);
        assert(a.props_of(list.last()) == b.props_of(list.last()));
    }
}

proof fn lemma_addressed(m: HostModel, list: Seq<NodeId>, bits: u32, e: UiEventModel)
    requires
        mask_of(e.kind) == bits,
    ensures
        forall|i: int|
            0 <= i < addressed(listeners(m, list, bits), e).len() ==> heard(
                m,
                #[trigger] addressed(listeners(m, list, bits), e)[i],
            ),
{
    lemma_listeners(m, list, bits);
    let l = listeners(m, list, bits);
    assert forall|i: int| 0 <= i < l.len() implies heard(m, #[trigger] addressed(l, e)[i]) by {
        assert(listens(m, l[i], bits));
        assert(NodeId(l[i].0) == l[i]);
    }
}

proof fn lemma_pointed_told(
    u: UiModel,
    b: UiModel,
    hit: NodeId,
    kind: u8,
    x: Scalar,
    y: Scalar,
    key: u32,
    f: Facts,
)
    requires
        b.host.props == u.host.props,
        b.host.nodes == u.host.nodes,
        told_listeners(u.host, u.events, b.events),
    ensures
        told_listeners(u.host, u.events, b.pointed(hit, kind, x, y, key, f.offset@).events),
{
    let l = listeners(b.host, b.host.path_up(hit), mask_of(kind));
    lemma_listeners(b.host, b.host.path_up(hit), mask_of(kind));
    let after = b.pointed(hit, kind, x, y, key, f.offset@).events;
    let more = after.skip(b.events.len() as int);
    assert(after =~= b.events + more);
    assert forall|i: int| 0 <= i < more.len() implies heard(u.host, #[trigger] more[i]) by {
        assert(listens(b.host, l[i], mask_of(kind)));
        assert(NodeId(l[i].0) == l[i]);
    }
    lemma_told_step(u.host, u.events, b.events, more);
}

proof fn lemma_focus_told(u: UiModel, b: UiModel, next: Option<NodeId>)
    requires
        b.host.props == u.host.props,
        b.host.nodes == u.host.nodes,
        told_listeners(u.host, u.events, b.events),
    ensures
        told_listeners(u.host, u.events, b.focused(next).events),
        b.focused(next).host.props == u.host.props,
        b.focused(next).host.nodes == u.host.nodes,
{
    law_focus_changes_are_told(b, next);
    if b.focus != next {
        let x = blur_told(b);
        let y = focus_told(b, next);
        lemma_told_step(u.host, u.events, b.events, x);
        lemma_told_step(u.host, u.events, b.events + x, y);
    }
}

proof fn lemma_path_told(u: UiModel, b: UiModel, path: Seq<NodeId>, e: UiEventModel)
    requires
        b.host.props == u.host.props,
        b.host.nodes == u.host.nodes,
        told_listeners(u.host, u.events, b.events),
    ensures
        told_listeners(u.host, u.events, b.told(path, e).events),
{
    let bits = mask_of(e.kind);
    lemma_same_listeners(b.host, u.host, path, bits);
    lemma_addressed(u.host, path, bits, e);
    lemma_told_step(
        u.host,
        u.events,
        b.events,
        addressed(listeners(u.host, path, bits), e),
    );
}

/// Events are queued in order behind those that wait, and only for nodes that
/// listen for their kind.
pub proof fn law_events_go_to_listeners(u: UiModel, ev: Event, f: Facts)
    ensures
        told_listeners(u.host, u.events, u.dispatched(ev, f).events),
        told_listeners(u.host, u.events, u.finished(ev).events),
{
    assert(u.events.take(u.events.len() as int) =~= u.events);
    match ev {
        Event::PointerMove { x, y } => {
            let a = match u.pressed {
                Some(p) => if is_input(u.host, p) {
                    let at = point_of(f.content@, p);
                    u.with_job(
                        JobModel::Act {
                            id: p,
                            action: KeyAction::ExtendTo(at.x, at.y),
                            notify: false,
                        },
                    ).repainting()
                } else {
                    u
                },
                None => u,
            };
            let hit = a.hit(f.placed@, x, y);
            let b = a.hovered(hit, x, y);
            if hit != a.hover {
                let before = a.path_from(a.hover);
                let after = a.path_from(hit);
                let bits = mask::POINTER_ENTER_LEAVE;
                let leave = UiEventModel { x, y, ..UiEventModel::bare(out_kind::POINTER_LEAVE, 0) };
                let enter = UiEventModel { x, y, ..UiEventModel::bare(out_kind::POINTER_ENTER, 0) };
                let gone = lacking(before, after);
                let come = lacking(after, before);
                lemma_same_listeners(a.host, u.host, gone, bits);
                lemma_same_listeners(a.host, u.host, come, bits);
                lemma_addressed(u.host, gone, bits, leave);
                lemma_addressed(u.host, come, bits, enter);
                let l = addressed(listeners(u.host, gone, bits), leave);
                let e = addressed(listeners(u.host, come, bits), enter);
                lemma_told_step(u.host, u.events, a.events, l);
                lemma_told_step(u.host, u.events, a.events + l, e);
                assert(a.events + (l + e) =~= a.events + l + e);
            }
            let target = if b.pressed is Some {
                b.pressed
            } else {
                hit
            };
            if let Some(t) = target {
                lemma_pointed_told(
                    u,
                    b,
                    t,
                    out_kind::POINTER_MOVE,
                    x,
                    y,
                    packed(Button::Primary, Mods::none()),
                    f,
                );
            }
        },
        Event::PointerDown { x, y, button, mods } => {
            let hit = u.hit(f.placed@, x, y);
            let a = UiModel { pressed: hit, ..u };
            let next = first_focusable(u.host, u.path_from(hit));
            lemma_focus_told(u, a, next);
            let b = a.focused(next);
            if let Some(id) = hit {
                let c = if is_input(b.host, id) && button == Button::Primary {
                    b.caret_placed(id, mods, f)
                } else {
                    b
                };
                lemma_pointed_told(
                    u,
                    c,
                    id,
                    out_kind::POINTER_DOWN,
                    x,
                    y,
                    packed(button, mods),
                    f,
                );
            }
        },
        Event::PointerUp { x, y, button } => {
            let a = UiModel { pressed: None, ..u };
            let target = if u.pressed is Some {
                u.pressed
            } else {
                u.hit(f.placed@, x, y)
            };
            if let Some(t) = target {
                lemma_pointed_told(
                    u,
                    a,
                    t,
                    out_kind::POINTER_UP,
                    x,
                    y,
                    packed(button, Mods::none()),
                    f,
                );
            }
        },
        Event::Wheel { x, y, dx, dy } => {
            if let Some(hit) = u.hit(f.placed@, x, y) {
                let a = match u.wheel_target(hit) {
                    None => u,
                    Some(id) => {
                        let to = point_of(f.scrolled@, id);
                        let s = u.scrolled_to(id, to.x, to.y);
                        let goal = u.scroll_goal(id, to.x, to.y);
                        if u.scroll_moves(id, to.x, to.y) && listens(u.host, id, mask::SCROLL) {
                            let e = UiEventModel {
                                a: goal.x,
                                b: goal.y,
                                ..UiEventModel::bare(out_kind::SCROLL, id.0)
                            };
                            lemma_told_step(u.host, u.events, s.events, seq![e]);
                            assert(s.events.push(e) =~= s.events + seq![e]);
                            s.with_event(e)
                        } else {
                            s
                        }
                    },
                };
                lemma_path_told(
                    u,
                    a,
                    a.host.path_up(hit),
                    UiEventModel {
                        x,
                        y,
                        a: dx,
                        b: dy,
                        ..UiEventModel::bare(out_kind::WHEEL, hit.0)
                    },
                );
            }
        },
        Event::KeyDown(k) => {
            if u.ring().len() > 0 {
                lemma_focus_told(u, u, Some(next_stop(u.ring(), u.focus, k.mods.shift)));
            }
            let a = u.tabbed(k);
            lemma_focus_told(u, a, None);
            let e = UiModel::key_event(out_kind::KEY_DOWN, k);
            match u.focus {
                Some(id) => lemma_path_told(u, u, u.host.path_up(id), e),
                None => lemma_path_told(u, u, u.host.document(u.host.every()), e),
            }
        },
        Event::KeyUp(k) => {
            if let Some(id) = u.focus {
                lemma_path_told(
                    u,
                    u,
                    u.host.path_up(id),
                    UiModel::key_event(out_kind::KEY_UP, k),
                );
            }
        },
        _ => {},
    }
}

// ----------------------------------------------------------------------- scroll

/// The offset of a node lies between nothing and its extent.
pub open spec fn in_extent(u: UiModel, id: NodeId) -> bool {
    let o = u.offset_of(id);
    let e = u.layouts.data(id).scroll_extent;
    &&& !o.x.nan() && !o.x.below(Scalar(0)) && !e.x.below(o.x)
    &&& !o.y.nan() && !o.y.below(Scalar(0)) && !e.y.below(o.y)
}

/// Scrolling never leaves the extent, whatever number is asked for.
pub proof fn law_scroll_stays_in_extent(u: UiModel, id: NodeId, x: Scalar, y: Scalar)
    requires
        u.layouts.wf(),
        in_extent(u, id),
        !x.nan(),
        !y.nan(),
    ensures
        in_extent(u.scrolled_to(id, x, y), id),
{
}

/// Scrolling to where a node already is moves nothing.
pub proof fn law_scroll_settles(u: UiModel, id: NodeId)
    requires
        in_extent(u, id),
    ensures
        !u.scroll_moves(id, u.offset_of(id).x, u.offset_of(id).y),
{
}

} // verus!
