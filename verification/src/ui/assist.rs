//! What assistive technology is told of a document, and what its requests come
//! to.

use super::answers::edits_text;
use super::hit::Edges;
use super::model::{JobModel, UiModel};
use super::state::{moves_into, requested, scrolling_on, A11yOutcome, A11yRequest};
use super::visible::{cuts, exposed, shown as takes_part};
use crate::a11y::{shown, A11yAction, A11yId, A11yModel};
use crate::host::tree::{
    law_document_keeps_open_paths, lemma_child_in_trees, lemma_forest_below, lemma_height,
    lemma_in_forest, lemma_trees_below,
};
use crate::host::NodeId;
use crate::scalar::Scalar;
use crate::style::Overflow;
use vstd::prelude::*;

verus! {

// ---------------------------------------------------------------------- each node

/// A node scrolls on an axis.
pub open spec fn rolls(u: UiModel, id: NodeId, vertical: bool) -> bool {
    let o = u.layouts.style_of(u.host, id).overflow;
    if vertical {
        o.y == Overflow::Scroll
    } else {
        o.x == Overflow::Scroll
    }
}

/// A node hears presses or releases.
pub open spec fn taps(u: UiModel, id: NodeId) -> bool {
    u.host.props_of(id).listeners & 6 != 0
}

/// The role of a node: text is a label, an input a text field of one or more
/// lines; any other node is a scroll view where it scrolls, else a button
/// where it hears presses, else a container.
pub proof fn law_roles_follow_the_node(u: UiModel, id: NodeId, values: Seq<Option<String>>)
    ensures
        ({
            let kind = u.host.header(id).kind as int % 0x8000;
            let role = u.described(id, values).role;
            let lines = u.inputs.inputs.dom().contains(id.0) && u.inputs.inputs[id.0].multiline;
            &&& role is Label <==> kind == 1
            &&& role is TextInput <==> kind == 2 && !lines
            &&& role is MultilineTextInput <==> kind == 2 && lines
            &&& role is ScrollView <==> kind != 1 && kind != 2 && (rolls(u, id, false) || rolls(
                u,
                id,
                true,
            ))
            &&& role is Button <==> kind != 1 && kind != 2 && !rolls(u, id, false) && !rolls(
                u,
                id,
                true,
            ) && taps(u, id)
            &&& !(role is Window)
        }),
{
}

/// What a node offers: text nothing, an input to take and lose the focus and
/// to have its text replaced, any other node a click where it hears presses
/// and the scrolls of the axes that it scrolls on; and the focus, where it is
/// focusable.
pub proof fn law_offers_follow_the_node(u: UiModel, id: NodeId, values: Seq<Option<String>>)
    ensures
        ({
            let kind = u.host.header(id).kind as int % 0x8000;
            let actions = u.described(id, values).actions;
            let focus = if u.host.props_of(id).focusable {
                seq![A11yAction::Focus]
            } else {
                Seq::empty()
            };
            let click = if taps(u, id) {
                seq![A11yAction::Click]
            } else {
                Seq::empty()
            };
            let sideways = if rolls(u, id, false) {
                seq![A11yAction::ScrollLeft, A11yAction::ScrollRight]
            } else {
                Seq::empty()
            };
            let upright = if rolls(u, id, true) {
                seq![A11yAction::ScrollUp, A11yAction::ScrollDown]
            } else {
                Seq::empty()
            };
            &&& kind == 1 ==> actions == focus
            &&& kind == 2 ==> actions == seq![
                A11yAction::Focus,
                A11yAction::Blur,
                A11yAction::ReplaceSelectedText,
            ]
            &&& kind != 1 && kind != 2 ==> actions == click + sideways + upright + focus
        }),
{
    let kind = u.host.header(id).kind as int % 0x8000;
    let focus: Seq<A11yAction> = if u.host.props_of(id).focusable {
        seq![A11yAction::Focus]
    } else {
        Seq::empty()
    };
    let click: Seq<A11yAction> = if taps(u, id) {
        seq![A11yAction::Click]
    } else {
        Seq::empty()
    };
    let sideways: Seq<A11yAction> = if rolls(u, id, false) {
        seq![A11yAction::ScrollLeft, A11yAction::ScrollRight]
    } else {
        Seq::empty()
    };
    let upright: Seq<A11yAction> = if rolls(u, id, true) {
        seq![A11yAction::ScrollUp, A11yAction::ScrollDown]
    } else {
        Seq::empty()
    };
    let actions = u.described(id, values).actions;
    if kind == 1 {
        assert(actions =~= focus);
    } else if kind != 2 {
        assert(actions =~= click + sideways + upright + focus);
    }
}

/// What a node is told with: its id, its name, its text where it is one, what
/// was typed where it is an input, and the placeholder that shows in it.
pub proof fn law_contents_are_told(u: UiModel, id: NodeId, values: Seq<Option<String>>)
    ensures
        ({
            let d = u.described(id, values);
            let kind = u.host.header(id).kind as int % 0x8000;
            &&& d.id.0 == id.0 + 1
            &&& d.label is Some <==> u.labels.dom().contains(id.0)
            &&& d.label is Some ==> d.label == Some(u.labels[id.0])
            &&& kind == 1 && u.host.text_of(id) is Some ==> d.value == Some(
                u.host.text_of(id).unwrap().text,
            )
            &&& kind == 2 && id.0 < values.len() && values[id.0 as int] is Some ==> d.value == Some(
                values[id.0 as int].unwrap()@,
            )
            &&& kind == 2 && !(id.0 < values.len() && values[id.0 as int] is Some) ==> d.value
                == Some(Seq::<char>::empty())
            &&& kind != 1 && kind != 2 ==> d.value is None
            &&& d.placeholder is Some <==> edits_text(u.host, id)
                && u.inputs.inputs.dom().contains(id.0)
                && u.inputs.inputs[id.0].placeholder.len() > 0
            &&& d.placeholder is Some ==> d.placeholder == Some(u.inputs.inputs[id.0].placeholder)
            &&& d.clips <==> cuts(u.host, u.layouts, id)
        }),
{
}

/// The nodes of a list that take part.
pub open spec fn taking_part(u: UiModel) -> spec_fn(NodeId) -> bool {
    |n: NodeId| takes_part(u.host, u.layouts, n)
}

proof fn lemma_shown(u: UiModel, list: Seq<NodeId>)
    ensures
        shown(u.host, u.layouts, list) == list.filter(taking_part(u)).map_values(
            |n: NodeId| A11yId((n.0 + 1) as u64),
        ),
    decreases list.len(),
{
    reveal(Seq::filter);
    let ids = list.filter(taking_part(u)).map_values(|n: NodeId| A11yId((n.0 + 1) as u64));
    if list.len() > 0 {
        lemma_shown(u, list.drop_last());
        let before = list.drop_last().filter(taking_part(u));
        assert(shown(u.host, u.layouts, list) =~= ids);
    } else {
        assert(list.filter(taking_part(u)) =~= Seq::<NodeId>::empty());
        assert(shown(u.host, u.layouts, list) =~= ids);
    }
}

/// A node is told with those of its children that take part, in order; the
/// window with those of the roots.
pub proof fn law_children_are_told_in_order(u: UiModel, id: NodeId, values: Seq<Option<String>>)
    ensures
        u.described(id, values).children == u.host.list(id).filter(taking_part(u)).map_values(
            |n: NodeId| A11yId((n.0 + 1) as u64),
        ),
        u.a11y_window().children == u.host.roots.filter(taking_part(u)).map_values(
            |n: NodeId| A11yId((n.0 + 1) as u64),
        ),
        u.a11y_window().id.0 == 0,
        u.a11y_window().role is Window,
{
    lemma_shown(u, u.host.list(id));
    lemma_shown(u, u.host.roots);
}

// ---------------------------------------------------------------------- the whole

/// A node that is not suppressed.
spec fn open_to(u: UiModel) -> spec_fn(NodeId) -> bool {
    |n: NodeId| !u.layouts.suppressed(u.host, n)
}

proof fn lemma_told_below(u: UiModel, p: NodeId, k: nat, j: nat, n: A11yModel, values: Seq<Option<String>>)
    requires
        u.host.wf(),
        p.0 < u.host.nodes.len(),
        j < k <= u.host.list(p).len(),
        u.a11y(u.host.list(p)[j as int], values).contains(n),
    ensures
        u.a11y_below(p, k, values).contains(n),
    decreases k,
{
    let a = u.a11y_below(p, (k - 1) as nat, values);
    let b = u.a11y(u.host.list(p)[k - 1], values);
    lemma_height(u.host, p, k - 1);
    assert(u.a11y_below(p, k, values) == a + b);
    if j + 1 == k {
        let i = choose|i: int| 0 <= i < b.len() && b[i] == n;
        assert((a + b)[a.len() + i] == n);
    } else {
        lemma_told_below(u, p, (k - 1) as nat, j, n, values);
        let i = choose|i: int| 0 <= i < a.len() && a[i] == n;
        assert((a + b)[i] == n);
    }
}

proof fn lemma_told(u: UiModel, id: NodeId, x: NodeId, values: Seq<Option<String>>)
    requires
        u.host.wf(),
        u.host.tree(id, open_to(u)).contains(x),
    ensures
        u.a11y(id, values).contains(u.described(x, values)),
    decreases u.host.height(id),
{
    let m = u.host;
    let keep = open_to(u);
    let t = m.tree(id, keep);
    let below = u.a11y_below(id, m.list(id).len(), values);
    let all = u.a11y(id, values);
    assert(all == below.push(u.described(id, values)));
    if x == id {
        assert(all[below.len() as int] == u.described(id, values));
    } else {
        let i = choose|i: int| 0 <= i < t.len() && t[i] == x;
        let rest = m.trees(id, 0, keep);
        assert(t == seq![id] + rest);
        assert(rest[i - 1] == x);
        let j = lemma_trees_below(m, id, 0, keep, x);
        lemma_height(m, id, j);
        lemma_told(u, m.list(id)[j], x, values);
        lemma_told_below(u, id, m.list(id).len(), j as nat, u.described(x, values), values);
        let k = choose|k: int| 0 <= k < below.len() && below[k] == u.described(x, values);
        assert(all[k] == below[k]);
    }
}

proof fn lemma_tells_below(
    u: UiModel,
    p: NodeId,
    k: nat,
    n: A11yModel,
    values: Seq<Option<String>>,
) -> (x: NodeId)
    requires
        u.host.wf(),
        p.0 < u.host.nodes.len(),
        k <= u.host.list(p).len(),
        u.a11y_below(p, k, values).contains(n),
    ensures
        n == u.described(x, values),
        u.host.trees(p, 0, open_to(u)).contains(x),
    decreases u.host.height(p), 0int, k,
{
    let a = u.a11y_below(p, (k - 1) as nat, values);
    let c = u.host.list(p)[k - 1];
    let b = u.a11y(c, values);
    lemma_height(u.host, p, k - 1);
    let i = choose|i: int| 0 <= i < (a + b).len() && (a + b)[i] == n;
    if i < a.len() {
        assert(a[i] == n);
        lemma_tells_below(u, p, (k - 1) as nat, n, values)
    } else {
        assert(b[i - a.len()] == n);
        let x = lemma_tells(u, c, n, values);
        lemma_child_in_trees(u.host, p, 0, (k - 1) as nat, open_to(u), x);
        x
    }
}

proof fn lemma_tells(u: UiModel, id: NodeId, n: A11yModel, values: Seq<Option<String>>) -> (x:
    NodeId)
    requires
        u.host.wf(),
        u.a11y(id, values).contains(n),
    ensures
        n == u.described(x, values),
        u.host.tree(id, open_to(u)).contains(x),
    decreases u.host.height(id), 1int, 0nat,
{
    let m = u.host;
    let keep = open_to(u);
    let below = u.a11y_below(id, m.list(id).len(), values);
    let all = u.a11y(id, values);
    let t = m.tree(id, keep);
    let rest = m.trees(id, 0, keep);
    assert(t == seq![id] + rest);
    let i = choose|i: int| 0 <= i < all.len() && all[i] == n;
    if i < below.len() {
        assert(below[i] == n);
        let x = lemma_tells_below(u, id, m.list(id).len(), n, values);
        let k = choose|k: int| 0 <= k < rest.len() && rest[k] == x;
        assert(t[k + 1] == x);
        x
    } else {
        assert(t[0] == id);
        id
    }
}

proof fn lemma_root_told(u: UiModel, k: nat, j: nat, n: A11yModel, values: Seq<Option<String>>)
    requires
        u.host.wf(),
        j < k <= u.host.roots.len(),
        u.a11y(u.host.roots[j as int], values).contains(n),
    ensures
        u.a11y_roots(k, values).contains(n),
    decreases k,
{
    let a = u.a11y_roots((k - 1) as nat, values);
    let b = u.a11y(u.host.roots[k - 1], values);
    assert(u.a11y_roots(k, values) == a + b);
    if j + 1 == k {
        let i = choose|i: int| 0 <= i < b.len() && b[i] == n;
        assert((a + b)[a.len() + i] == n);
    } else {
        lemma_root_told(u, (k - 1) as nat, j, n, values);
        let i = choose|i: int| 0 <= i < a.len() && a[i] == n;
        assert((a + b)[i] == n);
    }
}

proof fn lemma_root_tells(u: UiModel, k: nat, n: A11yModel, values: Seq<Option<String>>) -> (x:
    NodeId)
    requires
        u.host.wf(),
        k <= u.host.roots.len(),
        u.a11y_roots(k, values).contains(n),
    ensures
        n == u.described(x, values),
        u.host.document(open_to(u)).contains(x),
    decreases k,
{
    let a = u.a11y_roots((k - 1) as nat, values);
    let c = u.host.roots[k - 1];
    let b = u.a11y(c, values);
    let i = choose|i: int| 0 <= i < (a + b).len() && (a + b)[i] == n;
    if i < a.len() {
        assert(a[i] == n);
        lemma_root_tells(u, (k - 1) as nat, n, values)
    } else {
        assert(b[i - a.len()] == n);
        let x = lemma_tells(u, c, n, values);
        lemma_in_forest(u.host, u.host.roots, (k - 1) as nat, open_to(u), x);
        x
    }
}

proof fn lemma_open_is_exposed(u: UiModel, x: NodeId)
    requires
        u.host.wf(),
    ensures
        u.host.document(open_to(u)).contains(x) <==> exposed(u.host, u.layouts, x),
{
    let keep = open_to(u);
    law_document_keeps_open_paths(u.host, keep, x);
    assert forall|a: NodeId| keep(a) <==> takes_part(u.host, u.layouts, a) by {}
    if u.host.document(keep).contains(x) {
        assert forall|a: NodeId| #[trigger] u.host.path_up(x).contains(a) implies takes_part(
            u.host,
            u.layouts,
            a,
        ) by {
            assert(keep(a));
        }
    }
    if exposed(u.host, u.layouts, x) {
        assert forall|a: NodeId| #[trigger] u.host.path_up(x).contains(a) implies keep(a) by {
            assert(takes_part(u.host, u.layouts, a));
        }
    }
}

/// Every node that is exposed is told.
pub proof fn law_exposed_nodes_are_told(u: UiModel, x: NodeId, values: Seq<Option<String>>)
    requires
        u.host.wf(),
        exposed(u.host, u.layouts, x),
    ensures
        u.a11y_all(values).contains(u.described(x, values)),
{
    lemma_open_is_exposed(u, x);
    let n = u.host.roots.len();
    let d = u.described(x, values);
    let j = lemma_forest_below(u.host, open_to(u), u.host.roots, x);
    lemma_told(u, u.host.roots[j], x, values);
    lemma_root_told(u, n, j as nat, d, values);
    let all = u.a11y_roots(n, values);
    let i = choose|i: int| 0 <= i < all.len() && all[i] == d;
    assert(u.a11y_all(values)[i] == d);
}

/// Nothing is told but exposed nodes, and last the window.
pub proof fn law_only_exposed_nodes_are_told(u: UiModel, i: int, values: Seq<Option<String>>) -> (x:
    NodeId)
    requires
        u.host.wf(),
        0 <= i < u.a11y_all(values).len() - 1,
    ensures
        exposed(u.host, u.layouts, x),
        u.a11y_all(values)[i] == u.described(x, values),
        u.a11y_all(values).last() == u.a11y_window(),
{
    let n = u.host.roots.len();
    let all = u.a11y_roots(n, values);
    assert(all[i] == u.a11y_all(values)[i]);
    let x = lemma_root_tells(u, n, all[i], values);
    lemma_open_is_exposed(u, x);
    x
}

// ----------------------------------------------------------------------- requests

/// A request to a live node is done as asked; one to the window or to a node
/// that is gone does nothing.
pub proof fn law_requests_are_done(u: UiModel, id: NodeId, x: Scalar, y: Scalar)
    ensures
        u.host.alive(id) ==> {
            let to = A11yId((id.0 + 1) as u64);
            let h = u.layouts.data(id).rect.size.height;
            let step = if Scalar(0).below(h) {
                h
            } else {
                Scalar(0x4240_0000)
            };
            &&& requested(u, to, A11yRequest::Focus) == (u.focused(Some(id)), A11yOutcome::Done)
            &&& u.focus == Some(id) ==> requested(u, to, A11yRequest::Blur) == (
                u.focused(None),
                A11yOutcome::Done,
            )
            &&& u.focus != Some(id) ==> requested(u, to, A11yRequest::Blur) == (
                u,
                A11yOutcome::Done,
            )
            &&& requested(u, to, A11yRequest::Click) == (u, A11yOutcome::Tap(id))
            &&& requested(u, to, A11yRequest::ScrollDown) == (
                u,
                A11yOutcome::ScrollBy(id, Scalar(0), step),
            )
            &&& requested(u, to, A11yRequest::ScrollUp) == (
                u,
                A11yOutcome::ScrollBy(id, Scalar(0), step.negated()),
            )
            &&& requested(u, to, A11yRequest::ScrollRight) == (
                u,
                A11yOutcome::ScrollBy(id, step, Scalar(0)),
            )
            &&& requested(u, to, A11yRequest::ScrollLeft) == (
                u,
                A11yOutcome::ScrollBy(id, step.negated(), Scalar(0)),
            )
            &&& requested(u, to, A11yRequest::SetScrollOffset(x, y)) == (
                u.scrolled_to(id, x, y),
                A11yOutcome::Done,
            )
            &&& requested(u, to, A11yRequest::ScrollIntoView) == (u, A11yOutcome::Reveal(id))
            &&& requested(u, to, A11yRequest::Other) == (u, A11yOutcome::Done)
        },
        forall|request: A11yRequest|
            !u.host.alive(id) ==> #[trigger] requested(u, A11yId((id.0 + 1) as u64), request) == (
                u,
                A11yOutcome::Done,
            ),
        forall|request: A11yRequest| #[trigger]
            requested(u, A11yId(0), request) == (u, A11yOutcome::Done),
{
}

/// A text from assistive technology goes to the editor of an input, with the
/// change to be reported, and the input is laid out again; on any other node
/// it does nothing.
pub proof fn law_replaced_text_goes_in(u: UiModel, id: NodeId, text: String)
    requires
        u.host.alive(id),
    ensures
        ({
            let to = A11yId((id.0 + 1) as u64);
            let (v, out) = requested(u, to, A11yRequest::ReplaceSelectedText(text));
            &&& out == A11yOutcome::Done
            &&& !edits_text(u.host, id) ==> v == u
            &&& edits_text(u.host, id) ==> {
                &&& v.jobs == u.jobs.push(JobModel::SetText { id, text: text@, notify: true })
                &&& v == (UiModel { jobs: v.jobs, host: v.host, ..u })
                &&& v.host.header(id).flags.0 & 1u8 != 0
                &&& v.host.paint_dirty
            }
        }),
{
    let b = u.host.header(id).flags.0;
    assert((b | 1u8) & 1u8 != 0) by (bit_vector);
}

/// A span that starts before a view moves it back, one that starts in it and
/// ends behind it moves it forward, and one inside it leaves it; an axis that
/// does not scroll stays.
pub proof fn law_views_follow_the_span(r: Edges, view: Edges, across: bool, down: bool)
    ensures
        moves_into(r, view, across, down).0 is Back <==> across && r.x0.below(view.x0),
        moves_into(r, view, across, down).0 is Forward <==> across && !r.x0.below(view.x0)
            && view.x1.below(r.x1),
        moves_into(r, view, across, down).1 is Back <==> down && r.y0.below(view.y0),
        moves_into(r, view, across, down).1 is Forward <==> down && !r.y0.below(view.y0)
            && view.y1.below(r.y1),
{
}

/// A live node that scrolls on either axis.
pub open spec fn rolling(u: UiModel) -> spec_fn(NodeId) -> bool {
    |n: NodeId| rolls(u, n, false) || rolls(u, n, true)
}

/// Where all nodes of a path are live, the scrolling nodes on it are those
/// that scroll on either axis, in the order of the path.
pub proof fn law_scroll_views_on_a_path(u: UiModel, path: Seq<NodeId>)
    requires
        forall|i: int| 0 <= i < path.len() ==> u.host.alive(#[trigger] path[i]),
    ensures
        scrolling_on(u.host, u.layouts, path) == path.filter(rolling(u)),
    decreases path.len(),
{
    if path.len() == 0 {
        reveal(Seq::filter);
        assert(path.filter(rolling(u)) =~= Seq::<NodeId>::empty());
    } else {
        let rest = path.drop_first();
        let head = path.take(1);
        assert(u.host.alive(path[0]));
        law_scroll_views_on_a_path(u, rest);
        assert(path =~= head + rest);
        Seq::filter_distributes_over_add(head, rest, rolling(u));
        reveal(Seq::filter);
        reveal_with_fuel(Seq::filter, 2);
        assert(head.drop_last() =~= Seq::<NodeId>::empty());
        assert(head.filter(rolling(u)) =~= (if rolling(u)(path[0]) {
            seq![path[0]]
        } else {
            Seq::empty()
        }));
    }
}

/// The node that has the focus is told, or the window where none has.
pub proof fn law_focus_is_told(u: UiModel)
    ensures
        u.focus is None ==> u.a11y_focus().0 == 0,
        u.focus matches Some(id) ==> u.a11y_focus().0 == id.0 + 1,
{
}

} // verus!
