//! What is seen of a document, node by node and point by point, and that the
//! hit test and the paint pass agree with it.

use super::hit::{at_most, place_of, Edges, Placed, Sight};
use super::paint::{
    law_paint_order_is_document_order, painted_ids, Canvas, Clip, Content, PaintStep,
};
use crate::host::model::HostModel;
use crate::host::proofs::{lemma_path_closed, lemma_path_up};
use crate::host::tree::{
    law_document_has_no_duplicates, law_document_keeps_open_paths, lemma_above,
    lemma_child_in_trees, lemma_child_not_above, lemma_forest_below, lemma_height, lemma_in_forest,
    lemma_order_in_forest, lemma_order_in_trees, lemma_path_depth, lemma_root_on_top,
    lemma_tree_below, lemma_trees_below, no_later,
};
use crate::host::NodeId;
use crate::layout::LayoutsModel;
use crate::scalar::Scalar;
use crate::style::{Display, Overflow};
use vstd::prelude::*;

verus! {

// ------------------------------------------------------------ what there is to see

/// A node that takes part: live, not hidden, and not styled away.
pub open spec fn shown(m: HostModel, l: LayoutsModel, a: NodeId) -> bool {
    &&& m.alive(a)
    &&& m.header(a).kind < 0x8000
    &&& l.style_of(m, a).display != Display::Gone
}

/// A node cuts off what lies outside its padding box: it does not let both
/// axes overflow.
pub open spec fn cuts(m: HostModel, l: LayoutsModel, a: NodeId) -> bool {
    let o = l.style_of(m, a).overflow;
    !(o.x == Overflow::Visible && o.y == Overflow::Visible)
}

/// A node is in the document, and it and all above it take part.
pub open spec fn exposed(m: HostModel, l: LayoutsModel, n: NodeId) -> bool {
    &&& m.document(m.every()).contains(n)
    &&& forall|a: NodeId| #[trigger] m.path_up(n).contains(a) ==> shown(m, l, a)
}

/// No node above `n` cuts the point off.
pub open spec fn uncut(
    m: HostModel,
    l: LayoutsModel,
    placed: Seq<Placed>,
    n: NodeId,
    x: Scalar,
    y: Scalar,
) -> bool {
    forall|a: NodeId| #[trigger]
        m.path_up(n).contains(a) && a != n && cuts(m, l, a) ==> !place_of(
            placed,
            a,
        ).pad.excludes(x, y)
}

/// A node can be seen at a point: it is exposed, the point lies in its border
/// box, and no node above it cuts the point off.
pub open spec fn seen_at(
    m: HostModel,
    l: LayoutsModel,
    placed: Seq<Placed>,
    n: NodeId,
    x: Scalar,
    y: Scalar,
) -> bool {
    &&& exposed(m, l, n)
    &&& place_of(placed, n).border.holds(x, y)
    &&& uncut(m, l, placed, n, x, y)
}

// ------------------------------------------------------------------------ boxes

/// A box holds the points from its near edges up to, and without, its far
/// edges. With edges that are numbers, a point that is a number lies either in
/// a box or outside.
pub proof fn law_boxes_are_half_open(e: Edges, x: Scalar, y: Scalar)
    requires
        !x.nan() && !y.nan(),
        !e.x0.nan() && !e.y0.nan() && !e.x1.nan() && !e.y1.nan(),
    ensures
        e.holds(x, y) <==> e.x0.rank() <= x.rank() < e.x1.rank() && e.y0.rank() <= y.rank()
            < e.y1.rank(),
        e.excludes(x, y) <==> !e.holds(x, y),
{
}

/// The part of one box inside another leaves out exactly the points that
/// either leaves out.
pub proof fn law_cut_box_excludes_both(a: Edges, b: Edges, x: Scalar, y: Scalar)
    ensures
        a.within(b).excludes(x, y) <==> a.excludes(x, y) || b.excludes(x, y),
{
}

// -------------------------------------------------------------------------- hits

/// A node seen at the point, as far as `id` and what is below it decide.
spec fn seen_from(s: Sight, id: NodeId, n: NodeId, clip: Edges) -> bool {
    &&& !clip.excludes(s.x, s.y)
    &&& place_of(s.placed, n).border.holds(s.x, s.y)
    &&& forall|a: NodeId| #[trigger]
        s.host.path_up(n).contains(a) && s.host.path_up(a).contains(id) ==> {
            &&& !s.layouts.suppressed(s.host, a)
            &&& a != n && s.layouts.style_of(s.host, a).clipping() ==> !place_of(
                s.placed,
                a,
            ).pad.excludes(s.x, s.y)
        }
}

proof fn lemma_seen_self(s: Sight, id: NodeId, clip: Edges)
    requires
        s.host.wf(),
    ensures
        seen_from(s, id, id, clip) <==> !clip.excludes(s.x, s.y) && place_of(
            s.placed,
            id,
        ).border.holds(s.x, s.y) && !s.layouts.suppressed(s.host, id),
{
    let m = s.host;
    lemma_path_up(m, id);
    assert(m.path_up(id).contains(id));
    assert forall|a: NodeId| #[trigger]
        m.path_up(id).contains(a) && m.path_up(a).contains(id) implies a == id by {
        lemma_path_depth(m, id, a);
        lemma_path_depth(m, a, id);
    }
}

/// One step down: what is seen from a node below it is seen from the child.
proof fn lemma_seen_down(s: Sight, id: NodeId, j: int, n: NodeId, clip: Edges)
    requires
        s.host.wf(),
        s.host.in_range(id),
        0 <= j < s.host.list(id).len(),
        s.host.path_up(n).contains(s.host.list(id)[j]),
    ensures
        seen_from(s, id, n, clip) <==> !s.layouts.suppressed(s.host, id) && !clip.excludes(s.x, s.y)
            && seen_from(s, s.host.list(id)[j], n, s.clip_below(id, clip)),
{
    let m = s.host;
    let c = m.list(id)[j];
    lemma_height(m, id, j);
    lemma_path_up(m, id);
    lemma_path_up(m, c);
    lemma_path_closed(m, n, c, id);
    lemma_child_not_above(m, id, j);
    assert(n != id);
    law_cut_box_excludes_both(clip, place_of(s.placed, id).pad, s.x, s.y);
    assert(m.path_up(id).contains(id));
    if seen_from(s, id, n, clip) {
        assert forall|a: NodeId| #[trigger]
            m.path_up(n).contains(a) && m.path_up(a).contains(c) implies {
            &&& !s.layouts.suppressed(s.host, a)
            &&& a != n && s.layouts.style_of(s.host, a).clipping() ==> !place_of(
                s.placed,
                a,
            ).pad.excludes(s.x, s.y)
        } by {
            lemma_path_closed(m, a, c, id);
        }
    }
    if !s.layouts.suppressed(s.host, id) && !clip.excludes(s.x, s.y) && seen_from(
        s,
        c,
        n,
        s.clip_below(id, clip),
    ) {
        assert forall|a: NodeId| #[trigger]
            m.path_up(n).contains(a) && m.path_up(a).contains(id) implies {
            &&& !s.layouts.suppressed(s.host, a)
            &&& a != n && s.layouts.style_of(s.host, a).clipping() ==> !place_of(
                s.placed,
                a,
            ).pad.excludes(s.x, s.y)
        } by {
            lemma_above(m, id, j, n, a);
        }
    }
}

/// `h` is the last node of a tree that is seen from its top.
spec fn topmost(s: Sight, id: NodeId, clip: Edges, h: NodeId) -> bool {
    let t = s.host.tree(id, s.host.every());
    &&& t.contains(h)
    &&& seen_from(s, id, h, clip)
    &&& forall|n: NodeId| #[trigger]
        t.contains(n) && seen_from(s, id, n, clip) ==> no_later(t, n, h)
}

spec fn unseen(s: Sight, id: NodeId, clip: Edges) -> bool {
    forall|n: NodeId| #[trigger]
        s.host.tree(id, s.host.every()).contains(n) ==> !seen_from(s, id, n, clip)
}

proof fn lemma_hit_topmost(s: Sight, id: NodeId, clip: Edges)
    requires
        s.host.wf(),
        s.host.alive(id),
    ensures
        match s.hit(id, clip) {
            Some(h) => topmost(s, id, clip, h),
            None => unseen(s, id, clip),
        },
    decreases s.host.height(id), 1int, 0int,
{
    let m = s.host;
    let every = m.every();
    let t = m.tree(id, every);
    let rest = m.trees(id, 0, every);
    assert(t == seq![id] + rest);
    assert(t[0] == id);
    lemma_seen_self(s, id, clip);
    let below = s.clip_below(id, clip);
    let len = m.list(id).len();
    let j = lemma_below_topmost(s, id, len, below);
    assert forall|n: NodeId| #[trigger] t.contains(n) && n != id implies exists|i: int|
        0 <= i < len && #[trigger] m.tree(m.list(id)[i], every).contains(n) && m.path_up(
            n,
        ).contains(m.list(id)[i]) by {
        let k = choose|k: int| 0 <= k < t.len() && t[k] == n;
        assert(rest[k - 1] == n);
        let i = lemma_trees_below(m, id, 0, every, n);
        assert(m.tree(m.list(id)[i], every).contains(n));
    }
    if clip.excludes(s.x, s.y) || s.layouts.suppressed(m, id) {
        assert forall|n: NodeId| #[trigger] t.contains(n) implies !seen_from(s, id, n, clip) by {
            if n != id {
                let i = choose|i: int|
                    0 <= i < len && #[trigger] m.tree(m.list(id)[i], every).contains(n)
                        && m.path_up(n).contains(m.list(id)[i]);
                lemma_seen_down(s, id, i, n, clip);
            }
        }
    } else {
        match s.hit_below(id, len, below) {
            Some(h) => {
                let c = m.list(id)[j];
                lemma_tree_below(m, c, every, h);
                lemma_seen_down(s, id, j, h, clip);
                lemma_child_in_trees(m, id, 0, j as nat, every, h);
                let y = choose|y: int| 0 <= y < rest.len() && rest[y] == h;
                assert(t[y + 1] == h);
                assert forall|n: NodeId| #[trigger]
                    t.contains(n) && seen_from(s, id, n, clip) implies no_later(t, n, h) by {
                    if n == id {
                        assert(t[0] == n && t[y + 1] == h);
                    } else {
                        let i = choose|i: int|
                            0 <= i < len && #[trigger] m.tree(m.list(id)[i], every).contains(n)
                                && m.path_up(n).contains(m.list(id)[i]);
                        lemma_seen_down(s, id, i, n, clip);
                        if i > j {
                            assert(unseen(s, m.list(id)[i], below));
                        }
                        lemma_order_in_trees(m, id, 0, i as nat, j as nat, every, n, h);
                        let (u, v) = choose|u: int, v: int|
                            0 <= u <= v < rest.len() && #[trigger] rest[u] == n && #[trigger] rest[v]
                                == h;
                        assert(t[u + 1] == n && t[v + 1] == h);
                    }
                }
            },
            None => {
                assert forall|n: NodeId| #[trigger]
                    t.contains(n) && n != id implies !seen_from(s, id, n, clip) by {
                    let i = choose|i: int|
                        0 <= i < len && #[trigger] m.tree(m.list(id)[i], every).contains(n)
                            && m.path_up(n).contains(m.list(id)[i]);
                    lemma_seen_down(s, id, i, n, clip);
                    assert(unseen(s, m.list(id)[i], below));
                }
                if s.hit(id, clip) is Some {
                    assert forall|n: NodeId| #[trigger]
                        t.contains(n) && seen_from(s, id, n, clip) implies no_later(t, n, id) by {
                        assert(n == id);
                        assert(t[0] == n);
                    }
                }
            },
        }
    }
}

/// The child whose tree takes the hit: nothing is seen of the children behind
/// it.
proof fn lemma_below_topmost(s: Sight, p: NodeId, k: nat, clip: Edges) -> (j: int)
    requires
        s.host.wf(),
        s.host.alive(p),
        k <= s.host.list(p).len(),
    ensures
        match s.hit_below(p, k, clip) {
            Some(h) => {
                &&& 0 <= j < k
                &&& topmost(s, s.host.list(p)[j], clip, h)
                &&& forall|i: int|
                    j < i < k ==> unseen(s, #[trigger] s.host.list(p)[i], clip)
            },
            None => forall|i: int| 0 <= i < k ==> unseen(s, #[trigger] s.host.list(p)[i], clip),
        },
    decreases s.host.height(p), 0int, k,
{
    if k == 0 {
        0
    } else {
        lemma_height(s.host, p, k - 1);
        let c = s.host.list(p)[k - 1];
        lemma_hit_topmost(s, c, clip);
        let i = lemma_below_topmost(s, p, (k - 1) as nat, clip);
        if s.hit(c, clip) is Some {
            k - 1
        } else {
            i
        }
    }
}

proof fn lemma_root_topmost(s: Sight, k: nat) -> (j: int)
    requires
        s.host.wf(),
        k <= s.host.roots.len(),
    ensures
        match s.hit_root(k) {
            Some(h) => {
                &&& 0 <= j < k
                &&& topmost(s, s.host.roots[j], Edges::everywhere(), h)
                &&& forall|i: int|
                    j < i < k ==> unseen(s, #[trigger] s.host.roots[i], Edges::everywhere())
            },
            None => forall|i: int|
                0 <= i < k ==> unseen(s, #[trigger] s.host.roots[i], Edges::everywhere()),
        },
    decreases k,
{
    if k == 0 {
        0
    } else {
        assert(s.host.alive(s.host.roots[k - 1]));
        lemma_hit_topmost(s, s.host.roots[k - 1], Edges::everywhere());
        let i = lemma_root_topmost(s, (k - 1) as nat);
        if s.hit(s.host.roots[k - 1], Edges::everywhere()) is Some {
            k - 1
        } else {
            i
        }
    }
}

/// Seen from a root is seen.
proof fn lemma_seen_from_root(s: Sight, j: int, n: NodeId)
    requires
        s.host.wf(),
        0 <= j < s.host.roots.len(),
        s.host.tree(s.host.roots[j], s.host.every()).contains(n),
        !Edges::everywhere().excludes(s.x, s.y),
    ensures
        seen_from(s, s.host.roots[j], n, Edges::everywhere()) <==> seen_at(
            s.host,
            s.layouts,
            s.placed,
            n,
            s.x,
            s.y,
        ),
        s.host.document(s.host.every()).contains(n),
{
    let m = s.host;
    let r = m.roots[j];
    assert(m.alive(m.roots[j]));
    lemma_in_forest(m, m.roots, j as nat, m.every(), n);
    lemma_tree_below(m, r, m.every(), n);
    assert forall|a: NodeId| #[trigger] m.path_up(n).contains(a) implies m.path_up(a).contains(
        r,
    ) by {
        lemma_root_on_top(m, j, n, a);
    }
    assert forall|a: NodeId| shown(m, s.layouts, a) <==> !s.layouts.suppressed(m, a) by {}
}

/// The hit is the topmost node that can be seen at the point: it is seen
/// there, and whatever else is seen there comes before it in document order,
/// so that it is painted over. Nothing is hit exactly where nothing is seen.
pub proof fn law_hit_is_the_topmost_seen(s: Sight)
    requires
        s.host.wf(),
        at_most(Scalar(0xFF7F_FFFF), s.x) && s.x.below(Scalar(0x7F7F_FFFF)),
        at_most(Scalar(0xFF7F_FFFF), s.y) && s.y.below(Scalar(0x7F7F_FFFF)),
    ensures
        match s.target() {
            Some(h) => {
                &&& seen_at(s.host, s.layouts, s.placed, h, s.x, s.y)
                &&& forall|n: NodeId| #[trigger]
                    seen_at(s.host, s.layouts, s.placed, n, s.x, s.y) ==> no_later(
                        s.host.document(s.host.every()),
                        n,
                        h,
                    )
            },
            None => forall|n: NodeId|
                !(#[trigger] seen_at(s.host, s.layouts, s.placed, n, s.x, s.y)),
        },
{
    let m = s.host;
    let every = m.every();
    let j = lemma_root_topmost(s, m.roots.len());
    if let Some(h) = s.target() {
        lemma_seen_from_root(s, j, h);
    }
    assert forall|n: NodeId| #[trigger] seen_at(m, s.layouts, s.placed, n, s.x, s.y) implies (
    match s.target() {
        Some(h) => no_later(m.document(every), n, h),
        None => false,
    }) by {
        let i = lemma_forest_below(m, every, m.roots, n);
        lemma_seen_from_root(s, i, n);
        match s.target() {
            Some(h) => {
                if i > j {
                    assert(unseen(s, m.roots[i], Edges::everywhere()));
                }
                lemma_order_in_forest(m, m.roots, i as nat, j as nat, every, n, h);
            },
            None => {
                assert(unseen(s, m.roots[i], Edges::everywhere()));
            },
        }
    }
}

// ------------------------------------------------------------------------- paint

/// A node paints what its kind and rows say: a background where its fill or
/// its border shows, and text, an input or a payload by its kind.
pub open spec fn paints_rightly(m: HostModel, st: PaintStep) -> bool {
    let kind = m.header(st.id).kind;
    &&& st.content == Content::Text <==> kind == 1
    &&& st.content == Content::Input <==> kind == 2
    &&& st.content == Content::Custom <==> kind == 3
    &&& match m.view_of(st.id) {
        Some(row) => {
            let fill = row.color as int % 256 != 0;
            let border = row.border_w.positive() && row.border_color as int % 256 != 0;
            if fill || border {
                st.background == Some(row)
            } else {
                st.background is None
            }
        },
        None => st.background is None,
    }
}

/// A clip lets a point through.
pub open spec fn lets_through(clip: Option<Clip>, x: Scalar, y: Scalar) -> bool {
    match clip {
        Some(c) => !c.bounds.excludes(x, y),
        None => true,
    }
}

/// As `uncut`, as far as `id` and what is below it decide.
spec fn uncut_from(c: Canvas, id: NodeId, n: NodeId, x: Scalar, y: Scalar) -> bool {
    forall|a: NodeId| #[trigger]
        c.host.path_up(n).contains(a) && c.host.path_up(a).contains(id) && a != n
            && c.layouts.style_of(c.host, a).clipping() ==> !place_of(
            c.placed,
            a,
        ).pad.excludes(x, y)
}

proof fn lemma_uncut_down(c: Canvas, id: NodeId, j: int, n: NodeId, clip: Option<Clip>, x: Scalar, y: Scalar)
    requires
        c.host.wf(),
        c.host.in_range(id),
        0 <= j < c.host.list(id).len(),
        c.host.path_up(n).contains(c.host.list(id)[j]),
    ensures
        (lets_through(clip, x, y) && uncut_from(c, id, n, x, y)) <==> (lets_through(
            c.clip_below(id, clip),
            x,
            y,
        ) && uncut_from(c, c.host.list(id)[j], n, x, y)),
{
    let m = c.host;
    let d = m.list(id)[j];
    lemma_height(m, id, j);
    lemma_path_up(m, id);
    lemma_path_up(m, d);
    lemma_path_closed(m, n, d, id);
    lemma_child_not_above(m, id, j);
    assert(n != id);
    assert(m.path_up(id).contains(id));
    let pad = place_of(c.placed, id).pad;
    if let Some(k) = clip {
        law_cut_box_excludes_both(k.bounds, pad, x, y);
    }
    if uncut_from(c, id, n, x, y) {
        assert forall|a: NodeId| #[trigger]
            m.path_up(n).contains(a) && m.path_up(a).contains(d) && a != n && c.layouts.style_of(
                m,
                a,
            ).clipping() implies !place_of(c.placed, a).pad.excludes(x, y) by {
            lemma_path_closed(m, a, d, id);
        }
    }
    if lets_through(c.clip_below(id, clip), x, y) && uncut_from(c, d, n, x, y) {
        assert forall|a: NodeId| #[trigger]
            m.path_up(n).contains(a) && m.path_up(a).contains(id) && a != n && c.layouts.style_of(
                m,
                a,
            ).clipping() implies !place_of(c.placed, a).pad.excludes(x, y) by {
            lemma_above(m, id, j, n, a);
        }
    }
}

spec fn steps_right(
    c: Canvas,
    steps: Seq<PaintStep>,
    id: NodeId,
    clip: Option<Clip>,
    x: Scalar,
    y: Scalar,
) -> bool {
    forall|i: int|
        0 <= i < steps.len() ==> {
            let st = #[trigger] steps[i];
            &&& c.host.path_up(st.id).contains(id)
            &&& st.background == c.background(st.id)
            &&& st.content == c.content(st.id)
            &&& lets_through(st.clip, x, y) <==> lets_through(clip, x, y) && uncut_from(
                c,
                id,
                st.id,
                x,
                y,
            )
        }
}

proof fn lemma_steps_right(c: Canvas, id: NodeId, clip: Option<Clip>, x: Scalar, y: Scalar)
    requires
        c.host.wf(),
        c.host.alive(id),
    ensures
        steps_right(c, c.steps(id, clip), id, clip, x, y),
    decreases c.host.height(id), 1int, 0int,
{
    if !c.layouts.suppressed(c.host, id) {
        let below = c.clip_below(id, clip);
        let own: Seq<PaintStep> = if c.on_screen(id) {
            seq![c.step(id, clip)]
        } else {
            Seq::empty()
        };
        let rest = c.steps_below(id, 0, below);
        let all = c.steps(id, clip);
        assert(all == own + rest);
        lemma_path_up(c.host, id);
        assert(c.host.path_up(id).contains(id));
        assert(uncut_from(c, id, id, x, y)) by {
            assert forall|a: NodeId| #[trigger]
                c.host.path_up(id).contains(a) && c.host.path_up(a).contains(id) implies a
                == id by {
                lemma_path_depth(c.host, id, a);
                lemma_path_depth(c.host, a, id);
            }
        }
        lemma_steps_below_right(c, id, 0, clip, x, y);
        assert forall|i: int| 0 <= i < all.len() implies {
            let st = #[trigger] all[i];
            &&& c.host.path_up(st.id).contains(id)
            &&& st.background == c.background(st.id)
            &&& st.content == c.content(st.id)
            &&& lets_through(st.clip, x, y) <==> lets_through(clip, x, y) && uncut_from(
                c,
                id,
                st.id,
                x,
                y,
            )
        } by {
            if i >= own.len() {
                assert(all[i] == rest[i - own.len()]);
            } else {
                assert(all[i] == c.step(id, clip));
            }
        }
    }
}

proof fn lemma_steps_below_right(
    c: Canvas,
    p: NodeId,
    k: nat,
    clip: Option<Clip>,
    x: Scalar,
    y: Scalar,
)
    requires
        c.host.wf(),
        c.host.alive(p),
    ensures
        steps_right(c, c.steps_below(p, k, c.clip_below(p, clip)), p, clip, x, y),
    decreases c.host.height(p), 0int, c.host.list(p).len() - k,
{
    let below = c.clip_below(p, clip);
    if k < c.host.list(p).len() {
        lemma_height(c.host, p, k as int);
        let d = c.host.list(p)[k as int];
        lemma_steps_right(c, d, below, x, y);
        lemma_steps_below_right(c, p, k + 1, clip, x, y);
        let a = c.steps(d, below);
        let b = c.steps_below(p, k + 1, below);
        let all = c.steps_below(p, k, below);
        assert(all == a + b);
        assert forall|i: int| 0 <= i < all.len() implies {
            let st = #[trigger] all[i];
            &&& c.host.path_up(st.id).contains(p)
            &&& st.background == c.background(st.id)
            &&& st.content == c.content(st.id)
            &&& lets_through(st.clip, x, y) <==> lets_through(clip, x, y) && uncut_from(
                c,
                p,
                st.id,
                x,
                y,
            )
        } by {
            if i < a.len() {
                assert(all[i] == a[i]);
                lemma_uncut_down(c, p, k as int, a[i].id, clip, x, y);
                lemma_path_up(c.host, d);
                lemma_path_up(c.host, p);
                lemma_path_closed(c.host, a[i].id, d, p);
            } else {
                assert(all[i] == b[i - a.len()]);
            }
        }
    }
}

proof fn lemma_forest_right(c: Canvas, k: nat, x: Scalar, y: Scalar, i: int)
    requires
        c.host.wf(),
        k <= c.host.roots.len(),
        0 <= i < c.steps_of(c.host.roots.skip(k as int)).len(),
    ensures
        ({
            let st = c.steps_of(c.host.roots.skip(k as int))[i];
            &&& st.background == c.background(st.id)
            &&& st.content == c.content(st.id)
            &&& lets_through(st.clip, x, y) <==> uncut(
                c.host,
                c.layouts,
                c.placed,
                st.id,
                x,
                y,
            )
        }),
    decreases c.host.roots.len() - k,
{
    let m = c.host;
    let list = m.roots.skip(k as int);
    if k < m.roots.len() {
        let r = m.roots[k as int];
        assert(m.alive(m.roots[k as int]));
        assert(list[0] == r);
        assert(list.drop_first() =~= m.roots.skip((k + 1) as int));
        let a = c.steps(r, None);
        lemma_steps_right(c, r, None, x, y);
        let all = c.steps_of(list);
        if i < a.len() {
            assert(all[i] == a[i]);
            let n = a[i].id;
            assert forall|z: NodeId| #[trigger] m.path_up(n).contains(z) implies m.path_up(
                z,
            ).contains(r) by {
                lemma_root_on_top(m, k as int, n, z);
            }
        } else {
            lemma_forest_right(c, k + 1, x, y, i - a.len());
        }
    } else {
        assert(list =~= Seq::<NodeId>::empty());
    }
}

/// Every node that is exposed and whose border box shares a point with the
/// viewport is painted, once.
pub proof fn law_what_is_in_view_is_painted(c: Canvas, n: NodeId, x: Scalar, y: Scalar)
    requires
        c.host.wf(),
        exposed(c.host, c.layouts, n),
        place_of(c.placed, n).border.holds(x, y),
        at_most(Scalar(0), x) && x.below(c.viewport.width),
        at_most(Scalar(0), y) && y.below(c.viewport.height),
    ensures
        exists|i: int| 0 <= i < c.all_steps().len() && #[trigger] c.all_steps()[i].id == n,
        forall|i: int, j: int|
            0 <= i < c.all_steps().len() && 0 <= j < c.all_steps().len() && #[trigger] c.all_steps()[i].id
                == n && #[trigger] c.all_steps()[j].id == n ==> i == j,
{
    let m = c.host;
    let keep = c.visible();
    let on = c.shown();
    law_paint_order_is_document_order(c, m.roots);
    law_document_keeps_open_paths(m, keep, n);
    assert forall|a: NodeId| #[trigger] m.path_up(n).contains(a) implies keep(a) by {
        assert(shown(m, c.layouts, a));
    }
    let doc = m.document(keep);
    let ids = painted_ids(c.all_steps());
    assert(ids == doc.filter(on));
    assert(c.on_screen(n));
    let at = choose|at: int| 0 <= at < doc.len() && doc[at] == n;
    doc.lemma_filter_contains(on, at);
    let i = choose|i: int| 0 <= i < ids.len() && ids[i] == n;
    assert(c.all_steps()[i].id == n);
    law_document_has_no_duplicates(m, keep);
    lemma_filter_distinct(doc, on);
    assert forall|i: int, j: int|
        0 <= i < c.all_steps().len() && 0 <= j < c.all_steps().len() && #[trigger] c.all_steps()[i].id
            == n && #[trigger] c.all_steps()[j].id == n implies i == j by {
        assert(ids[i] == n && ids[j] == n);
    }
}

proof fn lemma_filter_distinct(s: Seq<NodeId>, keep: spec_fn(NodeId) -> bool)
    requires
        s.no_duplicates(),
    ensures
        s.filter(keep).no_duplicates(),
        forall|x: NodeId| #[trigger] s.filter(keep).contains(x) ==> s.contains(x) && keep(x),
    decreases s.len(),
{
    reveal(Seq::filter);
    if s.len() > 0 {
        let head = s.drop_last();
        lemma_filter_distinct(head, keep);
        let f = head.filter(keep);
        let g = s.filter(keep);
        assert forall|x: NodeId| #[trigger] g.contains(x) implies s.contains(x) && keep(x) by {
            let i = choose|i: int| 0 <= i < g.len() && g[i] == x;
            if i < f.len() {
                assert(f[i] == x);
                assert(f.contains(x));
                let j = choose|j: int| 0 <= j < head.len() && head[j] == x;
                assert(s[j] == x);
            } else {
                assert(s[s.len() - 1] == x);
            }
        }
        assert forall|i: int, j: int| 0 <= i < g.len() && 0 <= j < g.len() && i != j implies g[i]
            != g[j] by {
            if i < f.len() && j < f.len() {
                assert(f[i] != f[j]);
            } else if i < f.len() {
                assert(f.contains(f[i]));
                let k = choose|k: int| 0 <= k < head.len() && head[k] == f[i];
                assert(s[k] != s[s.len() - 1]);
            } else if j < f.len() {
                assert(f.contains(f[j]));
                let k = choose|k: int| 0 <= k < head.len() && head[k] == f[j];
                assert(s[k] != s[s.len() - 1]);
            }
        }
    }
}

/// A step paints an exposed node, with what its kind and rows say, under a
/// clip that lets exactly those points through that no node above it cuts
/// off. Where the node's box has an extent and the viewport too, they share a
/// point.
pub proof fn law_steps_paint_what_is_exposed(c: Canvas, i: int, x: Scalar, y: Scalar)
    requires
        c.host.wf(),
        0 <= i < c.all_steps().len(),
    ensures
        ({
            let st = c.all_steps()[i];
            let b = place_of(c.placed, st.id).border;
            &&& exposed(c.host, c.layouts, st.id)
            &&& paints_rightly(c.host, st)
            &&& lets_through(st.clip, x, y) <==> uncut(c.host, c.layouts, c.placed, st.id, x, y)
            &&& b.x0.below(b.x1) && b.y0.below(b.y1) && c.viewport.width.positive()
                && c.viewport.height.positive() ==> {
                let (px, py) = (b.x0.max_of(Scalar(0)), b.y0.max_of(Scalar(0)));
                &&& b.holds(px, py)
                &&& at_most(Scalar(0), px) && px.below(c.viewport.width)
                &&& at_most(Scalar(0), py) && py.below(c.viewport.height)
            }
        }),
{
    let m = c.host;
    let keep = c.visible();
    let on = c.shown();
    let st = c.all_steps()[i];
    let n = st.id;
    assert(m.roots.skip(0) =~= m.roots);
    lemma_forest_right(c, 0, x, y, i);
    law_paint_order_is_document_order(c, m.roots);
    law_document_has_no_duplicates(m, keep);
    let doc = m.document(keep);
    lemma_filter_distinct(doc, on);
    let ids = painted_ids(c.all_steps());
    assert(ids[i] == n);
    assert(ids.contains(n));
    law_document_keeps_open_paths(m, keep, n);
    assert forall|a: NodeId| #[trigger] m.path_up(n).contains(a) implies shown(m, c.layouts, a) by {
        assert(keep(a));
    }
    lemma_path_up(m, n);
    assert(m.path_up(n).contains(n));
    assert(shown(m, c.layouts, n));
}

/// What a node hands down to its children: where it cuts, its padding box with
/// its own corners inside what it inherits; else what it inherits.
pub proof fn law_clips_are_handed_down(c: Canvas, id: NodeId, clip: Option<Clip>)
    ensures
        !cuts(c.host, c.layouts, id) ==> c.clip_below(id, clip) == clip,
        cuts(c.host, c.layouts, id) && clip is None ==> c.clip_below(id, clip) == Some(
            Clip {
                bounds: place_of(c.placed, id).pad,
                radius: match c.host.view_of(id) {
                    Some(row) => row.radius,
                    None => Scalar(0),
                },
            },
        ),
        cuts(c.host, c.layouts, id) && clip is Some ==> c.clip_below(id, clip) == Some(
            clip.unwrap().cut(
                place_of(c.placed, id).pad,
                match c.host.view_of(id) {
                    Some(row) => row.radius,
                    None => Scalar(0),
                },
            ),
        ),
{
}

/// What is hit on the screen is painted, and the point is inside the clip that
/// it is painted under.
pub proof fn law_hits_are_painted(s: Sight, c: Canvas)
    requires
        s.host.wf(),
        s.host == c.host && s.layouts == c.layouts && s.placed == c.placed,
        at_most(Scalar(0), s.x) && s.x.below(c.viewport.width) && s.x.below(Scalar(0x7F7F_FFFF)),
        at_most(Scalar(0), s.y) && s.y.below(c.viewport.height) && s.y.below(Scalar(0x7F7F_FFFF)),
        s.target() is Some,
    ensures
        exists|i: int|
            0 <= i < c.all_steps().len() && #[trigger] c.all_steps()[i].id == s.target().unwrap()
                && lets_through(c.all_steps()[i].clip, s.x, s.y),
{
    law_hit_is_the_topmost_seen(s);
    let h = s.target().unwrap();
    law_what_is_in_view_is_painted(c, h, s.x, s.y);
    let i = choose|i: int| 0 <= i < c.all_steps().len() && #[trigger] c.all_steps()[i].id == h;
    law_steps_paint_what_is_exposed(c, i, s.x, s.y);
}

/// Corners of a clip: a box that lies inside the clip has its own corners; one
/// that reaches out of it gets the sharper of both, so that rounding never
/// lets through what either cuts off.
pub proof fn law_clip_corners(c: Clip, r: Edges, radius: Scalar)
    ensures
        at_most(c.bounds.x0, r.x0) && at_most(c.bounds.y0, r.y0) && at_most(r.x1, c.bounds.x1)
            && at_most(r.y1, c.bounds.y1) ==> c.cut(r, radius).radius == radius,
        r.x0.below(c.bounds.x0) || r.y0.below(c.bounds.y0) || c.bounds.x1.below(r.x1)
            || c.bounds.y1.below(r.y1) ==> {
            let k = c.cut(r, radius).radius;
            &&& k == radius || k == c.radius
            &&& !radius.nan() && !c.radius.nan() ==> !radius.below(k) && !c.radius.below(k)
        },
        forall|x: Scalar, y: Scalar|
            (#[trigger] c.cut(r, radius).bounds.excludes(x, y)) <==> c.bounds.excludes(x, y)
                || r.excludes(x, y),
{
}

} // verus!
