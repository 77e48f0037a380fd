//! What each op of a transaction does to the tree, told by what can be read
//! of the tree afterwards.

use super::apply::{applicable, fails_at, host_after, host_run, layouts_after, runs};
use super::encode::interned;
use super::format::{OpModel, PaintParts};
use crate::host::model::{
    lemma_position, lemma_spliced, lemma_without, owns_text, owns_view, position, HostModel,
};
use crate::host::laws::lemma_placed_lists;
use crate::host::proofs::{
    lemma_created_wf, lemma_placed_wf, lemma_removed_wf, lemma_unlinked_wf, same_place,
};
use crate::host::{NodeId, StyleId, TextModel, ViewRow};
use crate::layout::LayoutsModel;
use crate::scalar::Scalar;
use crate::style::Style;
use vstd::prelude::*;

verus! {

/// The bit of a node that awaits layout.
pub open spec fn awaits_layout(m: HostModel, id: NodeId) -> bool {
    m.header(id).flags.0 & 1u8 != 0
}

/// The bit of a node whose text has to be laid out again.
pub open spec fn awaits_text(m: HostModel, id: NodeId) -> bool {
    m.header(id).flags.0 & 2u8 != 0
}

proof fn lemma_flag_bits(f: u8)
    ensures
        (f | 1u8) & 1u8 != 0,
        (f | 3u8) & 1u8 != 0,
        (f | 3u8) & 2u8 != 0,
        (f | 1u8) & 2u8 == f & 2u8,
        0u8 & 1u8 == 0,
        0u8 & 2u8 == 0,
{
    assert((f | 1u8) & 1u8 != 0) by (bit_vector);
    assert((f | 3u8) & 1u8 != 0) by (bit_vector);
    assert((f | 3u8) & 2u8 != 0) by (bit_vector);
    assert((f | 1u8) & 2u8 == f & 2u8) by (bit_vector);
    assert(0u8 & 1u8 == 0) by (bit_vector);
    assert(0u8 & 2u8 == 0) by (bit_vector);
}

// ------------------------------------------------------------------------ text

/// A text op gives the node exactly the text that it carries, and leaves its
/// size and color; the node's text is laid out again. On a node that is no
/// text it does nothing.
pub proof fn law_text_arrives(m: HostModel, id: u32, text: Seq<char>)
    ensures
        ({
            let n = host_after(m, OpModel::SetText { id, text });
            match m.text_of(NodeId(id)) {
                Some(was) => {
                    &&& n.text_of(NodeId(id)) matches Some(row)
                    &&& row.text == text
                    &&& row.font_size == was.font_size
                    &&& row.color == was.color
                    &&& awaits_layout(n, NodeId(id))
                    &&& awaits_text(n, NodeId(id))
                    &&& n.paint_dirty
                },
                None => n == m,
            }
        }),
{
    if m.text_of(NodeId(id)) is Some {
        lemma_flag_bits(m.header(NodeId(id)).flags.0);
    }
}

/// A text-properties op gives the node exactly the size and the color that it
/// carries, and leaves its text. Another size lays the text out again; the
/// same size asks for paint alone. On a node that is no text it does nothing.
pub proof fn law_text_props_arrive(m: HostModel, id: u32, font_size: Scalar, color: u32)
    ensures
        ({
            let n = host_after(m, OpModel::TextProps { id, font_size, color });
            match m.text_of(NodeId(id)) {
                Some(was) => {
                    &&& n.text_of(NodeId(id)) matches Some(row)
                    &&& row.font_size == font_size
                    &&& row.color == color
                    &&& row.text == was.text
                    &&& n.paint_dirty
                    &&& was.font_size.rank() != font_size.rank() ==> awaits_layout(n, NodeId(id))
                        && awaits_text(n, NodeId(id))
                    &&& was.font_size == font_size && !font_size.nan() ==> n.nodes == m.nodes
                        && n.layout_dirty == m.layout_dirty
                },
                None => n == m,
            }
        }),
{
    if m.text_of(NodeId(id)) is Some {
        lemma_flag_bits(m.header(NodeId(id)).flags.0);
    }
}

// ----------------------------------------------------------------------- paint

/// A fill op gives the node the color that it carries, and leaves radius and
/// border.
pub proof fn law_fill_arrives(m: HostModel, id: u32, color: u32)
    ensures
        ({
            let n = host_after(m, OpModel::ViewPaint { id, color });
            match m.view_of(NodeId(id)) {
                Some(was) => {
                    &&& n.view_of(NodeId(id)) matches Some(row)
                    &&& row.color == color
                    &&& row.radius == was.radius
                    &&& row.border_w == was.border_w
                    &&& row.border_color == was.border_color
                    &&& n.paint_dirty
                    &&& n.nodes == m.nodes
                },
                None => n == m,
            }
        }),
{
}

/// A paint op gives the node each part that it carries; a part that it does
/// not carry stays.
pub proof fn law_paint_arrives(m: HostModel, id: u32, paint: PaintParts)
    ensures
        ({
            let n = host_after(m, OpModel::Paint { id, paint });
            match m.view_of(NodeId(id)) {
                Some(was) => {
                    &&& n.view_of(NodeId(id)) matches Some(row)
                    &&& paint.fill matches Some(c) ==> row.color == c
                    &&& paint.fill is None ==> row.color == was.color
                    &&& paint.radius matches Some(r) ==> row.radius == r
                    &&& paint.radius is None ==> row.radius == was.radius
                    &&& paint.border matches Some(b) ==> row.border_color == b.0 && row.border_w
                        == b.1
                    &&& paint.border is None ==> row.border_color == was.border_color
                        && row.border_w == was.border_w
                    &&& n.paint_dirty
                    &&& n.nodes == m.nodes
                },
                None => n == m,
            }
        }),
{
}

// ----------------------------------------------------- style, hidden, listeners

/// A style op on a node gives it the style that the op names, and lays it out
/// again; kind, rows and place stay.
pub proof fn law_node_wears_the_style(
    m: HostModel,
    l: LayoutsModel,
    id: u32,
    wire_style: u32,
)
    requires
        m.alive(NodeId(id)),
    ensures
        ({
            let n = host_after(m, OpModel::SetStyle { id, wire_style });
            let (was, now) = (m.header(NodeId(id)), n.header(NodeId(id)));
            &&& now.style == wire_style
            &&& now.kind == was.kind && now.parent == was.parent && now.aux == was.aux
            &&& now.generation == was.generation
            &&& l.style_of(n, NodeId(id)) == l.style(StyleId(wire_style))
            &&& awaits_layout(n, NodeId(id))
            &&& n.paint_dirty
        }),
{
    lemma_flag_bits(m.header(NodeId(id)).flags.0);
}

/// A hidden op hides the node or shows it again, as it says, and lays it out
/// again; kind, rows, style and place stay.
pub proof fn law_hidden_arrives(m: HostModel, l: LayoutsModel, id: u32, hidden: bool)
    requires
        m.wf(),
        m.alive(NodeId(id)),
    ensures
        ({
            let n = host_after(m, OpModel::Hidden { id, hidden });
            let (was, now) = (m.header(NodeId(id)), n.header(NodeId(id)));
            &&& n.alive(NodeId(id))
            &&& now.kind >= 0x8000 <==> hidden
            &&& now.kind as int % 0x8000 == was.kind as int % 0x8000
            &&& now.parent == was.parent && now.aux == was.aux && now.style == was.style
            &&& now.generation == was.generation
            &&& hidden ==> l.suppressed(n, NodeId(id))
            &&& awaits_layout(n, NodeId(id))
            &&& n.paint_dirty
        }),
{
    assert(m.nodes[id as int] == m.header(NodeId(id)));
    lemma_flag_bits(m.header(NodeId(id)).flags.0);
}

/// A properties op gives the node exactly the listeners and the focusability
/// that it carries, and changes nothing else.
pub proof fn law_props_arrive(m: HostModel, id: u32, listeners: u32, focusable: bool)
    requires
        m.wf(),
    ensures
        ({
            let n = host_after(m, OpModel::Props { id, listeners, focusable });
            &&& m.alive(NodeId(id)) ==> n.props_of(NodeId(id)).listeners == listeners
                && n.props_of(NodeId(id)).focusable == focusable
            &&& n == (HostModel { props: n.props, ..m })
            &&& forall|other: NodeId|
                other.0 != id ==> #[trigger] n.props_of(other) == m.props_of(other)
        }),
{
}

/// A style definition is what its id reads as from then on; other ids read as
/// before, and an id that was never defined as the initial style.
pub proof fn law_style_is_defined(l: LayoutsModel, m: HostModel, wire_id: u32, style: Style)
    ensures
        ({
            let after = layouts_after(l, m, OpModel::Style { wire_id, style });
            &&& after.style(StyleId(wire_id)) == style
            &&& after.defined(wire_id)
            &&& forall|other: u32|
                other != wire_id ==> #[trigger] after.style(StyleId(other)) == l.style(
                    StyleId(other),
                )
            &&& forall|other: u32|
                other != wire_id ==> #[trigger] after.defined(other) == l.defined(other)
            &&& after.rects == l.rects
            &&& !l.defined(wire_id) ==> after.caches == l.caches
        }),
        LayoutsModel::empty().style(StyleId(wire_id)) == Style::initial(),
{
}

// -------------------------------------------------------------------- one node

/// The node that an op writes to.
pub open spec fn written_to(op: OpModel) -> Option<u32> {
    match op {
        OpModel::SetText { id, .. } => Some(id),
        OpModel::TextProps { id, .. } => Some(id),
        OpModel::SetStyle { id, .. } => Some(id),
        OpModel::Hidden { id, .. } => Some(id),
        OpModel::ViewPaint { id, .. } => Some(id),
        OpModel::Paint { id, .. } => Some(id),
        OpModel::Props { id, .. } => Some(id),
        _ => None,
    }
}

/// An op that writes to a node leaves every other node as it was, in content
/// and in place, and moves nothing.
pub proof fn law_writes_touch_one_node(m: HostModel, op: OpModel, other: NodeId)
    requires
        m.wf(),
        written_to(op) is Some,
        written_to(op) != Some(other.0),
    ensures
        host_after(m, op).alive(other) == m.alive(other),
        m.in_range(other) ==> host_after(m, op).header(other) == m.header(other),
        host_after(m, op).text_of(other) == m.text_of(other),
        host_after(m, op).view_of(other) == m.view_of(other),
        host_after(m, op).props_of(other) == m.props_of(other),
        forall|p: NodeId| #[trigger] host_after(m, op).list(p) == m.list(p),
        host_after(m, op).live == m.live,
{
    let id = NodeId(written_to(op).unwrap());
    let (i, j) = (id.0 as int, other.0 as int);
    if m.text_of(id) is Some {
        assert(owns_text(m.nodes[i]));
    }
    if m.text_of(other) is Some {
        assert(owns_text(m.nodes[j]));
    }
    if m.view_of(id) is Some {
        assert(owns_view(m.nodes[i]));
    }
    if m.view_of(other) is Some {
        assert(owns_view(m.nodes[j]));
    }
    let n = host_after(m, op);
    assert(n.nodes.len() == m.nodes.len());
    if j < m.nodes.len() {
        assert(n.nodes[j] == m.nodes[j]);
    }
}

/// Commands, payloads, names, input configurations and style definitions
/// leave the tree alone.
pub proof fn law_other_ops_leave_the_tree(m: HostModel, op: OpModel)
    requires
        op is Command || op is Custom || op is Label || op is InputProps || op is Style,
    ensures
        host_after(m, op) == m,
{
}

// ----------------------------------------------------------- create and remove

/// A created node is there: alive, of the kind that the op names, shown,
/// unstyled, without a parent, listeners or marks. What was there stays.
pub proof fn law_created_node_is_there(m: HostModel, id: u32, kind: u8)
    requires
        m.wf(),
        id < 0xFFFF_FFFE,
        !m.alive(NodeId(id)),
    ensures
        ({
            let n = host_after(m, OpModel::Create { id, kind });
            let h = n.header(NodeId(id));
            &&& n.alive(NodeId(id))
            &&& h.kind == (if kind <= 3 {
                kind as u16
            } else {
                0u16
            })
            &&& h.parent == 0xFFFF_FFFE
            &&& h.style == 0xFFFF_FFFF
            &&& h.flags.0 == 0
            &&& n.props_of(NodeId(id)).listeners == 0
            &&& !n.props_of(NodeId(id)).focusable
            &&& kind == 1 ==> n.text_of(NodeId(id)) is Some && n.view_of(NodeId(id)) is None
            &&& kind != 1 ==> n.view_of(NodeId(id)) is Some && n.text_of(NodeId(id)) is None
            &&& n.live == m.live + 1
            &&& n.roots == m.roots
            &&& n.layout_dirty == m.layout_dirty
        }),
        forall|other: NodeId|
            m.alive(other) ==> (#[trigger] host_after(m, OpModel::Create { id, kind }).header(other))
                == m.header(other),
        forall|other: NodeId| #[trigger]
            m.alive(other) ==> {
                let n = host_after(m, OpModel::Create { id, kind });
                &&& n.alive(other)
                &&& n.list(other) == m.list(other)
                &&& n.text_of(other) == m.text_of(other)
                &&& n.view_of(other) == m.view_of(other)
                &&& n.props_of(other) == m.props_of(other)
            },
{
    let x = NodeId(id);
    let n = host_after(m, OpModel::Create { id, kind });
    let k = super::apply::kind_named(kind);
    lemma_created_wf(m, x, k);
    let g = m.grown(x);
    assert(n == g.occupied(x, k));
    assert(n.nodes[id as int] == n.header(x));
    if m.free_texts.len() > 0 {
        assert(m.free_texts[m.free_texts.len() - 1] < m.texts.len());
    }
    if m.free_views.len() > 0 {
        assert(m.free_views[m.free_views.len() - 1] < m.views.len());
    }
    assert forall|other: NodeId| m.alive(other) implies n.header(other) == m.header(other) by {
        assert(g.nodes[other.0 as int] == m.nodes[other.0 as int]);
    }
    assert forall|other: NodeId| #[trigger] m.alive(other) implies {
        &&& n.alive(other)
        &&& n.list(other) == m.list(other)
        &&& n.text_of(other) == m.text_of(other)
        &&& n.view_of(other) == m.view_of(other)
        &&& n.props_of(other) == m.props_of(other)
    } by {
        assert(g.nodes[other.0 as int] == m.nodes[other.0 as int]);
        assert(g.children[other.0 as int] == m.children[other.0 as int]);
        assert(g.props[other.0 as int] == m.props[other.0 as int]);
        assert(m.nodes[other.0 as int] == m.header(other));
    }
}

/// Rows of a fresh node: where no row waits to be used again, a text is empty,
/// 14 points high and white, and a view paints nothing.
pub proof fn law_fresh_rows_are_blank(m: HostModel, id: u32, kind: u8)
    requires
        m.wf(),
        id < 0xFFFF_FFFE,
        !m.alive(NodeId(id)),
        m.free_texts.len() == 0,
        m.free_views.len() == 0,
    ensures
        ({
            let n = host_after(m, OpModel::Create { id, kind });
            &&& kind == 1 ==> n.text_of(NodeId(id)) == Some(
                TextModel {
                    text: Seq::empty(),
                    font_size: Scalar(0x4160_0000),
                    color: 0xFFFF_FFFF,
                },
            )
            &&& kind != 1 ==> n.view_of(NodeId(id)) == Some(
                ViewRow { color: 0, radius: Scalar(0), border_w: Scalar(0), border_color: 0 },
            )
        }),
{
    law_created_node_is_there(m, id, kind);
}

/// A removed node is gone: not alive, in no list, without children,
/// listeners or rows. Every other node is as it was but for its place in the
/// old parent's list.
pub proof fn law_removed_node_is_gone(m: HostModel, id: u32)
    requires
        m.wf(),
        m.alive(NodeId(id)),
    ensures
        ({
            let n = host_after(m, OpModel::Remove { id });
            &&& !n.alive(NodeId(id))
            &&& n.text_of(NodeId(id)) is None
            &&& n.view_of(NodeId(id)) is None
            &&& n.props_of(NodeId(id)).listeners == 0
            &&& n.props[id as int].listeners == 0 && !n.props[id as int].focusable
            &&& n.live + 1 == m.live
            &&& n.list(NodeId(id)).len() == 0
        }),
        forall|p: NodeId|
            !(#[trigger] host_after(m, OpModel::Remove { id }).list(p)).contains(NodeId(id)),
        forall|other: NodeId|
            other.0 != id && #[trigger] m.alive(other) ==> {
                let n = host_after(m, OpModel::Remove { id });
                &&& n.alive(other)
                &&& n.text_of(other) == m.text_of(other)
                &&& n.view_of(other) == m.view_of(other)
                &&& n.props_of(other) == m.props_of(other)
                &&& n.header(other).kind == m.header(other).kind
                &&& n.header(other).style == m.header(other).style
                &&& n.header(other).parent == m.header(other).parent
            },
{
    let x = NodeId(id);
    let u = m.unlinked(x);
    let n = host_after(m, OpModel::Remove { id });
    lemma_unlinked_wf(m, x);
    lemma_removed_wf(m, x);
    assert forall|p: NodeId| !(#[trigger] n.list(p)).contains(x) by {
        assert(!u.list(p).contains(x));
        if p.0 == NodeId::NIL {
            assert(n.roots == u.roots);
        }
    }
    assert forall|other: NodeId| other.0 != id && #[trigger] m.alive(other) implies {
        &&& n.alive(other)
        &&& n.text_of(other) == m.text_of(other)
        &&& n.view_of(other) == m.view_of(other)
        &&& n.props_of(other) == m.props_of(other)
        &&& n.header(other).kind == m.header(other).kind
        &&& n.header(other).style == m.header(other).style
        &&& n.header(other).parent == m.header(other).parent
    } by {
        assert(n.nodes[other.0 as int] == u.nodes[other.0 as int]);
        assert(same_place(m.nodes[other.0 as int], u.nodes[other.0 as int]));
        assert(m.nodes[other.0 as int] == m.header(other));
    }
}

// ---------------------------------------------------------------------- places

/// True of every node but `x`.
pub open spec fn but(x: NodeId) -> spec_fn(NodeId) -> bool {
    |y: NodeId| y != x
}

/// Two lists hold the nodes other than `x` in the same order.
pub open spec fn same_but(a: Seq<NodeId>, b: Seq<NodeId>, x: NodeId) -> bool {
    a.filter(but(x)) == b.filter(but(x))
}

proof fn lemma_filter_without(s: Seq<NodeId>, x: NodeId)
    ensures
        crate::host::model::without(s, x).filter(but(x)) == s.filter(but(x)),
{
    let keep = but(x);
    lemma_position(s, x);
    let p = position(s, x);
    if p < s.len() {
        lemma_filter_gap(s, p, x);
    }
}

proof fn lemma_filter_gap(s: Seq<NodeId>, p: int, x: NodeId)
    requires
        0 <= p < s.len(),
        s[p] == x,
    ensures
        s.remove(p).filter(but(x)) == s.filter(but(x)),
{
    let keep = but(x);
    let a = s.take(p);
    let b = s.skip(p + 1);
    assert(s.remove(p) =~= a + b);
    assert(s =~= a + seq![x] + b);
    Seq::filter_distributes_over_add(a, b, keep);
    Seq::filter_distributes_over_add(a + seq![x], b, keep);
    Seq::filter_distributes_over_add(a, seq![x], keep);
    assert(seq![x].filter(keep) =~= Seq::<NodeId>::empty()) by {
        reveal(Seq::filter);
        assert(seq![x].drop_last() =~= Seq::<NodeId>::empty());
        assert(Seq::<NodeId>::empty().filter(keep) =~= Seq::<NodeId>::empty());
    }
    assert(a.filter(keep) + Seq::<NodeId>::empty() =~= a.filter(keep));
}

/// A placed node is where the op says: it names the parent as its own, the
/// parent lists it once, right before the named sibling or else last, and no
/// other list has it. All other nodes keep their parents and their order, and
/// the node is laid out again.
pub proof fn law_placed_node_is_there(m: HostModel, parent: u32, child: u32, before: u32)
    requires
        m.wf(),
        applicable(m, OpModel::Place { parent, child, before }),
    ensures
        ({
            let n = host_after(m, OpModel::Place { parent, child, before });
            let list = n.list(NodeId(parent));
            &&& n.alive(NodeId(child))
            &&& n.header(NodeId(child)).parent == parent
            &&& awaits_layout(n, NodeId(child))
            &&& n.paint_dirty
            &&& list.no_duplicates()
            &&& exists|k: int|
                {
                    &&& 0 <= k < list.len()
                    &&& #[trigger] list[k] == NodeId(child)
                    &&& m.list(NodeId(parent)).contains(NodeId(before)) && before != child ==> k + 1
                        < list.len() && list[k + 1] == NodeId(before)
                    &&& !m.list(NodeId(parent)).contains(NodeId(before)) ==> k + 1 == list.len()
                }
            &&& n.text_of(NodeId(child)) == m.text_of(NodeId(child))
            &&& n.view_of(NodeId(child)) == m.view_of(NodeId(child))
            &&& n.header(NodeId(child)).kind == m.header(NodeId(child)).kind
            &&& n.header(NodeId(child)).style == m.header(NodeId(child)).style
        }),
        forall|q: NodeId|
            q.0 != parent ==> !(#[trigger] host_after(
                m,
                OpModel::Place { parent, child, before },
            ).list(q)).contains(NodeId(child)),
        forall|q: NodeId|
            same_but(
                #[trigger] host_after(m, OpModel::Place { parent, child, before }).list(q),
                m.list(q),
                NodeId(child),
            ),
{
    let (p, c, b) = (NodeId(parent), NodeId(child), NodeId(before));
    let n = host_after(m, OpModel::Place { parent, child, before });
    lemma_placed_wf(m, p, c, b);
    let u = m.unlinked(c);
    lemma_unlinked_wf(m, c);
    lemma_placed_lists(m, p, c, b, p);
    let rest = crate::host::model::without(m.list(p), c);
    let list = n.list(p);
    assert(m.list(p).no_duplicates()) by {
        if parent != NodeId::NIL {
            assert(m.children[parent as int].no_duplicates());
        }
    }
    lemma_without(m.list(p), c);
    lemma_spliced(rest, c, b);
    lemma_position(rest, b);
    let k = position(rest, b);
    assert(list[k] == c);
    if m.list(p).contains(b) && b != c {
        assert(rest.contains(b));
        assert(list[k + 1] == rest[k]);
    }
    assert(n.nodes[child as int] == n.header(c));
    lemma_flag_bits(u.header(c).flags.0);
    assert(u.header(c).kind == m.header(c).kind);
    assert(u.header(c).style == m.header(c).style);
    assert forall|q: NodeId| q.0 != parent implies !(#[trigger] n.list(q)).contains(c) by {
        lemma_placed_lists(m, p, c, b, q);
        assert(u.list(q) == crate::host::model::without(m.list(q), c)) by {
            assert(n.list(q) == u.list(q));
        }
        assert(!u.list(q).contains(c));
    }
    assert forall|q: NodeId| same_but(#[trigger] n.list(q), m.list(q), c) by {
        lemma_placed_lists(m, p, c, b, q);
        lemma_filter_without(m.list(q), c);
        if q == p {
            lemma_filter_gap(list, k, c);
            assert(list.remove(k) =~= rest);
        }
    }
}

/// A detached node is in no list and has no parent, but stays alive with its
/// content; all other nodes keep their order.
pub proof fn law_detached_node_stays(m: HostModel, id: u32)
    requires
        m.wf(),
        m.alive(NodeId(id)),
    ensures
        ({
            let n = host_after(m, OpModel::Detach { id });
            &&& n.alive(NodeId(id))
            &&& n.header(NodeId(id)).parent == 0xFFFF_FFFE
            &&& n.text_of(NodeId(id)) == m.text_of(NodeId(id))
            &&& n.view_of(NodeId(id)) == m.view_of(NodeId(id))
            &&& n.props_of(NodeId(id)) == m.props_of(NodeId(id))
            &&& n.live == m.live
            &&& m.header(NodeId(id)).parent != 0xFFFF_FFFE ==> n.paint_dirty
            &&& m.alive(m.parent_of(NodeId(id))) ==> awaits_layout(n, m.parent_of(NodeId(id)))
        }),
        forall|p: NodeId|
            !(#[trigger] host_after(m, OpModel::Detach { id }).list(p)).contains(NodeId(id)),
        forall|q: NodeId|
            same_but(
                #[trigger] host_after(m, OpModel::Detach { id }).list(q),
                m.list(q),
                NodeId(id),
            ),
{
    let x = NodeId(id);
    let n = host_after(m, OpModel::Detach { id });
    let p = NodeId(m.header(x).parent);
    lemma_unlinked_wf(m, x);
    assert(m.nodes[id as int] == m.header(x));
    if m.alive(p) {
        lemma_flag_bits(m.header(p).flags.0);
        lemma_flag_bits(n.header(p).flags.0);
    }
    assert forall|q: NodeId| same_but(#[trigger] n.list(q), m.list(q), x) by {
        if q == p && p.0 != NodeId::DETACHED {
            lemma_filter_without(m.list(q), x);
        } else {
            assert(n.list(q) == m.list(q));
        }
    }
}

// ---------------------------------------------------------------- transactions

/// The ops of a transaction take effect one after the other: two
/// transactions do what one with all their ops does.
pub proof fn law_transactions_join(m: HostModel, a: Seq<OpModel>, b: Seq<OpModel>, k: nat)
    requires
        k <= b.len(),
    ensures
        host_run(m, a + b, a.len() + k) == host_run(host_run(m, a, a.len()), b, k),
    decreases k,
{
    let all = a + b;
    if k == 0 {
        lemma_run_prefix(m, a, b, a.len());
    } else {
        law_transactions_join(m, a, b, (k - 1) as nat);
        assert(all[a.len() + k - 1] == b[k - 1]);
    }
}

proof fn lemma_run_prefix(m: HostModel, a: Seq<OpModel>, b: Seq<OpModel>, k: nat)
    requires
        k <= a.len(),
    ensures
        host_run(m, a + b, k) == host_run(m, a, k),
    decreases k,
{
    if k > 0 {
        lemma_run_prefix(m, a, b, (k - 1) as nat);
        assert((a + b)[k - 1] == a[k - 1]);
    }
}

/// A transaction of one op does what the op does, and one without ops
/// nothing.
pub proof fn law_one_op(m: HostModel, op: OpModel)
    ensures
        host_run(m, seq![op], 1) == host_after(m, op),
        host_run(m, Seq::empty(), 0) == m,
{
    reveal_with_fuel(host_run, 2);
}

/// Which ops can be applied: an id can be created below the two that stand for
/// none, a node can be placed where it stays out of its own subtree, a slot
/// that is there can be unlinked, a live node can be removed, and a style can
/// be defined below the one that stands for none. Every other op always can.
pub proof fn law_what_can_be_applied(
    m: HostModel,
    id: u32,
    kind: u8,
    parent: u32,
    before: u32,
    style: Style,
    op: OpModel,
)
    ensures
        applicable(m, OpModel::Create { id, kind }) <==> id < 0xFFFF_FFFE,
        applicable(m, OpModel::Place { parent, child: id, before }) <==> m.placeable(
            NodeId(parent),
            NodeId(id),
        ),
        applicable(m, OpModel::Detach { id }) <==> id < m.nodes.len(),
        applicable(m, OpModel::Remove { id }) <==> m.alive(NodeId(id)),
        applicable(m, OpModel::Style { wire_id: id, style }) <==> id < 0xFFFF_FFFF,
        !(op is Create || op is Place || op is Detach || op is Remove || op is Style)
            ==> applicable(m, op),
{
}

/// Only a style op touches the layout state: it defines the style. The caches
/// are emptied where the style was defined before, and kept where it was not.
pub proof fn law_only_styles_touch_layout(
    l: LayoutsModel,
    m: HostModel,
    wire_id: u32,
    style: Style,
    op: OpModel,
)
    ensures
        !(op is Style) ==> layouts_after(l, m, op) == l,
        ({
            let n = layouts_after(l, m, OpModel::Style { wire_id, style });
            &&& n.style(StyleId(wire_id)) == style
            &&& !l.defined(wire_id) ==> n.caches == l.caches
            &&& l.defined(wire_id) ==> forall|i: int|
                0 <= i < n.caches.len() ==> (#[trigger] n.caches[i]).is_empty()
            &&& n.rects == l.rects && n.hits == l.hits && n.misses == l.misses
        }),
{
}

/// The op that is told as rejected is the first that cannot be applied to the
/// tree as the ops before it leave it; no other op is told, and none where all
/// can be applied.
pub proof fn law_first_failure_is_told(m: HostModel, ops: Seq<OpModel>, k: nat, j: nat)
    requires
        fails_at(m, ops, k),
    ensures
        k < ops.len(),
        !applicable(host_run(m, ops, k), ops[k as int]),
        j < k ==> applicable(host_run(m, ops, j), ops[j as int]),
        fails_at(m, ops, j) ==> j == k,
        !runs(m, ops, ops.len()),
{
    if j < k {
        assert(applicable(host_run(m, ops, j), ops[j as int]));
    }
    if fails_at(m, ops, j) && k < j {
        assert(applicable(host_run(m, ops, k), ops[k as int]));
    }
}

/// Texts are interned: a text that the table has stays where it is, another
/// one is added behind the others.
pub proof fn law_texts_are_interned_once(st: Seq<Seq<char>>, text: Seq<char>, i: int)
    ensures
        interned(st, text).contains(text),
        st.contains(text) ==> interned(st, text) == st,
        !st.contains(text) ==> interned(st, text).len() == st.len() + 1,
        0 <= i < st.len() ==> interned(st, text)[i] == st[i],
        interned(interned(st, text), text) == interned(st, text),
{
    if !st.contains(text) {
        assert(interned(st, text)[st.len() as int] == text);
    }
}

} // verus!
