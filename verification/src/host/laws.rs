//! What holds of the host across its operations.

use super::header::{NodeFlags, NodeHeader, NodeId, NodeKind, ViewRow};
use super::model::{
    lemma_position, lemma_spliced, lemma_without, owns_text, owns_view, position, spliced, tally,
    without, HostModel, Tally,
};
use super::proofs::{
    lemma_created_wf, lemma_depth, lemma_path_up, lemma_placed_wf, lemma_removed_wf,
    lemma_unlinked_wf,
};
use super::tree::law_document_keeps_open_paths;
use crate::scalar::Scalar;
use vstd::prelude::*;

verus! {

/// The top level is what hangs off nil: a node is a root exactly where its
/// parent is nil.
pub proof fn law_roots_are_children_of_nil(m: HostModel, id: NodeId)
    requires
        m.wf(),
        m.alive(id),
    ensures
        m.list(NodeId(NodeId::NIL)).contains(id) <==> m.parent_of(id).0 == NodeId::NIL,
{
    assert(m.nodes[id.0 as int] == m.header(id));
    if m.roots.contains(id) {
        let k = choose|k: int| 0 <= k < m.roots.len() && m.roots[k] == id;
        assert(m.alive(m.roots[k]));
    }
}

/// A node is listed under one parent at most, and there once.
pub proof fn law_one_parent(m: HostModel, p: NodeId, q: NodeId, i: int, j: int)
    requires
        m.wf(),
        0 <= i < m.list(p).len(),
        0 <= j < m.list(q).len(),
        m.list(p)[i] == m.list(q)[j],
    ensures
        p == q,
        i == j,
{
    let c = m.list(p)[i];
    if p.0 == NodeId::NIL {
        assert(m.roots[i] == c);
    } else {
        assert(m.children[p.0 as int][i] == c);
    }
    if q.0 == NodeId::NIL {
        assert(m.roots[j] == c);
    } else {
        assert(m.children[q.0 as int][j] == c);
    }
    if p.0 != NodeId::NIL {
        assert(m.children[p.0 as int].no_duplicates());
    }
}

pub(crate) proof fn lemma_placed_lists(m: HostModel, parent: NodeId, child: NodeId, before: NodeId, q: NodeId)
    requires
        m.wf(),
        m.placeable(parent, child),
    ensures
        m.placed(parent, child, before).list(q) == (if q == parent {
            spliced(without(m.list(q), child), child, before)
        } else {
            without(m.list(q), child)
        }),
{
    let old_parent = NodeId(m.header(child).parent);
    let u = m.unlinked(child);
    lemma_unlinked_wf(m, child);
    lemma_position(m.list(q), child);
    assert(m.nodes[child.0 as int] == m.header(child));
    assert(u.list(q) == without(m.list(q), child)) by {
        if q != old_parent {
            if m.list(q).contains(child) {
                let k = choose|k: int| 0 <= k < m.list(q).len() && m.list(q)[k] == child;
                if q.0 == NodeId::NIL {
                    assert(m.roots[k] == child);
                } else {
                    assert(m.children[q.0 as int][k] == child);
                }
            }
        }
    }
}

/// Placing a node before a sibling puts it right in front of that sibling;
/// the others keep their order, and the old parent's list loses the node.
pub proof fn law_place_before(m: HostModel, parent: NodeId, child: NodeId, before: NodeId)
    requires
        m.wf(),
        m.placeable(parent, child),
        before != child,
        m.list(parent).contains(before),
    ensures
        ({
            let after = m.placed(parent, child, before).list(parent);
            let k = position(after, child);
            &&& 0 <= k < after.len() - 1
            &&& after[k] == child
            &&& after[k + 1] == before
            &&& after.remove(k) == without(m.list(parent), child)
        }),
        forall|q: NodeId|
            q != parent ==> #[trigger] m.placed(parent, child, before).list(q) == without(
                m.list(q),
                child,
            ),
{
    lemma_placed_lists(m, parent, child, before, parent);
    assert forall|q: NodeId| q != parent implies #[trigger] m.placed(parent, child, before).list(q)
        == without(m.list(q), child) by {
        lemma_placed_lists(m, parent, child, before, q);
    }
    let list = m.list(parent);
    assert(list.no_duplicates()) by {
        if parent.0 != NodeId::NIL {
            assert(m.children[parent.0 as int].no_duplicates());
        }
    }
    lemma_without(list, child);
    let rest = without(list, child);
    assert(rest.contains(before));
    lemma_position(rest, before);
    lemma_spliced(rest, child, before);
    let after = spliced(rest, child, before);
    let p = position(rest, before);
    assert(after[p] == child);
    assert(after[p + 1] == rest[p]);
    lemma_position(after, child);
    assert(position(after, child) == p);
    assert(after.remove(p) =~= rest);
}

/// Appending a node puts it last; a node that the parent already had moves
/// there, and the number of children stays.
pub proof fn law_append_moves_last(m: HostModel, parent: NodeId, child: NodeId)
    requires
        m.wf(),
        m.placeable(parent, child),
    ensures
        m.placed(parent, child, NodeId(NodeId::NIL)).list(parent) == without(
            m.list(parent),
            child,
        ).push(child),
        m.list(parent).contains(child) ==> m.placed(parent, child, NodeId(NodeId::NIL)).list(
            parent,
        ).len() == m.list(parent).len(),
{
    let nil = NodeId(NodeId::NIL);
    lemma_placed_lists(m, parent, child, nil, parent);
    let list = m.list(parent);
    assert(list.no_duplicates()) by {
        if parent.0 != NodeId::NIL {
            assert(m.children[parent.0 as int].no_duplicates());
        }
    }
    lemma_without(list, child);
    lemma_position(list, child);
    let rest = without(list, child);
    lemma_position(rest, nil);
    assert(!rest.contains(nil)) by {
        if rest.contains(nil) {
            assert(list.contains(nil));
            let k = choose|k: int| 0 <= k < list.len() && list[k] == nil;
            if parent.0 == NodeId::NIL {
                assert(m.alive(m.roots[k]));
            } else {
                assert(m.alive(m.children[parent.0 as int][k]));
            }
        }
    }
    assert(rest.insert(rest.len() as int, child) =~= rest.push(child));
}

/// Detaching a node right after it was placed gives every list back as it
/// was before, where the node was detached before too.
pub proof fn law_detach_undoes_place(
    m: HostModel,
    parent: NodeId,
    child: NodeId,
    before: NodeId,
    q: NodeId,
)
    requires
        m.wf(),
        m.placeable(parent, child),
        m.parent_of(child).0 == NodeId::DETACHED,
    ensures
        m.placed(parent, child, before).unlinked(child).list(q) == m.list(q),
        m.placed(parent, child, before).unlinked(child).parent_of(child) == m.parent_of(child),
{
    let n = m.placed(parent, child, before);
    lemma_placed_wf(m, parent, child, before);
    lemma_placed_lists(m, parent, child, before, q);
    lemma_placed_lists(m, parent, child, before, parent);
    lemma_unlinked_wf(m, child);
    lemma_unlinked_wf(n, child);
    assert(m.unlinked(child) == m);
    assert(n.nodes[child.0 as int] == n.header(child));
    assert(!m.list(q).contains(child));
    lemma_position(m.list(q), child);
    if q == parent {
        let list = m.list(parent);
        assert(list.no_duplicates()) by {
            if parent.0 != NodeId::NIL {
                assert(m.children[parent.0 as int].no_duplicates());
            }
        }
        lemma_position(list, before);
        lemma_spliced(list, child, before);
        let after = spliced(list, child, before);
        lemma_position(after, child);
        assert(after[position(list, before)] == child);
        assert(position(after, child) == position(list, before));
        assert(after.remove(position(list, before)) =~= list);
    }
}

/// A slot that is freed and occupied again carries the next generation, so a
/// reference of the old occupant never names the new one.
pub proof fn law_reuse_bumps_generation(m: HostModel, id: NodeId, kind: NodeKind)
    requires
        m.wf(),
        m.alive(id),
        kind.0 as int % 0x8000 != 0x7FFF,
    ensures
        !m.removed(id).alive(id),
        m.removed(id).created(id, kind).alive(id),
        m.removed(id).created(id, kind).header(id).generation == (m.header(id).generation + 1)
            % 0x1_0000,
        m.removed(id).created(id, kind).header(id).generation != m.header(id).generation,
        m.removed(id).live + 1 == m.live,
        m.removed(id).created(id, kind).live == m.live,
{
    lemma_removed_wf(m, id);
    lemma_unlinked_wf(m, id);
    assert(m.nodes[id.0 as int] == m.header(id));
    let n = m.removed(id);
    lemma_created_wf(n, id, kind);
    let u = m.unlinked(id);
    assert(u.header(id).generation == m.header(id).generation);
}

/// Creating over a live slot changes nothing.
pub proof fn law_create_keeps_live_slot(m: HostModel, id: NodeId, kind: NodeKind)
    requires
        m.alive(id),
    ensures
        m.created(id, kind) == m,
{
}

/// A text node's content is its own: setting one leaves every other text
/// node's row as it was.
pub proof fn law_text_rows_are_private(m: HostModel, id: NodeId, other: NodeId, text: Seq<char>)
    requires
        m.wf(),
        id != other,
    ensures
        m.text_set(id, text).text_of(other) == m.text_of(other),
        m.text_of(id) is Some ==> m.text_set(id, text).text_of(id).unwrap().text == text,
{
    if m.text_of(id) is Some {
        let i = id.0 as int;
        let j = other.0 as int;
        assert(owns_text(m.nodes[i]));
        if m.text_of(other) is Some {
            assert(owns_text(m.nodes[j]));
        }
    }
}

/// A node's paint is its own, in the same way.
pub proof fn law_view_rows_are_private(m: HostModel, id: NodeId, other: NodeId, row: ViewRow)
    requires
        m.wf(),
        id != other,
    ensures
        m.painted(id, row).view_of(other) == m.view_of(other),
        m.view_of(id) is Some ==> m.painted(id, row).view_of(id) == Some(row),
{
    if m.view_of(id) is Some {
        let i = id.0 as int;
        let j = other.0 as int;
        assert(owns_view(m.nodes[i]));
        if m.view_of(other) is Some {
            assert(owns_view(m.nodes[j]));
        }
    }
}

/// A change of color alone owes a repaint and no layout.
pub proof fn law_recolor_keeps_layout(m: HostModel, id: NodeId, color: u32)
    requires
        m.text_of(id) is Some,
        !m.text_of(id).unwrap().font_size.nan(),
    ensures
        ({
            let n = m.text_styled(id, m.text_of(id).unwrap().font_size, color);
            &&& n.nodes == m.nodes
            &&& n.layout_dirty == m.layout_dirty
            &&& n.paint_dirty
            &&& n.text_of(id).unwrap().color == color
        }),
{
}

/// A node is queued for layout once, however often it is marked.
pub proof fn law_marked_once(m: HostModel, id: NodeId)
    ensures
        ({
            let layout = NodeFlags(NodeFlags::LAYOUT);
            m.marked(id, layout).marked(id, layout) == m.marked(id, layout)
        }),
{
    let layout = NodeFlags(NodeFlags::LAYOUT);
    let once = m.marked(id, layout);
    if m.alive(id) {
        let f = m.header(id).flags.0;
        assert(((f | 1u8) & 1u8) != 0) by (bit_vector);
        assert((f | 1u8) | 1u8 == f | 1u8) by (bit_vector);
        assert(once.marked(id, layout).nodes =~= once.nodes);
    }
}

proof fn lemma_marked_queued(m: HostModel, id: NodeId, flags: NodeFlags)
    requires
        m.dirty_queued(),
    ensures
        m.marked(id, flags).dirty_queued(),
{
    let n = m.marked(id, flags);
    if m.alive(id) {
        let f = m.header(id).flags.0;
        let g = flags.0;
        assert((f | g) & 1u8 != 0 ==> f & 1u8 != 0 || g & 1u8 != 0) by (bit_vector);
        assert forall|i: int|
            #![trigger n.nodes[i]]
            0 <= i < n.nodes.len() && !n.nodes[i].vacant() && n.nodes[i].flags.has(
                NodeFlags::LAYOUT,
            ) implies n.layout_dirty.contains(NodeId(i as u32)) by {
            let x = NodeId(i as u32);
            if i == id.0 {
                assert(x == id);
                if m.header(id).flags.has(NodeFlags::LAYOUT) {
                    assert(m.nodes[i].flags.has(NodeFlags::LAYOUT));
                    lemma_push_contains(m.layout_dirty, id, x);
                } else {
                    assert(n.layout_dirty[m.layout_dirty.len() as int] == id);
                }
            } else {
                assert(n.nodes[i] == m.nodes[i]);
                lemma_push_contains(m.layout_dirty, id, x);
            }
        }
    } else {
        assert(n.nodes == m.nodes && n.layout_dirty == m.layout_dirty);
    }
}

proof fn lemma_push_contains(s: Seq<NodeId>, a: NodeId, x: NodeId)
    ensures
        s.contains(x) ==> s.push(a).contains(x),
{
    if s.contains(x) {
        let k = choose|k: int| 0 <= k < s.len() && s[k] == x;
        assert(s.push(a)[k] == x);
    }
}

/// No dirty node is lost: where every live node with its layout flag up is
/// queued, this still holds after any operation of the host.
pub proof fn law_dirty_nodes_stay_queued(
    m: HostModel,
    id: NodeId,
    parent: NodeId,
    before: NodeId,
    kind: NodeKind,
    flags: NodeFlags,
    text: Seq<char>,
    size: Scalar,
    word: u32,
    hidden: bool,
)
    requires
        m.wf(),
        m.dirty_queued(),
        id.0 < NodeId::DETACHED,
        kind.0 as int % 0x8000 != 0x7FFF,
    ensures
        m.created(id, kind).dirty_queued(),
        m.in_range(id) ==> m.unlinked(id).dirty_queued(),
        m.alive(id) ==> m.removed(id).dirty_queued(),
        m.placeable(parent, id) ==> m.placed(parent, id, before).dirty_queued(),
        m.marked(id, flags).dirty_queued(),
        m.text_set(id, text).dirty_queued(),
        m.text_styled(id, size, word).dirty_queued(),
        m.filled(id, word).dirty_queued(),
        m.styled(id, word).dirty_queued(),
        m.concealed(id, hidden).dirty_queued(),
{
    let layout = NodeFlags(NodeFlags::LAYOUT);
    lemma_marked_queued(m, id, flags);
    let i0 = id.0 as int;
    assert(m.created(id, kind).dirty_queued()) by {
        if !m.alive(id) {
            let n = m.created(id, kind);
            lemma_created_wf(m, id, kind);
            assert(0u8 & 1u8 == 0) by (bit_vector);
            assert forall|i: int|
                #![trigger n.nodes[i]]
                0 <= i < n.nodes.len() && !n.nodes[i].vacant() && n.nodes[i].flags.has(
                    NodeFlags::LAYOUT,
                ) implies n.layout_dirty.contains(NodeId(i as u32)) by {
                if i != i0 && i < m.nodes.len() {
                    assert(n.nodes[i] == m.nodes[i]);
                }
            }
        }
    }
    if m.in_range(id) {
        let p = NodeId(m.header(id).parent);
        if p.0 != NodeId::DETACHED {
            let c = m.with_list(p, without(m.list(p), id)).with_parent(id, NodeId::DETACHED);
            assert(c.dirty_queued()) by {
                assert forall|i: int|
                    #![trigger c.nodes[i]]
                    0 <= i < c.nodes.len() && !c.nodes[i].vacant() && c.nodes[i].flags.has(
                        NodeFlags::LAYOUT,
                    ) implies c.layout_dirty.contains(NodeId(i as u32)) by {
                    assert(m.nodes[i].flags == c.nodes[i].flags);
                }
            }
            lemma_marked_queued(c, p, layout);
        }
    }
    if m.alive(id) {
        let u = m.unlinked(id);
        let n = u.freed(id);
        assert forall|i: int|
            #![trigger n.nodes[i]]
            0 <= i < n.nodes.len() && !n.nodes[i].vacant() && n.nodes[i].flags.has(
                NodeFlags::LAYOUT,
            ) implies n.layout_dirty.contains(NodeId(i as u32)) by {
            assert(u.nodes[i] == n.nodes[i]);
        }
    }
    if m.placeable(parent, id) {
        lemma_unlinked_wf(m, id);
        let u = m.unlinked(id);
        let c = u.with_list(parent, spliced(u.list(parent), id, before)).with_parent(id, parent.0);
        assert(c.dirty_queued()) by {
            assert forall|i: int|
                #![trigger c.nodes[i]]
                0 <= i < c.nodes.len() && !c.nodes[i].vacant() && c.nodes[i].flags.has(
                    NodeFlags::LAYOUT,
                ) implies c.layout_dirty.contains(NodeId(i as u32)) by {
                assert(u.nodes[i].flags == c.nodes[i].flags);
            }
        }
        lemma_marked_queued(c, id, layout);
    }
    if m.text_of(id) is Some {
        let aux = m.header(id).aux as int;
        let a = HostModel {
            texts: m.texts.update(aux, super::header::TextModel { text, ..m.texts[aux] }),
            ..m
        };
        assert(a.nodes == m.nodes && a.layout_dirty == m.layout_dirty);
        lemma_marked_queued(a, id, NodeFlags(NodeFlags::LAYOUT_TEXT));
        let b = HostModel {
            texts: m.texts.update(
                aux,
                super::header::TextModel { font_size: size, color: word, ..m.texts[aux] },
            ),
            ..m
        };
        assert(b.nodes == m.nodes && b.layout_dirty == m.layout_dirty);
        lemma_marked_queued(b, id, NodeFlags(NodeFlags::LAYOUT_TEXT));
    }
    assert(m.filled(id, word).nodes == m.nodes && m.filled(id, word).layout_dirty
        == m.layout_dirty);
    if m.alive(id) {
        let a = m.with_header(id, NodeHeader { style: word, ..m.header(id) });
        assert(a.dirty_queued()) by {
            assert forall|i: int|
                #![trigger a.nodes[i]]
                0 <= i < a.nodes.len() && !a.nodes[i].vacant() && a.nodes[i].flags.has(
                    NodeFlags::LAYOUT,
                ) implies a.layout_dirty.contains(NodeId(i as u32)) by {
                assert(m.nodes[i].flags == a.nodes[i].flags && m.nodes[i].kind == a.nodes[i].kind);
            }
        }
        lemma_marked_queued(a, id, layout);
        let b = m.with_header(id, m.header(id).with_hidden(hidden));
        assert(m.nodes[i0] == m.header(id));
        assert(b.dirty_queued()) by {
            assert forall|i: int|
                #![trigger b.nodes[i]]
                0 <= i < b.nodes.len() && !b.nodes[i].vacant() && b.nodes[i].flags.has(
                    NodeFlags::LAYOUT,
                ) implies b.layout_dirty.contains(NodeId(i as u32)) by {
                assert(m.nodes[i].flags == b.nodes[i].flags);
                assert(!m.nodes[i].vacant());
            }
        }
        lemma_marked_queued(b, id, layout);
    } else {
        lemma_marked_queued(m, id, layout);
    }
}

// ------------------------------------------------------------- what can be read

/// A path starts at its node, goes from each node to the node that its record
/// names as parent, and ends at a node that names none.
pub proof fn law_paths_go_from_child_to_parent(m: HostModel, id: NodeId)
    requires
        m.wf(),
    ensures
        m.path_up(id).len() > 0,
        m.path_up(id)[0] == id,
        forall|i: int|
            0 <= i < m.path_up(id).len() - 1 ==> m.alive(#[trigger] m.path_up(id)[i]) && m.path_up(
                id,
            )[i + 1].0 == m.header(m.path_up(id)[i]).parent,
        m.alive(m.path_up(id).last()) ==> m.header(m.path_up(id).last()).parent >= 0xFFFF_FFFE,
    decreases m.depth(id),
{
    lemma_path_up(m, id);
    let p = m.parent_of(id);
    let path = m.path_up(id);
    if p.0 < 0xFFFF_FFFE {
        lemma_depth(m, id);
        law_paths_go_from_child_to_parent(m, p);
        let rest = m.path_up(p);
        assert(path == seq![id] + rest);
        assert forall|i: int| 0 <= i < path.len() - 1 implies m.alive(#[trigger] path[i]) && path[i
            + 1].0 == m.header(path[i]).parent by {
            if i > 0 {
                assert(path[i] == rest[i - 1]);
                assert(path[i + 1] == rest[i]);
            } else {
                assert(path[1] == rest[0]);
            }
        }
        assert(path.last() == rest.last());
    } else {
        assert(path =~= seq![id]);
    }
}

/// A node can be placed exactly where it is live and the parent is the top
/// level, or a slot whose path does not hold the node: neither the node itself
/// nor anything below it.
pub proof fn law_where_a_node_can_be_placed(m: HostModel, parent: NodeId, child: NodeId)
    requires
        m.wf(),
    ensures
        m.placeable(parent, child) ==> m.alive(child) && parent != child,
        m.alive(child) ==> m.placeable(NodeId(0xFFFF_FFFF), child),
        m.alive(child) && parent.0 < m.nodes.len() ==> (m.placeable(parent, child) <==> forall|
            i: int,
        |
            0 <= i < m.path_up(parent).len() ==> #[trigger] m.path_up(parent)[i] != child),
        parent.0 >= m.nodes.len() && parent.0 != 0xFFFF_FFFF ==> !m.placeable(parent, child),
{
    lemma_path_up(m, parent);
    assert(m.path_up(parent)[0] == parent);
    assert(m.path_up(parent).contains(parent));
    if parent.0 == 0xFFFF_FFFF && m.alive(child) {
        assert(m.nodes.len() <= 0xFFFF_FFFE);
    }
}

/// Marking joins the marks to those that a live node has, queues it once its
/// layout bit goes up, and owes a repaint; nothing else changes.
pub proof fn law_marks_are_joined(m: HostModel, id: NodeId, flags: NodeFlags)
    ensures
        ({
            let n = m.marked(id, flags);
            let was = m.header(id).flags.0;
            let up = m.alive(id) && flags.0 & 1 != 0 && was & 1 == 0;
            &&& n.paint_dirty
            &&& m.alive(id) ==> n.header(id).flags.0 == was | flags.0
            &&& m.alive(id) ==> n.header(id) == (NodeHeader {
                flags: n.header(id).flags,
                ..m.header(id)
            })
            &&& up ==> n.layout_dirty == m.layout_dirty.push(id)
            &&& !up ==> n.layout_dirty == m.layout_dirty
            &&& !m.alive(id) ==> n.nodes == m.nodes
            &&& n.nodes.len() == m.nodes.len()
            &&& forall|i: int|
                0 <= i < m.nodes.len() && i != id.0 ==> #[trigger] n.nodes[i] == m.nodes[i]
            &&& n == (HostModel {
                nodes: n.nodes,
                layout_dirty: n.layout_dirty,
                paint_dirty: true,
                ..m
            })
        }),
{
}

/// What is read of a slot: a live one has its record's parent; one that is not
/// has no parent, text, paint, listeners or focus.
pub proof fn law_dead_slots_read_as_nothing(m: HostModel, id: NodeId)
    ensures
        m.alive(id) <==> id.0 < m.nodes.len() && m.nodes[id.0 as int].kind != 0xFFFF,
        m.alive(id) ==> m.parent_of(id).0 == m.nodes[id.0 as int].parent,
        !m.alive(id) ==> {
            &&& m.parent_of(id).0 == 0xFFFF_FFFF
            &&& m.text_of(id) is None
            &&& m.view_of(id) is None
            &&& m.props_of(id).listeners == 0
            &&& !m.props_of(id).focusable
        },
        m.text_of(id) is Some ==> m.nodes[id.0 as int].kind as int % 0x8000 == 1,
        m.view_of(id) is Some ==> {
            let kind = m.nodes[id.0 as int].kind as int % 0x8000;
            kind == 0 || kind == 2 || kind == 3
        },
{
}

/// The rows and lists of a live node: text nodes read their own row of texts,
/// the other kinds their own row of paint, and every node its own properties
/// and children; the top level is the list of nil.
pub proof fn law_live_slots_read_their_rows(m: HostModel, id: NodeId)
    requires
        m.wf(),
        m.alive(id),
        m.header(id).aux != 0xFFFF_FFFF,
    ensures
        ({
            let h = m.nodes[id.0 as int];
            let kind = h.kind as int % 0x8000;
            &&& kind == 1 ==> m.text_of(id) == Some(m.texts[h.aux as int])
            &&& kind == 0 || kind == 2 || kind == 3 ==> m.view_of(id) == Some(
                m.views[h.aux as int],
            )
            &&& m.props_of(id) == m.props[id.0 as int]
            &&& m.list(id) == m.children[id.0 as int]
        }),
        m.list(NodeId(0xFFFF_FFFF)) == m.roots,
{
    assert(m.nodes[id.0 as int] == m.header(id));
    assert(owns_text(m.nodes[id.0 as int]) ==> m.header(id).aux < m.texts.len());
    assert(owns_view(m.nodes[id.0 as int]) ==> m.header(id).aux < m.views.len());
}

/// An empty host holds nothing and owes nothing.
pub proof fn law_empty_host(id: NodeId)
    ensures
        ({
            let m = HostModel::empty();
            &&& !m.alive(id)
            &&& m.list(id).len() == 0
            &&& m.live == 0
            &&& m.layout_dirty.len() == 0
            &&& !m.paint_dirty
        }),
{
}

/// The count of live nodes is the number of occupied slots.
pub proof fn law_live_nodes_are_counted(m: HostModel)
    requires
        m.wf(),
    ensures
        m.live == m.nodes.filter(|h: NodeHeader| h.kind != 0xFFFF).len(),
{
    lemma_tally_is_filter(m.nodes);
}

proof fn lemma_tally_is_filter(nodes: Seq<NodeHeader>)
    ensures
        tally(Tally::Live, nodes) == nodes.filter(|h: NodeHeader| h.kind != 0xFFFF).len(),
    decreases nodes.len(),
{
    reveal(Seq::filter);
    if nodes.len() > 0 {
        lemma_tally_is_filter(nodes.drop_last());
    }
}

/// A repaint is owed or not, and nothing else changes.
pub proof fn law_repaint_is_noted(m: HostModel, dirty: bool)
    ensures
        m.with_paint(dirty).paint_dirty == dirty,
        m.with_paint(dirty).with_paint(m.paint_dirty) == m,
{
}

/// What a walk of the document takes: every node, or those that are live and
/// not hidden. A hidden node is left out with all that is below it.
pub proof fn law_hidden_subtrees_are_left_out(m: HostModel, x: NodeId)
    requires
        m.wf(),
    ensures
        m.every()(x),
        m.unhidden()(x) <==> m.alive(x) && m.header(x).kind < 0x8000,
        m.document(m.unhidden()).contains(x) <==> m.document(m.every()).contains(x) && forall|
            a: NodeId,
        |
            #[trigger] m.path_up(x).contains(a) ==> m.alive(a) && m.header(a).kind < 0x8000,
{
    let keep = m.unhidden();
    law_document_keeps_open_paths(m, keep, x);
    assert forall|a: NodeId| keep(a) <==> m.alive(a) && m.header(a).kind < 0x8000 by {}
    if m.document(keep).contains(x) {
        assert forall|a: NodeId| #[trigger] m.path_up(x).contains(a) implies m.alive(a) && m.header(
            a,
        ).kind < 0x8000 by {
            assert(keep(a));
        }
    } else if m.document(m.every()).contains(x) {
        let a = choose|a: NodeId| #[trigger] m.path_up(x).contains(a) && !keep(a);
        assert(m.path_up(x).contains(a));
    }
}

/// Children are read by their place, and nil is read outside the list.
pub proof fn law_children_by_place(m: HostModel, parent: NodeId, k: int)
    ensures
        0 <= k < m.list(parent).len() ==> m.nth_child(parent, k) == m.list(parent)[k],
        k < 0 || k >= m.list(parent).len() ==> m.nth_child(parent, k).0 == 0xFFFF_FFFF,
{
}

/// A listed node is followed by the siblings behind it, up to the last; a node
/// that no list holds is followed by nothing, not even itself.
pub proof fn law_siblings_follow(m: HostModel, p: NodeId, k: int, id: NodeId)
    requires
        m.wf(),
    ensures
        0 <= k < m.list(p).len() ==> m.from_here(m.list(p)[k]) == m.list(p).skip(k),
        !m.alive(id) ==> m.from_here(id).len() == 0,
        m.alive(id) && !m.list(NodeId(m.header(id).parent)).contains(id) ==> m.from_here(id).len()
            == 0,
{
    if 0 <= k < m.list(p).len() {
        let c = m.list(p)[k];
        if p.0 == NodeId::NIL {
            assert(m.roots[k] == c);
        } else {
            assert(m.children[p.0 as int][k] == c);
            assert(m.children[p.0 as int].no_duplicates());
        }
        lemma_position(m.list(p), c);
        assert(m.list(p).contains(c));
    }
    if m.alive(id) {
        lemma_position(m.list(m.parent_of(id)), id);
    }
}

} // verus!
