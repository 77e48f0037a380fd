//! Every operation of the host keeps its invariant.

use super::header::{NodeFlags, NodeHeader, NodeId, NodeKind, NO_ROW};
use super::model::{
    counts, lemma_spliced, lemma_tally_bound, lemma_tally_update, lemma_tally_vacant, lemma_without,
    owns_text, owns_view, ranked, spliced, tally, without, HostModel, Ranking, Tally,
};
use vstd::prelude::*;

verus! {

impl HostModel {
    /// Some evidence that no node is its own ancestor.
    pub open spec fn ranking(self) -> Ranking {
        choose|r: Ranking| ranked(self.nodes, r)
    }

    /// A number that a node exceeds its parent's by.
    pub open spec fn depth(self, id: NodeId) -> nat {
        if id.0 < self.nodes.len() {
            (self.ranking().of)(id.0 as int)
        } else {
            0
        }
    }

    /// True of an id that names a slot, live or free.
    pub open spec fn in_range(self, id: NodeId) -> bool {
        id.0 < self.nodes.len()
    }

    /// `id` and its ancestors, deepest first.
    pub open spec fn path_up(self, id: NodeId) -> Seq<NodeId>
        decreases self.depth(id),
            when self.wf()
    {
        let p = self.parent_of(id);
        if p.0 >= NodeId::DETACHED {
            seq![id]
        } else {
            seq![id] + self.path_up(p)
        }
    }

    /// True where `child` can move under `parent`: the child is alive, the
    /// parent is a slot or nil, and the parent is neither the child nor one
    /// of its descendants.
    pub open spec fn placeable(self, parent: NodeId, child: NodeId) -> bool {
        &&& self.alive(child)
        &&& parent.0 == NodeId::NIL || (self.in_range(parent) && !self.path_up(parent).contains(
            child,
        ))
    }
}

/// A parent that is a slot ranks below its child.
pub proof fn lemma_depth(m: HostModel, id: NodeId)
    requires
        m.wf(),
        m.parent_of(id).0 < NodeId::DETACHED,
    ensures
        m.alive(id),
        m.in_range(m.parent_of(id)),
        m.depth(m.parent_of(id)) < m.depth(id),
{
    assert(ranked(m.nodes, m.ranking()));
    assert(m.nodes[id.0 as int] == m.header(id));
}

/// The path from a node to the top, one step unfolded.
pub proof fn lemma_path_up(m: HostModel, id: NodeId)
    requires
        m.wf(),
    ensures
        m.path_up(id).len() >= 1,
        m.path_up(id)[0] == id,
        m.parent_of(id).0 >= NodeId::DETACHED ==> m.path_up(id) == seq![id],
        m.parent_of(id).0 < NodeId::DETACHED ==> m.path_up(id) == seq![id] + m.path_up(
            m.parent_of(id),
        ),
        forall|x: NodeId|
            #[trigger] m.path_up(id).contains(x) <==> (x == id || (m.parent_of(id).0
                < NodeId::DETACHED && m.path_up(m.parent_of(id)).contains(x))),
{
    let p = m.parent_of(id);
    let s = m.path_up(id);
    if p.0 < NodeId::DETACHED {
        lemma_depth(m, id);
        let t = m.path_up(p);
        assert(s =~= seq![id] + t);
        assert forall|x: NodeId| #[trigger] s.contains(x) <==> (x == id || t.contains(x)) by {
            if t.contains(x) {
                let i = choose|i: int| 0 <= i < t.len() && t[i] == x;
                assert(s[i + 1] == x);
            }
            if s.contains(x) && x != id {
                let i = choose|i: int| 0 <= i < s.len() && s[i] == x;
                assert(t[i - 1] == x);
            }
            assert(s[0] == id);
        }
    } else {
        assert(s =~= seq![id]);
        assert(s[0] == id);
    }
}

proof fn lemma_tally_congruent(what: Tally, a: Seq<NodeHeader>, b: Seq<NodeHeader>)
    requires
        a.len() == b.len(),
        forall|i: int|
            #![trigger b[i]]
            0 <= i < a.len() ==> counts(what, a[i]) == counts(what, b[i]),
    ensures
        tally(what, a) == tally(what, b),
    decreases a.len(),
{
    if a.len() > 0 {
        assert(b[b.len() - 1] == b.last());
        assert forall|i: int| #![trigger b.drop_last()[i]] 0 <= i < a.len() - 1 implies counts(
            what,
            a.drop_last()[i],
        ) == counts(what, b.drop_last()[i]) by {
            assert(b[i] == b.drop_last()[i]);
        }
        lemma_tally_congruent(what, a.drop_last(), b.drop_last());
    }
}

/// True of two records that hold the same place in the tree and the tables:
/// style, generation, flags and the hidden bit may differ.
pub open spec fn same_place(a: NodeHeader, b: NodeHeader) -> bool {
    &&& a.parent == b.parent
    &&& a.aux == b.aux
    &&& a.kind_index() == b.kind_index()
    &&& a.vacant() == b.vacant()
}

/// The invariant does not depend on styles, flags, hidden bits, or on what
/// the rows hold.
pub proof fn lemma_congruent(a: HostModel, b: HostModel)
    requires
        a.wf(),
        a.nodes.len() == b.nodes.len(),
        forall|i: int|
            #![trigger b.nodes[i]]
            0 <= i < a.nodes.len() ==> same_place(a.nodes[i], b.nodes[i]),
        a.children == b.children,
        a.roots == b.roots,
        a.live == b.live,
        a.texts.len() == b.texts.len(),
        a.views.len() == b.views.len(),
        a.free_texts == b.free_texts,
        a.free_views == b.free_views,
        b.props.len() == b.nodes.len(),
    ensures
        b.wf(),
        forall|x: NodeId| a.alive(x) == b.alive(x),
{
    assert(ranked(b.nodes, a.ranking())) by {
        assert(ranked(a.nodes, a.ranking()));
        assert forall|i: int|
            #![trigger b.nodes[i]]
            0 <= i < b.nodes.len() && b.nodes[i].parent < b.nodes.len() implies (a.ranking().of)(
            b.nodes[i].parent as int,
        ) < (a.ranking().of)(i) by {
            assert(same_place(a.nodes[i], b.nodes[i]));
        }
    }
    lemma_tally_congruent(Tally::Live, a.nodes, b.nodes);
    lemma_tally_congruent(Tally::TextRow, a.nodes, b.nodes);
    lemma_tally_congruent(Tally::ViewRow, a.nodes, b.nodes);
    assert forall|x: NodeId| a.alive(x) == b.alive(x) by {
        if x.0 < a.nodes.len() {
            assert(same_place(a.nodes[x.0 as int], b.nodes[x.0 as int]));
        }
    }
    assert(b.sane()) by {
        assert forall|i: int| #![trigger b.nodes[i]] 0 <= i < b.nodes.len() implies {
            &&& b.nodes[i].parent < b.nodes.len() || b.nodes[i].parent >= NodeId::DETACHED
            &&& b.nodes[i].vacant() ==> b.nodes[i].parent == NodeId::DETACHED
            &&& !b.nodes[i].vacant() ==> b.nodes[i].kind_index() != 0x7FFF
        } by {
            assert(same_place(a.nodes[i], b.nodes[i]));
        }
    }
    assert(b.linked()) by {
        assert forall|p: int, k: int|
            #![trigger b.children[p][k]]
            0 <= p < b.children.len() && 0 <= k < b.children[p].len() implies b.alive(
            b.children[p][k],
        ) && b.header(b.children[p][k]).parent == p by {
            let c = a.children[p][k];
            assert(a.alive(c));
            assert(same_place(a.nodes[c.0 as int], b.nodes[c.0 as int]));
        }
        assert forall|k: int| #![trigger b.roots[k]] 0 <= k < b.roots.len() implies b.alive(
            b.roots[k],
        ) && b.header(b.roots[k]).parent == NodeId::NIL by {
            let c = a.roots[k];
            assert(a.alive(c));
            assert(same_place(a.nodes[c.0 as int], b.nodes[c.0 as int]));
        }
    }
}

/// A record can be rewritten, as long as it keeps its place.
pub proof fn lemma_rewritten(m: HostModel, id: NodeId)
    requires
        m.wf(),
        m.alive(id),
    ensures
        forall|h: NodeHeader|
            same_place(m.header(id), h) ==> (#[trigger] m.with_header(id, h)).wf(),
{
    assert forall|h: NodeHeader| same_place(m.header(id), h) implies (#[trigger] m.with_header(
        id,
        h,
    )).wf() by {
        lemma_congruent(m, m.with_header(id, h));
    }
}

/// The path to the top does not depend on styles, flags or hidden bits.
pub proof fn lemma_path_congruent(a: HostModel, b: HostModel, id: NodeId)
    requires
        a.wf(),
        b.wf(),
        a.nodes.len() == b.nodes.len(),
        forall|i: int|
            #![trigger b.nodes[i]]
            0 <= i < a.nodes.len() ==> a.nodes[i].parent == b.nodes[i].parent
                && a.nodes[i].vacant() == b.nodes[i].vacant(),
    ensures
        a.path_up(id) == b.path_up(id),
    decreases a.depth(id),
{
    lemma_path_up(a, id);
    lemma_path_up(b, id);
    if id.0 < a.nodes.len() {
        assert(a.nodes[id.0 as int].parent == b.nodes[id.0 as int].parent);
    }
    assert(a.parent_of(id) == b.parent_of(id));
    if a.parent_of(id).0 < NodeId::DETACHED {
        lemma_depth(a, id);
        lemma_path_congruent(a, b, a.parent_of(id));
    }
}

/// Every node on a path from a slot is a slot.
pub proof fn lemma_path_in_range(m: HostModel, id: NodeId, x: NodeId)
    requires
        m.wf(),
        m.in_range(id),
        m.path_up(id).contains(x),
    ensures
        m.in_range(x),
    decreases m.depth(id),
{
    lemma_path_up(m, id);
    if x != id {
        lemma_depth(m, id);
        lemma_path_in_range(m, m.parent_of(id), x);
    }
}

/// A path goes on from each of its nodes to the top.
pub proof fn lemma_path_closed(m: HostModel, id: NodeId, x: NodeId, y: NodeId)
    requires
        m.wf(),
        m.path_up(id).contains(x),
        m.path_up(x).contains(y),
    ensures
        m.path_up(id).contains(y),
    decreases m.depth(id),
{
    lemma_path_up(m, id);
    if x != id {
        lemma_depth(m, id);
        lemma_path_closed(m, m.parent_of(id), x, y);
    }
}

/// Marking a node keeps the invariant.
pub proof fn lemma_marked_wf(m: HostModel, id: NodeId, flags: NodeFlags)
    requires
        m.wf(),
    ensures
        m.marked(id, flags).wf(),
        forall|x: NodeId| m.alive(x) == m.marked(id, flags).alive(x),
        forall|i: int|
            #![trigger m.marked(id, flags).nodes[i]]
            0 <= i < m.nodes.len() ==> same_place(m.nodes[i], m.marked(id, flags).nodes[i]),
{
    lemma_congruent(m, m.marked(id, flags));
}

/// The tree with `id` unlinked, before its parent is marked.
spec fn cut(m: HostModel, id: NodeId) -> HostModel {
    let parent = NodeId(m.header(id).parent);
    m.with_list(parent, without(m.list(parent), id)).with_parent(id, NodeId::DETACHED)
}

proof fn lemma_cut_wf(m: HostModel, id: NodeId)
    requires
        m.wf(),
        m.alive(id),
        m.header(id).parent != NodeId::DETACHED,
    ensures
        cut(m, id).wf(),
        forall|p: NodeId| !cut(m, id).list(p).contains(id),
{
    let parent = NodeId(m.header(id).parent);
    let n = cut(m, id);
    let i0 = id.0 as int;
    assert(m.nodes[i0] == m.header(id));
    let list = m.list(parent);
    assert(list.no_duplicates()) by {
        if parent.0 != NodeId::NIL {
            assert(m.children[parent.0 as int].no_duplicates());
        }
    }
    lemma_without(list, id);
    assert(ranked(n.nodes, m.ranking())) by {
        assert(ranked(m.nodes, m.ranking()));
        assert forall|i: int|
            #![trigger n.nodes[i]]
            0 <= i < n.nodes.len() && n.nodes[i].parent < n.nodes.len() implies (m.ranking().of)(
            n.nodes[i].parent as int,
        ) < (m.ranking().of)(i) by {
            assert(i != i0);
            assert(n.nodes[i] == m.nodes[i]);
        }
    }
    lemma_tally_update(Tally::Live, m.nodes, i0, n.nodes[i0]);
    lemma_tally_update(Tally::TextRow, m.nodes, i0, n.nodes[i0]);
    lemma_tally_update(Tally::ViewRow, m.nodes, i0, n.nodes[i0]);
    assert(n.sane()) by {
        assert forall|i: int| #![trigger n.nodes[i]] 0 <= i < n.nodes.len() implies {
            &&& n.nodes[i].parent < n.nodes.len() || n.nodes[i].parent >= NodeId::DETACHED
            &&& n.nodes[i].vacant() ==> n.nodes[i].parent == NodeId::DETACHED
            &&& !n.nodes[i].vacant() ==> n.nodes[i].kind_index() != 0x7FFF
        } by {
            assert(m.nodes[i].kind == n.nodes[i].kind);
            if i != i0 {
                assert(n.nodes[i] == m.nodes[i]);
            }
        }
    }
    assert(n.text_rows()) by {
        assert forall|i: int|
            #![trigger n.nodes[i]]
            0 <= i < n.nodes.len() && owns_text(n.nodes[i]) implies n.nodes[i].aux < n.texts.len()
            && !n.free_texts.contains(n.nodes[i].aux) by {
            assert(owns_text(m.nodes[i]));
        }
        assert forall|i: int, j: int|
            #![trigger n.nodes[i], n.nodes[j]]
            0 <= i < j < n.nodes.len() && owns_text(n.nodes[i]) && owns_text(
                n.nodes[j],
            ) implies n.nodes[i].aux != n.nodes[j].aux by {
            assert(owns_text(m.nodes[i]) && owns_text(m.nodes[j]));
        }
    }
    assert(n.view_rows()) by {
        assert forall|i: int|
            #![trigger n.nodes[i]]
            0 <= i < n.nodes.len() && owns_view(n.nodes[i]) implies n.nodes[i].aux < n.views.len()
            && !n.free_views.contains(n.nodes[i].aux) by {
            assert(owns_view(m.nodes[i]));
        }
        assert forall|i: int, j: int|
            #![trigger n.nodes[i], n.nodes[j]]
            0 <= i < j < n.nodes.len() && owns_view(n.nodes[i]) && owns_view(
                n.nodes[j],
            ) implies n.nodes[i].aux != n.nodes[j].aux by {
            assert(owns_view(m.nodes[i]) && owns_view(m.nodes[j]));
        }
    }
    // A list that names `id` in `m` is that of its parent.
    assert forall|p: int, k: int|
        #![trigger n.children[p][k]]
        0 <= p < n.children.len() && 0 <= k < n.children[p].len() implies n.alive(n.children[p][k])
        && n.header(n.children[p][k]).parent == p && n.children[p][k] != id by {
        let c = n.children[p][k];
        if parent.0 == p {
            assert(list == m.children[p]);
            assert(n.children[p] == without(list, id));
            let q = choose|q: int| 0 <= q < list.len() && list[q] == c;
            assert(m.children[p][q] == c);
        } else {
            assert(n.children[p] == m.children[p]);
            assert(m.children[p][k] == c);
        }
        assert(m.alive(c) && m.header(c).parent == p);
        assert(c != id);
        assert(n.nodes[c.0 as int] == m.nodes[c.0 as int]);
    }
    assert forall|k: int| #![trigger n.roots[k]] 0 <= k < n.roots.len() implies n.alive(n.roots[k])
        && n.header(n.roots[k]).parent == NodeId::NIL && n.roots[k] != id by {
        let c = n.roots[k];
        if parent.0 == NodeId::NIL {
            assert(n.roots == without(list, id));
            let q = choose|q: int| 0 <= q < list.len() && list[q] == c;
            assert(m.roots[q] == c);
        } else {
            assert(m.roots[k] == c);
        }
        assert(m.alive(c) && m.header(c).parent == NodeId::NIL);
        assert(c != id);
        assert(n.nodes[c.0 as int] == m.nodes[c.0 as int]);
    }
    assert forall|p: NodeId| !n.list(p).contains(id) by {
        if n.list(p).contains(id) {
            let k = choose|k: int| 0 <= k < n.list(p).len() && n.list(p)[k] == id;
            if p.0 == NodeId::NIL {
                assert(n.roots[k] == id);
            } else {
                assert(n.children[p.0 as int][k] == id);
            }
        }
    }
    assert forall|p: int| #![trigger n.children[p]] 0 <= p < n.children.len() implies n.children[p]
        .no_duplicates() by {
        if p != parent.0 {
            assert(n.children[p] == m.children[p]);
        }
    }
    assert forall|i: int|
        #![trigger n.nodes[i]]
        0 <= i < n.nodes.len() && n.nodes[i].parent == NodeId::NIL implies n.roots.contains(
        NodeId(i as u32),
    ) by {
        assert(i != i0);
        assert(n.nodes[i] == m.nodes[i]);
        assert(m.roots.contains(NodeId(i as u32)));
        assert(NodeId(i as u32) != id);
    }
}

/// Unlinking a live node keeps the invariant, and no list names it after.
pub proof fn lemma_unlinked_wf(m: HostModel, id: NodeId)
    requires
        m.wf(),
        m.alive(id),
    ensures
        m.unlinked(id).wf(),
        m.unlinked(id).nodes.len() == m.nodes.len(),
        m.unlinked(id).alive(id),
        m.unlinked(id).header(id).parent == NodeId::DETACHED,
        forall|p: NodeId| !(#[trigger] m.unlinked(id).list(p)).contains(id),
        forall|x: NodeId| m.alive(x) == m.unlinked(id).alive(x),
        forall|i: int|
            #![trigger m.unlinked(id).nodes[i]]
            0 <= i < m.nodes.len() && i != id.0 ==> same_place(
                m.nodes[i],
                m.unlinked(id).nodes[i],
            ),
        m.unlinked(id).header(id).kind == m.header(id).kind,
        m.unlinked(id).header(id).aux == m.header(id).aux,
        m.unlinked(id).live == m.live,
{
    let parent = NodeId(m.header(id).parent);
    if parent.0 != NodeId::DETACHED {
        lemma_cut_wf(m, id);
        lemma_marked_wf(cut(m, id), parent, NodeFlags(NodeFlags::LAYOUT));
        assert(m.unlinked(id) == cut(m, id).marked(parent, NodeFlags(NodeFlags::LAYOUT)));
        let n = m.unlinked(id);
        assert(n.children == cut(m, id).children && n.roots == cut(m, id).roots);
        assert forall|p: NodeId| !(#[trigger] n.list(p)).contains(id) by {
            assert(n.list(p) == cut(m, id).list(p));
        }
        assert(m.nodes[id.0 as int] == m.header(id));
        assert(n.nodes[id.0 as int] == n.header(id));
        assert(cut(m, id).nodes[id.0 as int].parent == NodeId::DETACHED);
    } else {
        assert forall|p: NodeId| !(#[trigger] m.list(p)).contains(id) by {
            if m.list(p).contains(id) {
                let k = choose|k: int| 0 <= k < m.list(p).len() && m.list(p)[k] == id;
                if p.0 == NodeId::NIL {
                    assert(m.roots[k] == id);
                } else {
                    assert(m.children[p.0 as int][k] == id);
                }
            }
        }
    }
}

/// Unlinking a node keeps it off every path that it was not on.
proof fn lemma_unlinked_path(m: HostModel, child: NodeId, x: NodeId)
    requires
        m.wf(),
        m.alive(child),
        !m.path_up(x).contains(child),
    ensures
        !m.unlinked(child).path_up(x).contains(child),
    decreases m.depth(x),
{
    let n = m.unlinked(child);
    lemma_unlinked_wf(m, child);
    lemma_path_up(m, x);
    lemma_path_up(n, x);
    assert(x != child);
    if x.0 < m.nodes.len() {
        assert(same_place(m.nodes[x.0 as int], n.nodes[x.0 as int]));
    }
    assert(m.parent_of(x) == n.parent_of(x));
    if m.parent_of(x).0 < NodeId::DETACHED {
        lemma_depth(m, x);
        lemma_unlinked_path(m, child, m.parent_of(x));
    }
}

/// The tree with the unlinked node `child` put under `parent`, before it is
/// marked.
spec fn attached(m: HostModel, parent: NodeId, child: NodeId, before: NodeId) -> HostModel {
    m.with_list(parent, spliced(m.list(parent), child, before)).with_parent(child, parent.0)
}

spec fn raised(m: HostModel, parent: NodeId, child: NodeId) -> Ranking {
    let r = m.ranking();
    let lift = (m.depth(parent) + 1) as nat;
    Ranking {
        of: |i: int|
            if m.path_up(NodeId(i as u32)).contains(child) {
                ((r.of)(i) + lift) as nat
            } else {
                (r.of)(i)
            },
        bound: r.bound + lift,
    }
}

proof fn lemma_attached_ranked(m: HostModel, parent: NodeId, child: NodeId, before: NodeId)
    requires
        m.wf(),
        m.placeable(parent, child),
        m.header(child).parent == NodeId::DETACHED,
    ensures
        ranked(attached(m, parent, child, before).nodes, raised(m, parent, child)),
{
    let n = attached(m, parent, child, before);
    let r = m.ranking();
    let q = raised(m, parent, child);
    assert(ranked(m.nodes, r));
    assert forall|i: int|
        #![trigger n.nodes[i]]
        0 <= i < n.nodes.len() && n.nodes[i].parent < n.nodes.len() implies (q.of)(
        n.nodes[i].parent as int,
    ) < (q.of)(i) by {
        let id = NodeId(i as u32);
        lemma_path_up(m, id);
        if id == child {
            assert(n.nodes[i].parent == parent.0);
            assert(parent == NodeId(parent.0 as int as u32));
            assert((q.of)(parent.0 as int) == (r.of)(parent.0 as int));
        } else {
            assert(n.nodes[i] == m.nodes[i]);
            let p = NodeId(m.nodes[i].parent);
            assert(p == NodeId(p.0 as int as u32));
            assert(!m.nodes[i].vacant());
            assert(m.parent_of(id) == p);
            assert((r.of)(p.0 as int) < (r.of)(i));
        }
    }
}

proof fn lemma_attached_wf(m: HostModel, parent: NodeId, child: NodeId, before: NodeId)
    requires
        m.wf(),
        m.placeable(parent, child),
        m.header(child).parent == NodeId::DETACHED,
        forall|p: NodeId| !(#[trigger] m.list(p)).contains(child),
    ensures
        attached(m, parent, child, before).wf(),
        attached(m, parent, child, before).list(parent).contains(child),
{
    let n = attached(m, parent, child, before);
    let i0 = child.0 as int;
    let list = m.list(parent);
    assert(m.nodes[i0] == m.header(child));
    assert(!list.contains(child));
    assert(list.no_duplicates()) by {
        if parent.0 != NodeId::NIL {
            assert(m.children[parent.0 as int].no_duplicates());
        }
    }
    lemma_spliced(list, child, before);
    lemma_attached_ranked(m, parent, child, before);
    lemma_tally_update(Tally::Live, m.nodes, i0, n.nodes[i0]);
    lemma_tally_update(Tally::TextRow, m.nodes, i0, n.nodes[i0]);
    lemma_tally_update(Tally::ViewRow, m.nodes, i0, n.nodes[i0]);
    assert(n.sane()) by {
        assert forall|i: int| #![trigger n.nodes[i]] 0 <= i < n.nodes.len() implies {
            &&& n.nodes[i].parent < n.nodes.len() || n.nodes[i].parent >= NodeId::DETACHED
            &&& n.nodes[i].vacant() ==> n.nodes[i].parent == NodeId::DETACHED
            &&& !n.nodes[i].vacant() ==> n.nodes[i].kind_index() != 0x7FFF
        } by {
            assert(m.nodes[i].kind == n.nodes[i].kind);
            if i != i0 {
                assert(n.nodes[i] == m.nodes[i]);
            }
        }
    }
    assert(n.text_rows()) by {
        assert forall|i: int|
            #![trigger n.nodes[i]]
            0 <= i < n.nodes.len() && owns_text(n.nodes[i]) implies n.nodes[i].aux < n.texts.len()
            && !n.free_texts.contains(n.nodes[i].aux) by {
            assert(owns_text(m.nodes[i]));
        }
        assert forall|i: int, j: int|
            #![trigger n.nodes[i], n.nodes[j]]
            0 <= i < j < n.nodes.len() && owns_text(n.nodes[i]) && owns_text(
                n.nodes[j],
            ) implies n.nodes[i].aux != n.nodes[j].aux by {
            assert(owns_text(m.nodes[i]) && owns_text(m.nodes[j]));
        }
    }
    assert(n.view_rows()) by {
        assert forall|i: int|
            #![trigger n.nodes[i]]
            0 <= i < n.nodes.len() && owns_view(n.nodes[i]) implies n.nodes[i].aux < n.views.len()
            && !n.free_views.contains(n.nodes[i].aux) by {
            assert(owns_view(m.nodes[i]));
        }
        assert forall|i: int, j: int|
            #![trigger n.nodes[i], n.nodes[j]]
            0 <= i < j < n.nodes.len() && owns_view(n.nodes[i]) && owns_view(
                n.nodes[j],
            ) implies n.nodes[i].aux != n.nodes[j].aux by {
            assert(owns_view(m.nodes[i]) && owns_view(m.nodes[j]));
        }
    }
    assert forall|p: int, k: int|
        #![trigger n.children[p][k]]
        0 <= p < n.children.len() && 0 <= k < n.children[p].len() implies n.alive(n.children[p][k])
        && n.header(n.children[p][k]).parent == p by {
        let c = n.children[p][k];
        if parent.0 == p {
            assert(list == m.children[p]);
            assert(n.children[p] == spliced(list, child, before));
            if c != child {
                let q = choose|q: int| 0 <= q < list.len() && list[q] == c;
                assert(m.children[p][q] == c);
                assert(n.nodes[c.0 as int] == m.nodes[c.0 as int]);
            }
        } else {
            assert(n.children[p] == m.children[p]);
            assert(m.children[p][k] == c);
            assert(m.list(NodeId(p as u32)).contains(c));
            assert(c != child);
            assert(n.nodes[c.0 as int] == m.nodes[c.0 as int]);
        }
    }
    assert forall|k: int| #![trigger n.roots[k]] 0 <= k < n.roots.len() implies n.alive(n.roots[k])
        && n.header(n.roots[k]).parent == NodeId::NIL by {
        let c = n.roots[k];
        if parent.0 == NodeId::NIL {
            assert(n.roots == spliced(list, child, before));
            if c != child {
                let q = choose|q: int| 0 <= q < list.len() && list[q] == c;
                assert(m.roots[q] == c);
                assert(n.nodes[c.0 as int] == m.nodes[c.0 as int]);
            }
        } else {
            assert(m.roots[k] == c);
            assert(m.list(NodeId(NodeId::NIL)).contains(c));
            assert(c != child);
            assert(n.nodes[c.0 as int] == m.nodes[c.0 as int]);
        }
    }
    assert forall|p: int| #![trigger n.children[p]] 0 <= p < n.children.len() implies n.children[p]
        .no_duplicates() by {
        if p != parent.0 {
            assert(n.children[p] == m.children[p]);
        }
    }
    assert forall|i: int|
        #![trigger n.nodes[i]]
        0 <= i < n.nodes.len() && n.nodes[i].parent == NodeId::NIL implies n.roots.contains(
        NodeId(i as u32),
    ) by {
        if i != i0 {
            assert(n.nodes[i] == m.nodes[i]);
            assert(m.roots.contains(NodeId(i as u32)));
        }
    }
}

/// Placing a node keeps the invariant, and the parent's list names it after.
pub proof fn lemma_placed_wf(m: HostModel, parent: NodeId, child: NodeId, before: NodeId)
    requires
        m.wf(),
        m.placeable(parent, child),
    ensures
        m.placed(parent, child, before).wf(),
        m.placed(parent, child, before).nodes.len() == m.nodes.len(),
        forall|x: NodeId| m.alive(x) == m.placed(parent, child, before).alive(x),
        forall|i: int|
            #![trigger m.placed(parent, child, before).nodes[i]]
            0 <= i < m.nodes.len() && i != child.0 ==> same_place(
                m.nodes[i],
                m.placed(parent, child, before).nodes[i],
            ),
        m.placed(parent, child, before).header(child).parent == parent.0,
        m.placed(parent, child, before).list(parent).contains(child),
{
    let m1 = m.unlinked(child);
    lemma_unlinked_wf(m, child);
    if parent.0 != NodeId::NIL {
        lemma_unlinked_path(m, child, parent);
    }
    assert(m1.placeable(parent, child));
    lemma_attached_wf(m1, parent, child, before);
    let m2 = attached(m1, parent, child, before);
    lemma_marked_wf(m2, child, NodeFlags(NodeFlags::LAYOUT));
    let m3 = m.placed(parent, child, before);
    assert(m3 == m2.marked(child, NodeFlags(NodeFlags::LAYOUT)));
    assert(m3.nodes[child.0 as int] == m3.header(child));
    assert(m3.list(parent) == m2.list(parent));
    assert forall|x: NodeId| m.alive(x) == m3.alive(x) by {
        assert(m.alive(x) == m1.alive(x));
        assert(m1.alive(x) == m2.alive(x));
    }
    assert forall|i: int| #![trigger m3.nodes[i]] 0 <= i < m.nodes.len() && i != child.0 implies
        same_place(m.nodes[i], m3.nodes[i]) by {
        assert(same_place(m.nodes[i], m1.nodes[i]));
        assert(m2.nodes[i] == m1.nodes[i]);
        assert(same_place(m2.nodes[i], m3.nodes[i]));
    }
}

proof fn lemma_grown_wf(m: HostModel, id: NodeId)
    requires
        m.wf(),
        id.0 < NodeId::DETACHED,
    ensures
        m.grown(id).wf(),
        m.grown(id).in_range(id),
        forall|x: NodeId| m.alive(x) == m.grown(id).alive(x),
{
    let n = m.grown(id);
    if id.0 >= m.nodes.len() {
        let more = (id.0 + 1 - m.nodes.len()) as nat;
        lemma_tally_vacant(Tally::Live, m.nodes, more);
        lemma_tally_vacant(Tally::TextRow, m.nodes, more);
        lemma_tally_vacant(Tally::ViewRow, m.nodes, more);
        let r = m.ranking();
        let q = Ranking {
            of: |i: int|
                if i < m.nodes.len() {
                    (r.of)(i)
                } else {
                    0
                },
            bound: r.bound + 1,
        };
        assert(ranked(m.nodes, r));
        assert forall|i: int| 0 <= i < m.nodes.len() implies n.nodes[i] == m.nodes[i] by {}
        assert forall|i: int| m.nodes.len() <= i < n.nodes.len() implies #[trigger] n.nodes[i]
            == NodeHeader::vacated(0) && n.children[i] == Seq::<NodeId>::empty() by {}
        assert(n.sane()) by {
            assert forall|i: int| #![trigger n.nodes[i]] 0 <= i < n.nodes.len() implies {
                &&& n.nodes[i].parent < n.nodes.len() || n.nodes[i].parent >= NodeId::DETACHED
                &&& n.nodes[i].vacant() ==> n.nodes[i].parent == NodeId::DETACHED
                &&& !n.nodes[i].vacant() ==> n.nodes[i].kind_index() != 0x7FFF
            } by {
                if i < m.nodes.len() {
                    assert(n.nodes[i] == m.nodes[i]);
                }
            }
        }
        assert(ranked(n.nodes, q)) by {
            assert forall|i: int|
                #![trigger n.nodes[i]]
                0 <= i < n.nodes.len() && n.nodes[i].parent < n.nodes.len() implies (q.of)(
                n.nodes[i].parent as int,
            ) < (q.of)(i) by {
                if i < m.nodes.len() {
                    assert(n.nodes[i] == m.nodes[i]);
                    assert(m.nodes[i].parent < m.nodes.len());
                }
            }
        }
        assert forall|x: NodeId| m.alive(x) == n.alive(x) by {}
        assert(n.linked()) by {
            assert forall|p: int, k: int|
                #![trigger n.children[p][k]]
                0 <= p < n.children.len() && 0 <= k < n.children[p].len() implies n.alive(
                n.children[p][k],
            ) && n.header(n.children[p][k]).parent == p by {
                if p < m.nodes.len() {
                    assert(n.children[p] == m.children[p]);
                    assert(m.alive(m.children[p][k]));
                }
            }
            assert forall|p: int| #![trigger n.children[p]] 0 <= p < n.children.len() implies
                n.children[p].no_duplicates() by {
                if p < m.nodes.len() {
                    assert(n.children[p] == m.children[p]);
                }
            }
            assert forall|k: int| #![trigger n.roots[k]] 0 <= k < n.roots.len() implies n.alive(
                n.roots[k],
            ) && n.header(n.roots[k]).parent == NodeId::NIL by {
                assert(m.alive(m.roots[k]));
            }
        }
        assert(n.text_rows()) by {
            assert forall|i: int|
                #![trigger n.nodes[i]]
                0 <= i < n.nodes.len() && owns_text(n.nodes[i]) implies n.nodes[i].aux
                < n.texts.len() && !n.free_texts.contains(n.nodes[i].aux) by {
                assert(owns_text(m.nodes[i]));
            }
        }
        assert(n.view_rows()) by {
            assert forall|i: int|
                #![trigger n.nodes[i]]
                0 <= i < n.nodes.len() && owns_view(n.nodes[i]) implies n.nodes[i].aux
                < n.views.len() && !n.free_views.contains(n.nodes[i].aux) by {
                assert(owns_view(m.nodes[i]));
            }
        }
    }
}

proof fn lemma_occupied_rows(m: HostModel, id: NodeId, kind: NodeKind)
    requires
        m.wf(),
        m.in_range(id),
        !m.alive(id),
        kind.0 as int % 0x8000 != 0x7FFF,
    ensures
        m.free_texts.len() == 0 ==> m.texts.len() < NO_ROW,
        m.free_views.len() == 0 ==> m.views.len() < NO_ROW,
        m.occupied(id, kind).text_rows(),
        m.occupied(id, kind).view_rows(),
{
    let n = m.occupied(id, kind);
    let i0 = id.0 as int;
    let h = n.nodes[i0];
    assert(n.nodes == m.nodes.update(i0, h));
    lemma_tally_bound(Tally::TextRow, m.nodes);
    lemma_tally_bound(Tally::ViewRow, m.nodes);
    lemma_tally_update(Tally::TextRow, m.nodes, i0, h);
    lemma_tally_update(Tally::ViewRow, m.nodes, i0, h);
    if m.free_texts.len() > 0 {
        assert(m.free_texts.last() == m.free_texts[m.free_texts.len() - 1]);
        assert(m.free_texts.contains(m.free_texts.last()));
    }
    if m.free_views.len() > 0 {
        assert(m.free_views.last() == m.free_views[m.free_views.len() - 1]);
        assert(m.free_views.contains(m.free_views.last()));
    }
    assert forall|i: int| 0 <= i < n.nodes.len() && i != i0 implies #[trigger] n.nodes[i]
        == m.nodes[i] by {}
    assert(n.text_rows()) by {
        assert forall|x: u32| n.free_texts.contains(x) implies m.free_texts.contains(x) by {
            let k = choose|k: int| 0 <= k < n.free_texts.len() && n.free_texts[k] == x;
            assert(m.free_texts[k] == x);
        }
        assert forall|i: int|
            #![trigger n.nodes[i]]
            0 <= i < n.nodes.len() && owns_text(n.nodes[i]) implies n.nodes[i].aux < n.texts.len()
            && !n.free_texts.contains(n.nodes[i].aux) by {
            if i == i0 {
                if m.free_texts.len() > 0 {
                    if n.free_texts.contains(h.aux) {
                        let k = choose|k: int|
                            0 <= k < n.free_texts.len() && n.free_texts[k] == h.aux;
                        assert(m.free_texts[k] == m.free_texts[m.free_texts.len() - 1]);
                    }
                }
            } else {
                assert(owns_text(m.nodes[i]));
            }
        }
        assert forall|i: int, j: int|
            #![trigger n.nodes[i], n.nodes[j]]
            0 <= i < j < n.nodes.len() && owns_text(n.nodes[i]) && owns_text(
                n.nodes[j],
            ) implies n.nodes[i].aux != n.nodes[j].aux by {
            if i != i0 {
                assert(owns_text(m.nodes[i]));
            }
            if j != i0 {
                assert(owns_text(m.nodes[j]));
            }
        }
        assert forall|k: int| #![trigger n.free_texts[k]] 0 <= k < n.free_texts.len() implies
            n.free_texts[k] < n.texts.len() by {
            assert(m.free_texts[k] == n.free_texts[k]);
        }
    }
    assert(n.view_rows()) by {
        assert forall|x: u32| n.free_views.contains(x) implies m.free_views.contains(x) by {
            let k = choose|k: int| 0 <= k < n.free_views.len() && n.free_views[k] == x;
            assert(m.free_views[k] == x);
        }
        assert forall|i: int|
            #![trigger n.nodes[i]]
            0 <= i < n.nodes.len() && owns_view(n.nodes[i]) implies n.nodes[i].aux < n.views.len()
            && !n.free_views.contains(n.nodes[i].aux) by {
            if i == i0 {
                if m.free_views.len() > 0 {
                    if n.free_views.contains(h.aux) {
                        let k = choose|k: int|
                            0 <= k < n.free_views.len() && n.free_views[k] == h.aux;
                        assert(m.free_views[k] == m.free_views[m.free_views.len() - 1]);
                    }
                }
            } else {
                assert(owns_view(m.nodes[i]));
            }
        }
        assert forall|i: int, j: int|
            #![trigger n.nodes[i], n.nodes[j]]
            0 <= i < j < n.nodes.len() && owns_view(n.nodes[i]) && owns_view(
                n.nodes[j],
            ) implies n.nodes[i].aux != n.nodes[j].aux by {
            if i != i0 {
                assert(owns_view(m.nodes[i]));
            }
            if j != i0 {
                assert(owns_view(m.nodes[j]));
            }
        }
        assert forall|k: int| #![trigger n.free_views[k]] 0 <= k < n.free_views.len() implies
            n.free_views[k] < n.views.len() by {
            assert(m.free_views[k] == n.free_views[k]);
        }
    }
}

proof fn lemma_occupied_wf(m: HostModel, id: NodeId, kind: NodeKind)
    requires
        m.wf(),
        m.in_range(id),
        !m.alive(id),
        kind.0 as int % 0x8000 != 0x7FFF,
    ensures
        m.occupied(id, kind).wf(),
        m.occupied(id, kind).alive(id),
        forall|x: NodeId| x != id ==> m.alive(x) == m.occupied(id, kind).alive(x),
{
    let n = m.occupied(id, kind);
    let i0 = id.0 as int;
    let h = n.nodes[i0];
    assert(n.nodes == m.nodes.update(i0, h));
    lemma_occupied_rows(m, id, kind);
    lemma_tally_update(Tally::Live, m.nodes, i0, h);
    assert forall|i: int| 0 <= i < n.nodes.len() && i != i0 implies #[trigger] n.nodes[i]
        == m.nodes[i] by {}
    assert(ranked(n.nodes, m.ranking())) by {
        assert(ranked(m.nodes, m.ranking()));
        assert forall|i: int|
            #![trigger n.nodes[i]]
            0 <= i < n.nodes.len() && n.nodes[i].parent < n.nodes.len() implies (m.ranking().of)(
            n.nodes[i].parent as int,
        ) < (m.ranking().of)(i) by {
            assert(n.nodes[i] == m.nodes[i]);
        }
    }
    assert(n.sane()) by {
        assert forall|i: int| #![trigger n.nodes[i]] 0 <= i < n.nodes.len() implies {
            &&& n.nodes[i].parent < n.nodes.len() || n.nodes[i].parent >= NodeId::DETACHED
            &&& n.nodes[i].vacant() ==> n.nodes[i].parent == NodeId::DETACHED
            &&& !n.nodes[i].vacant() ==> n.nodes[i].kind_index() != 0x7FFF
        } by {
            if i != i0 {
                assert(n.nodes[i] == m.nodes[i]);
            }
        }
    }
    assert(n.linked()) by {
        assert forall|p: int, k: int|
            #![trigger n.children[p][k]]
            0 <= p < n.children.len() && 0 <= k < n.children[p].len() implies n.alive(
            n.children[p][k],
        ) && n.header(n.children[p][k]).parent == p by {
            let c = m.children[p][k];
            assert(m.alive(c));
            assert(n.nodes[c.0 as int] == m.nodes[c.0 as int]);
        }
        assert forall|k: int| #![trigger n.roots[k]] 0 <= k < n.roots.len() implies n.alive(
            n.roots[k],
        ) && n.header(n.roots[k]).parent == NodeId::NIL by {
            let c = m.roots[k];
            assert(m.alive(c));
            assert(n.nodes[c.0 as int] == m.nodes[c.0 as int]);
        }
        assert forall|i: int|
            #![trigger n.nodes[i]]
            0 <= i < n.nodes.len() && n.nodes[i].parent == NodeId::NIL implies n.roots.contains(
            NodeId(i as u32),
        ) by {
            assert(i != i0);
            assert(n.nodes[i] == m.nodes[i]);
        }
    }
}

/// Creating a node keeps the invariant; a fresh row always has an index.
pub proof fn lemma_created_wf(m: HostModel, id: NodeId, kind: NodeKind)
    requires
        m.wf(),
        id.0 < NodeId::DETACHED,
        kind.0 as int % 0x8000 != 0x7FFF,
    ensures
        m.created(id, kind).wf(),
        m.created(id, kind).alive(id),
        forall|x: NodeId| x != id ==> m.alive(x) == m.created(id, kind).alive(x),
        !m.alive(id) ==> {
            &&& m.free_texts.len() == 0 ==> m.texts.len() < NO_ROW
            &&& m.free_views.len() == 0 ==> m.views.len() < NO_ROW
        },
{
    if !m.alive(id) {
        let g = m.grown(id);
        lemma_grown_wf(m, id);
        assert(g.in_range(id) && !g.alive(id));
        lemma_occupied_rows(g, id, kind);
        lemma_occupied_wf(g, id, kind);
        assert(g.texts == m.texts && g.free_texts == m.free_texts);
        assert(g.views == m.views && g.free_views == m.free_views);
    }
}

proof fn lemma_freed_rows(m: HostModel, id: NodeId)
    requires
        m.wf(),
        m.alive(id),
    ensures
        m.freed(id).text_rows(),
        m.freed(id).view_rows(),
{
    let n = m.freed(id);
    let i0 = id.0 as int;
    let h = m.nodes[i0];
    lemma_tally_update(Tally::TextRow, m.nodes, i0, n.nodes[i0]);
    lemma_tally_update(Tally::ViewRow, m.nodes, i0, n.nodes[i0]);
    assert forall|i: int| 0 <= i < n.nodes.len() && i != i0 implies #[trigger] n.nodes[i]
        == m.nodes[i] by {}
    assert(n.text_rows()) by {
        assert forall|i: int|
            #![trigger n.nodes[i]]
            0 <= i < n.nodes.len() && owns_text(n.nodes[i]) implies n.nodes[i].aux < n.texts.len()
            && !n.free_texts.contains(n.nodes[i].aux) by {
            assert(owns_text(m.nodes[i]));
            if n.free_texts.contains(n.nodes[i].aux) {
                let k = choose|k: int|
                    0 <= k < n.free_texts.len() && n.free_texts[k] == n.nodes[i].aux;
                if k < m.free_texts.len() {
                    assert(m.free_texts[k] == n.nodes[i].aux);
                } else {
                    assert(owns_text(m.nodes[i0]) && m.nodes[i0].aux == m.nodes[i].aux);
                }
            }
        }
        assert forall|i: int, j: int|
            #![trigger n.nodes[i], n.nodes[j]]
            0 <= i < j < n.nodes.len() && owns_text(n.nodes[i]) && owns_text(
                n.nodes[j],
            ) implies n.nodes[i].aux != n.nodes[j].aux by {
            assert(owns_text(m.nodes[i]) && owns_text(m.nodes[j]));
        }
        assert(n.free_texts.no_duplicates()) by {
            if owns_text(h) {
                assert(!m.free_texts.contains(h.aux));
                assert forall|i: int, j: int|
                    0 <= i < n.free_texts.len() && 0 <= j < n.free_texts.len() && i
                        != j implies n.free_texts[i] != n.free_texts[j] by {
                    if i < m.free_texts.len() {
                        assert(m.free_texts.contains(m.free_texts[i]));
                    }
                    if j < m.free_texts.len() {
                        assert(m.free_texts.contains(m.free_texts[j]));
                    }
                }
            }
        }
    }
    assert(n.view_rows()) by {
        assert forall|i: int|
            #![trigger n.nodes[i]]
            0 <= i < n.nodes.len() && owns_view(n.nodes[i]) implies n.nodes[i].aux < n.views.len()
            && !n.free_views.contains(n.nodes[i].aux) by {
            assert(owns_view(m.nodes[i]));
            if n.free_views.contains(n.nodes[i].aux) {
                let k = choose|k: int|
                    0 <= k < n.free_views.len() && n.free_views[k] == n.nodes[i].aux;
                if k < m.free_views.len() {
                    assert(m.free_views[k] == n.nodes[i].aux);
                } else {
                    assert(owns_view(m.nodes[i0]) && m.nodes[i0].aux == m.nodes[i].aux);
                }
            }
        }
        assert forall|i: int, j: int|
            #![trigger n.nodes[i], n.nodes[j]]
            0 <= i < j < n.nodes.len() && owns_view(n.nodes[i]) && owns_view(
                n.nodes[j],
            ) implies n.nodes[i].aux != n.nodes[j].aux by {
            assert(owns_view(m.nodes[i]) && owns_view(m.nodes[j]));
        }
        assert(n.free_views.no_duplicates()) by {
            if owns_view(h) {
                assert(!m.free_views.contains(h.aux));
                assert forall|i: int, j: int|
                    0 <= i < n.free_views.len() && 0 <= j < n.free_views.len() && i
                        != j implies n.free_views[i] != n.free_views[j] by {
                    if i < m.free_views.len() {
                        assert(m.free_views.contains(m.free_views[i]));
                    }
                    if j < m.free_views.len() {
                        assert(m.free_views.contains(m.free_views[j]));
                    }
                }
            }
        }
    }
}

/// Removing a live node keeps the invariant, and frees its slot alone.
pub proof fn lemma_removed_wf(m: HostModel, id: NodeId)
    requires
        m.wf(),
        m.alive(id),
    ensures
        m.removed(id).wf(),
        m.live > 0,
        m.removed(id).live == m.live - 1,
        !m.removed(id).alive(id),
        forall|x: NodeId| x != id ==> m.alive(x) == m.removed(id).alive(x),
{
    let u = m.unlinked(id);
    lemma_unlinked_wf(m, id);
    let n = u.freed(id);
    let i0 = id.0 as int;
    lemma_freed_rows(u, id);
    lemma_tally_update(Tally::Live, u.nodes, i0, n.nodes[i0]);
    assert forall|i: int| 0 <= i < n.nodes.len() && i != i0 implies #[trigger] n.nodes[i]
        == u.nodes[i] by {}
    assert(ranked(n.nodes, u.ranking())) by {
        assert(ranked(u.nodes, u.ranking()));
        assert forall|i: int|
            #![trigger n.nodes[i]]
            0 <= i < n.nodes.len() && n.nodes[i].parent < n.nodes.len() implies (u.ranking().of)(
            n.nodes[i].parent as int,
        ) < (u.ranking().of)(i) by {
            assert(n.nodes[i] == u.nodes[i]);
        }
    }
    assert(n.sane()) by {
        assert forall|i: int| #![trigger n.nodes[i]] 0 <= i < n.nodes.len() implies {
            &&& n.nodes[i].parent < n.nodes.len() || n.nodes[i].parent >= NodeId::DETACHED
            &&& n.nodes[i].vacant() ==> n.nodes[i].parent == NodeId::DETACHED
            &&& !n.nodes[i].vacant() ==> n.nodes[i].kind_index() != 0x7FFF
        } by {
            if i != i0 {
                assert(n.nodes[i] == u.nodes[i]);
            }
        }
    }
    assert(n.linked()) by {
        assert forall|p: int, k: int|
            #![trigger n.children[p][k]]
            0 <= p < n.children.len() && 0 <= k < n.children[p].len() implies n.alive(
            n.children[p][k],
        ) && n.header(n.children[p][k]).parent == p by {
            assert(p != i0);
            assert(n.children[p] == u.children[p]);
            let c = u.children[p][k];
            assert(u.alive(c));
            assert(u.list(NodeId(p as u32)).contains(c));
            assert(c != id);
            assert(n.nodes[c.0 as int] == u.nodes[c.0 as int]);
        }
        assert forall|p: int| #![trigger n.children[p]] 0 <= p < n.children.len() implies
            n.children[p].no_duplicates() by {
            if p != i0 {
                assert(n.children[p] == u.children[p]);
            }
        }
        assert forall|k: int| #![trigger n.roots[k]] 0 <= k < n.roots.len() implies n.alive(
            n.roots[k],
        ) && n.header(n.roots[k]).parent == NodeId::NIL by {
            let c = u.roots[k];
            assert(u.alive(c));
            assert(u.list(NodeId(NodeId::NIL)).contains(c));
            assert(c != id);
            assert(n.nodes[c.0 as int] == u.nodes[c.0 as int]);
        }
        assert forall|i: int|
            #![trigger n.nodes[i]]
            0 <= i < n.nodes.len() && n.nodes[i].parent == NodeId::NIL implies n.roots.contains(
            NodeId(i as u32),
        ) by {
            assert(i != i0);
            assert(n.nodes[i] == u.nodes[i]);
        }
    }
    assert forall|x: NodeId| x != id implies m.alive(x) == n.alive(x) by {
        assert(m.alive(x) == u.alive(x));
    }
}

} // verus!
