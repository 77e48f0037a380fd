//! Document order: a node comes before its children, and children in list
//! order.

use super::header::NodeId;
use super::model::{ranked, HostModel};
use super::node::Host;
use super::proofs::{lemma_depth, lemma_path_up};
use vstd::prelude::*;

verus! {

impl HostModel {
    /// A number that a child falls short of its parent's.
    pub open spec fn height(self, id: NodeId) -> nat {
        if id.0 < self.nodes.len() {
            (self.ranking().bound - (self.ranking().of)(id.0 as int)) as nat
        } else {
            0
        }
    }

    /// The nodes below and at `id` in document order. A node that `keep`
    /// turns down is left out with all that is below it.
    pub open spec fn tree(self, id: NodeId, keep: spec_fn(NodeId) -> bool) -> Seq<NodeId>
        decreases self.height(id), 1int, 0int,
            when self.wf()
    {
        if keep(id) {
            seq![id] + self.trees(id, 0, keep)
        } else {
            Seq::empty()
        }
    }

    /// The trees of `p`'s children from the `k`-th on, one after the other.
    pub open spec fn trees(self, p: NodeId, k: nat, keep: spec_fn(NodeId) -> bool) -> Seq<NodeId>
        decreases self.height(p), 0int, self.list(p).len() - k,
            when self.wf()
    {
        if p.0 >= self.nodes.len() || k >= self.list(p).len() {
            Seq::empty()
        } else {
            proof {
                lemma_height(self, p, k as int);
            }
            self.tree(self.list(p)[k as int], keep) + self.trees(p, k + 1, keep)
        }
    }

    /// The trees of a list of nodes, one after the other.
    pub open spec fn forest(self, list: Seq<NodeId>, keep: spec_fn(NodeId) -> bool) -> Seq<NodeId>
        decreases list.len(),
    {
        if list.len() == 0 {
            Seq::empty()
        } else {
            self.tree(list[0], keep) + self.forest(list.drop_first(), keep)
        }
    }

    /// The trees of a stack of nodes, the top first.
    pub open spec fn unwound(self, stack: Seq<NodeId>, keep: spec_fn(NodeId) -> bool) -> Seq<NodeId>
        decreases stack.len(),
    {
        if stack.len() == 0 {
            Seq::empty()
        } else {
            self.tree(stack.last(), keep) + self.unwound(stack.drop_last(), keep)
        }
    }

    /// The whole document in document order.
    pub open spec fn document(self, keep: spec_fn(NodeId) -> bool) -> Seq<NodeId> {
        self.forest(self.roots, keep)
    }

    pub open spec fn every(self) -> spec_fn(NodeId) -> bool {
        |id: NodeId| true
    }

    /// Turns down nodes that carry the hidden bit.
    pub open spec fn unhidden(self) -> spec_fn(NodeId) -> bool {
        |id: NodeId| self.alive(id) && !self.header(id).is_hidden()
    }
}

/// A listed child stands below its parent.
pub proof fn lemma_height(m: HostModel, p: NodeId, k: int)
    requires
        m.wf(),
        p.0 < m.nodes.len(),
        0 <= k < m.list(p).len(),
    ensures
        m.alive(m.list(p)[k]),
        m.header(m.list(p)[k]).parent == p.0,
        m.height(m.list(p)[k]) < m.height(p),
{
    let c = m.children[p.0 as int][k];
    assert(m.alive(c));
    assert(ranked(m.nodes, m.ranking()));
    assert(m.nodes[c.0 as int] == m.header(c));
    assert((m.ranking().of)(c.0 as int) < m.ranking().bound);
}

/// The trees of a stack on top of which the last children of `p` lie.
pub proof fn lemma_unwound_push(
    m: HostModel,
    base: Seq<NodeId>,
    stack: Seq<NodeId>,
    p: NodeId,
    k: nat,
    keep: spec_fn(NodeId) -> bool,
)
    requires
        m.wf(),
        p.0 < m.nodes.len(),
        k < m.list(p).len(),
        m.unwound(stack, keep) == m.trees(p, k + 1, keep) + m.unwound(base, keep),
    ensures
        m.unwound(stack.push(m.list(p)[k as int]), keep) == m.trees(p, k, keep) + m.unwound(
            base,
            keep,
        ),
{
    let c = m.list(p)[k as int];
    assert(stack.push(c).drop_last() =~= stack);
    assert(m.trees(p, k, keep) =~= m.tree(c, keep) + m.trees(p, k + 1, keep));
    assert(m.unwound(stack.push(c), keep) =~= m.tree(c, keep) + (m.trees(p, k + 1, keep)
        + m.unwound(base, keep)));
}

/// The trees of a stack that holds the last roots, the first of them on top.
pub proof fn lemma_unwound_roots(
    m: HostModel,
    stack: Seq<NodeId>,
    list: Seq<NodeId>,
    k: int,
    keep: spec_fn(NodeId) -> bool,
)
    requires
        0 <= k < list.len(),
        m.unwound(stack, keep) == m.forest(list.skip(k + 1), keep),
    ensures
        m.unwound(stack.push(list[k]), keep) == m.forest(list.skip(k), keep),
{
    assert(stack.push(list[k]).drop_last() =~= stack);
    assert(list.skip(k).drop_first() =~= list.skip(k + 1));
    assert(list.skip(k)[0] == list[k]);
}

impl Host {
    /// The document in document order; with `skip_hidden`, hidden nodes are
    /// left out with all that is below them.
    pub fn document_order(&self, skip_hidden: bool) -> (out: Vec<NodeId>)
        requires
            self.model().wf(),
        ensures
            out@ == self.model().document(
                if skip_hidden {
                    self.model().unhidden()
                } else {
                    self.model().every()
                },
            ),
    {
        let ghost m = self.model();
        let ghost keep = if skip_hidden {
            m.unhidden()
        } else {
            m.every()
        };
        let ghost all = m.every();
        let mut out: Vec<NodeId> = Vec::new();
        let mut stack: Vec<NodeId> = Vec::new();
        let roots = self.children(NodeId(NodeId::NIL));
        let mut k: usize = roots.len();
        proof {
            assert(roots@.skip(k as int) =~= Seq::empty());
        }
        while k > 0
            invariant
                k <= roots@.len(),
                roots@ == m.roots,
                m == self.model(),
                m.wf(),
                forall|i: int| 0 <= i < stack@.len() ==> m.alive(stack@[i]),
                m.unwound(stack@, keep) == m.forest(roots@.skip(k as int), keep),
                m.unwound(stack@, all) == m.forest(roots@.skip(k as int), all),
            decreases k,
        {
            k = k - 1;
            proof {
                lemma_unwound_roots(m, stack@, roots@, k as int, keep);
                lemma_unwound_roots(m, stack@, roots@, k as int, all);
                assert(m.alive(m.roots[k as int]));
            }
            stack.push(roots[k]);
        }
        proof {
            assert(roots@.skip(0) =~= m.roots);
            assert(out@ + m.unwound(stack@, keep) =~= m.document(keep));
        }
        while stack.len() > 0
            invariant
                m == self.model(),
                m.wf(),
                keep == (if skip_hidden {
                    m.unhidden()
                } else {
                    m.every()
                }),
                all == m.every(),
                forall|i: int| 0 <= i < stack@.len() ==> m.alive(stack@[i]),
                out@ + m.unwound(stack@, keep) == m.document(keep),
            decreases m.unwound(stack@, all).len(),
        {
            let ghost before = stack@;
            let ghost emitted = out@;
            let id: NodeId = match stack.pop() {
                Some(id) => id,
                None => {
                    return out;
                },
            };
            let ghost base = stack@;
            proof {
                assert(base =~= before.drop_last());
                assert(id == before.last());
                assert(m.alive(id));
                assert(m.tree(id, all) == seq![id] + m.trees(id, 0, all));
                assert(m.unwound(before, all) == m.tree(id, all) + m.unwound(base, all));
                assert(m.unwound(before, keep) == m.tree(id, keep) + m.unwound(base, keep));
            }
            let hidden: bool = match self.node(id) {
                Some(n) => n.hidden(),
                None => true,
            };
            if skip_hidden && hidden {
                proof {
                    assert(m.tree(id, keep) =~= Seq::empty());
                    assert(m.unwound(before, keep) =~= m.unwound(base, keep));
                }
                continue ;
            }
            out.push(id);
            let list = self.children(id);
            let mut j: usize = list.len();
            proof {
                assert(keep(id));
                assert(m.tree(id, keep) == seq![id] + m.trees(id, 0, keep));
                assert(m.trees(id, list@.len() as nat, keep) =~= Seq::empty());
                assert(m.trees(id, list@.len() as nat, all) =~= Seq::empty());
                assert(m.unwound(base, keep) =~= m.trees(id, j as nat, keep) + m.unwound(
                    base,
                    keep,
                ));
                assert(m.unwound(base, all) =~= m.trees(id, j as nat, all) + m.unwound(base, all));
            }
            while j > 0
                invariant
                    j <= list@.len(),
                    list@ == m.list(id),
                    m.wf(),
                    id.0 < m.nodes.len(),
                    forall|i: int| 0 <= i < stack@.len() ==> m.alive(stack@[i]),
                    m.unwound(stack@, keep) == m.trees(id, j as nat, keep) + m.unwound(base, keep),
                    m.unwound(stack@, all) == m.trees(id, j as nat, all) + m.unwound(base, all),
                decreases j,
            {
                j = j - 1;
                proof {
                    lemma_height(m, id, j as int);
                    lemma_unwound_push(m, base, stack@, id, j as nat, keep);
                    lemma_unwound_push(m, base, stack@, id, j as nat, all);
                }
                stack.push(list[j]);
            }
            proof {
                assert(out@ + m.unwound(stack@, keep) =~= emitted + m.unwound(before, keep));
            }
        }
        proof {
            assert(m.unwound(stack@, keep) =~= Seq::empty());
            assert(out@ =~= out@ + m.unwound(stack@, keep));
        }
        out
    }

    /// `id` and its ancestors, deepest first.
    pub fn path_to(&self, id: NodeId) -> (path: Vec<NodeId>)
        requires
            self.model().wf(),
        ensures
            path@ == self.model().path_up(id),
    {
        let ghost m = self.model();
        let mut path: Vec<NodeId> = Vec::new();
        let mut cur: NodeId = id;
        proof {
            assert(path@ + m.path_up(cur) =~= m.path_up(id));
        }
        loop
            invariant
                m == self.model(),
                m.wf(),
                path@ + m.path_up(cur) == m.path_up(id),
            decreases m.depth(cur),
        {
            let ghost before = path@;
            proof {
                super::proofs::lemma_path_up(m, cur);
            }
            path.push(cur);
            let p: NodeId = self.parent(cur);
            if p.0 == NodeId::NIL || p.0 == NodeId::DETACHED {
                proof {
                    assert(path@ =~= before + m.path_up(cur));
                }
                return path;
            }
            proof {
                super::proofs::lemma_depth(m, cur);
                assert(path@ + m.path_up(p) =~= before + m.path_up(cur));
            }
            cur = p;
        }
    }
}

/// Every node in a document's order is alive and was kept, and a node that
/// is turned down brings nothing of what is below it.
pub proof fn law_document_is_kept(m: HostModel, keep: spec_fn(NodeId) -> bool, list: Seq<NodeId>)
    requires
        m.wf(),
        forall|i: int| 0 <= i < list.len() ==> m.alive(#[trigger] list[i]),
    ensures
        forall|i: int|
            0 <= i < m.forest(list, keep).len() ==> m.alive(#[trigger] m.forest(list, keep)[i])
                && keep(m.forest(list, keep)[i]),
    decreases list.len(),
{
    if list.len() > 0 {
        lemma_tree_kept(m, keep, list[0]);
        law_document_is_kept(m, keep, list.drop_first());
        let a = m.tree(list[0], keep);
        let b = m.forest(list.drop_first(), keep);
        assert forall|i: int| 0 <= i < m.forest(list, keep).len() implies m.alive(
            #[trigger] m.forest(list, keep)[i],
        ) && keep(m.forest(list, keep)[i]) by {
            if i < a.len() {
                assert((a + b)[i] == a[i]);
            } else {
                assert((a + b)[i] == b[i - a.len()]);
            }
        }
    }
}

proof fn lemma_tree_kept(m: HostModel, keep: spec_fn(NodeId) -> bool, id: NodeId)
    requires
        m.wf(),
        m.alive(id),
    ensures
        forall|i: int|
            0 <= i < m.tree(id, keep).len() ==> m.alive(#[trigger] m.tree(id, keep)[i]) && keep(
                m.tree(id, keep)[i],
            ),
    decreases m.height(id), 1int, 0int,
{
    if keep(id) {
        lemma_trees_kept(m, keep, id, 0);
        let b = m.trees(id, 0, keep);
        assert(m.tree(id, keep) == seq![id] + b);
        assert forall|i: int| 0 <= i < m.tree(id, keep).len() implies m.alive(
            #[trigger] m.tree(id, keep)[i],
        ) && keep(m.tree(id, keep)[i]) by {
            if i > 0 {
                assert((seq![id] + b)[i] == b[i - 1]);
            }
        }
    }
}

proof fn lemma_trees_kept(m: HostModel, keep: spec_fn(NodeId) -> bool, p: NodeId, k: nat)
    requires
        m.wf(),
    ensures
        forall|i: int|
            0 <= i < m.trees(p, k, keep).len() ==> m.alive(#[trigger] m.trees(p, k, keep)[i])
                && keep(m.trees(p, k, keep)[i]),
    decreases m.height(p), 0int, m.list(p).len() - k,
{
    if p.0 < m.nodes.len() && k < m.list(p).len() {
        lemma_height(m, p, k as int);
        let c = m.list(p)[k as int];
        lemma_tree_kept(m, keep, c);
        lemma_trees_kept(m, keep, p, k + 1);
        let a = m.tree(c, keep);
        let b = m.trees(p, k + 1, keep);
        assert(m.trees(p, k, keep) == a + b);
        assert forall|i: int| 0 <= i < m.trees(p, k, keep).len() implies m.alive(
            #[trigger] m.trees(p, k, keep)[i],
        ) && keep(m.trees(p, k, keep)[i]) by {
            if i < a.len() {
                assert((a + b)[i] == a[i]);
            } else {
                assert((a + b)[i] == b[i - a.len()]);
            }
        }
    }
}

// -------------------------------------------------------------- each node once

/// Depth falls on the way up.
pub(crate) proof fn lemma_path_depth(m: HostModel, x: NodeId, y: NodeId)
    requires
        m.wf(),
        m.path_up(x).contains(y),
    ensures
        y == x || (m.alive(x) && m.depth(y) < m.depth(x)),
    decreases m.depth(x),
{
    lemma_path_up(m, x);
    if y != x {
        lemma_depth(m, x);
        lemma_path_depth(m, m.parent_of(x), y);
    }
}

/// Of two nodes on one path, one is above the other.
pub(crate) proof fn lemma_path_is_chain(m: HostModel, x: NodeId, a: NodeId, b: NodeId)
    requires
        m.wf(),
        m.path_up(x).contains(a),
        m.path_up(x).contains(b),
    ensures
        m.path_up(a).contains(b) || m.path_up(b).contains(a),
    decreases m.depth(x),
{
    lemma_path_up(m, x);
    if a != x && b != x {
        lemma_depth(m, x);
        lemma_path_is_chain(m, m.parent_of(x), a, b);
    }
}

/// A child is not on the path of its parent.
pub(crate) proof fn lemma_child_not_above(m: HostModel, p: NodeId, k: int)
    requires
        m.wf(),
        p.0 < m.nodes.len(),
        0 <= k < m.list(p).len(),
    ensures
        !m.path_up(p).contains(m.list(p)[k]),
{
    lemma_height(m, p, k);
    let c = m.list(p)[k];
    assert(m.parent_of(c) == p);
    lemma_depth(m, c);
    if m.path_up(p).contains(c) {
        lemma_path_depth(m, p, c);
    }
}

pub(crate) proof fn lemma_tree_below(m: HostModel, id: NodeId, keep: spec_fn(NodeId) -> bool, x: NodeId)
    requires
        m.wf(),
        m.tree(id, keep).contains(x),
    ensures
        m.path_up(x).contains(id),
    decreases m.height(id), 1int, 0int,
{
    let rest = m.trees(id, 0, keep);
    assert(m.tree(id, keep) == seq![id] + rest);
    lemma_path_up(m, x);
    let i = choose|i: int| 0 <= i < m.tree(id, keep).len() && m.tree(id, keep)[i] == x;
    if i > 0 {
        assert(rest[i - 1] == x);
        let j = lemma_trees_below(m, id, 0, keep, x);
        lemma_height(m, id, j);
        let c = m.list(id)[j];
        lemma_path_up(m, c);
        lemma_path_up(m, id);
        assert(m.path_up(c).contains(id));
        crate::host::proofs::lemma_path_closed(m, x, c, id);
    }
}

/// A node below `p` is at or below one of its children.
pub(crate) proof fn lemma_trees_below(
    m: HostModel,
    p: NodeId,
    k: nat,
    keep: spec_fn(NodeId) -> bool,
    x: NodeId,
) -> (j: int)
    requires
        m.wf(),
        m.trees(p, k, keep).contains(x),
    ensures
        p.0 < m.nodes.len(),
        k <= j < m.list(p).len(),
        m.path_up(x).contains(m.list(p)[j]),
        m.tree(m.list(p)[j], keep).contains(x),
    decreases m.height(p), 0int, m.list(p).len() - k,
{
    let all = m.trees(p, k, keep);
    lemma_height(m, p, k as int);
    let c = m.list(p)[k as int];
    let a = m.tree(c, keep);
    let b = m.trees(p, k + 1, keep);
    assert(all == a + b);
    let i = choose|i: int| 0 <= i < all.len() && all[i] == x;
    if i < a.len() {
        assert(a[i] == x);
        lemma_tree_below(m, c, keep, x);
        k as int
    } else {
        assert(b[i - a.len()] == x);
        lemma_trees_below(m, p, k + 1, keep, x)
    }
}

proof fn lemma_join_distinct(a: Seq<NodeId>, b: Seq<NodeId>)
    requires
        a.no_duplicates(),
        b.no_duplicates(),
        forall|x: NodeId| !(a.contains(x) && b.contains(x)),
    ensures
        (a + b).no_duplicates(),
{
    let c = a + b;
    assert forall|i: int, j: int| 0 <= i < c.len() && 0 <= j < c.len() && i != j implies c[i]
        != c[j] by {
        if i < a.len() && j >= a.len() {
            assert(a[i] == c[i] && b[j - a.len()] == c[j]);
            if c[i] == c[j] {
                assert(a.contains(c[i]) && b.contains(c[i]));
            }
        } else if i >= a.len() && j < a.len() {
            assert(a[j] == c[j] && b[i - a.len()] == c[i]);
            if c[i] == c[j] {
                assert(a.contains(c[j]) && b.contains(c[j]));
            }
        }
    }
}

proof fn lemma_tree_distinct(m: HostModel, id: NodeId, keep: spec_fn(NodeId) -> bool)
    requires
        m.wf(),
    ensures
        m.tree(id, keep).no_duplicates(),
    decreases m.height(id), 1int, 0int,
{
    if keep(id) {
        let rest = m.trees(id, 0, keep);
        assert(m.tree(id, keep) == seq![id] + rest);
        lemma_trees_distinct(m, id, 0, keep);
        assert forall|x: NodeId| !(seq![id].contains(x) && rest.contains(x)) by {
            if seq![id].contains(x) && rest.contains(x) {
                assert(x == id);
                let j = lemma_trees_below(m, id, 0, keep, x);
                lemma_child_not_above(m, id, j);
            }
        }
        lemma_join_distinct(seq![id], rest);
    }
}

proof fn lemma_trees_distinct(m: HostModel, p: NodeId, k: nat, keep: spec_fn(NodeId) -> bool)
    requires
        m.wf(),
    ensures
        m.trees(p, k, keep).no_duplicates(),
    decreases m.height(p), 0int, m.list(p).len() - k,
{
    if p.0 < m.nodes.len() && k < m.list(p).len() {
        lemma_height(m, p, k as int);
        let c = m.list(p)[k as int];
        let a = m.tree(c, keep);
        let b = m.trees(p, k + 1, keep);
        assert(m.trees(p, k, keep) == a + b);
        lemma_tree_distinct(m, c, keep);
        lemma_trees_distinct(m, p, k + 1, keep);
        assert forall|x: NodeId| !(a.contains(x) && b.contains(x)) by {
            if a.contains(x) && b.contains(x) {
                lemma_tree_below(m, c, keep, x);
                let j = lemma_trees_below(m, p, k + 1, keep, x);
                let d = m.list(p)[j];
                lemma_height(m, p, j);
                assert(m.children[p.0 as int].no_duplicates());
                assert(c != d);
                lemma_path_is_chain(m, x, c, d);
                lemma_path_up(m, c);
                lemma_path_up(m, d);
                lemma_child_not_above(m, p, k as int);
                lemma_child_not_above(m, p, j);
            }
        }
        lemma_join_distinct(a, b);
    }
}

/// Document order visits each node at most once.
pub proof fn law_document_has_no_duplicates(m: HostModel, keep: spec_fn(NodeId) -> bool)
    requires
        m.wf(),
    ensures
        m.document(keep).no_duplicates(),
{
    lemma_forest_distinct(m, keep, 0);
    assert(m.roots.skip(0) =~= m.roots);
}

pub(crate) proof fn lemma_forest_below(
    m: HostModel,
    keep: spec_fn(NodeId) -> bool,
    list: Seq<NodeId>,
    x: NodeId,
) -> (j: int)
    requires
        m.wf(),
        m.forest(list, keep).contains(x),
    ensures
        0 <= j < list.len(),
        m.path_up(x).contains(list[j]),
        m.tree(list[j], keep).contains(x),
    decreases list.len(),
{
    let all = m.forest(list, keep);
    let a = m.tree(list[0], keep);
    let b = m.forest(list.drop_first(), keep);
    assert(all == a + b);
    let i = choose|i: int| 0 <= i < all.len() && all[i] == x;
    if i < a.len() {
        assert(a[i] == x);
        lemma_tree_below(m, list[0], keep, x);
        0
    } else {
        assert(b[i - a.len()] == x);
        lemma_forest_below(m, keep, list.drop_first(), x) + 1
    }
}

proof fn lemma_forest_distinct(m: HostModel, keep: spec_fn(NodeId) -> bool, k: int)
    requires
        m.wf(),
        0 <= k <= m.roots.len(),
    ensures
        m.forest(m.roots.skip(k), keep).no_duplicates(),
    decreases m.roots.len() - k,
{
    let list = m.roots.skip(k);
    if k < m.roots.len() {
        let rest = m.roots.skip(k + 1);
        assert(list.drop_first() =~= rest);
        let c = m.roots[k];
        assert(list[0] == c);
        let a = m.tree(c, keep);
        let b = m.forest(rest, keep);
        lemma_tree_distinct(m, c, keep);
        lemma_forest_distinct(m, keep, k + 1);
        assert forall|x: NodeId| !(a.contains(x) && b.contains(x)) by {
            if a.contains(x) && b.contains(x) {
                lemma_tree_below(m, c, keep, x);
                let j = lemma_forest_below(m, keep, rest, x);
                let d = rest[j];
                assert(d == m.roots[k + 1 + j]);
                assert(m.alive(m.roots[k]) && m.alive(m.roots[k + 1 + j]));
                assert(c != d);
                lemma_path_is_chain(m, x, c, d);
                lemma_path_up(m, c);
                lemma_path_up(m, d);
            }
        }
        lemma_join_distinct(a, b);
    }
}

// ------------------------------------------------------------ who stands where

/// `a` stands in a list, and `b` at the same place or behind it.
pub open spec fn no_later(q: Seq<NodeId>, a: NodeId, b: NodeId) -> bool {
    exists|i: int, j: int| 0 <= i <= j < q.len() && #[trigger] q[i] == a && #[trigger] q[j] == b
}

proof fn lemma_no_later_in(head: Seq<NodeId>, q: Seq<NodeId>, tail: Seq<NodeId>, a: NodeId, b: NodeId)
    requires
        no_later(q, a, b),
    ensures
        no_later(head + (q + tail), a, b),
{
    let (i, j) = choose|i: int, j: int|
        0 <= i <= j < q.len() && #[trigger] q[i] == a && #[trigger] q[j] == b;
    let all = head + (q + tail);
    assert(all[head.len() + i] == a);
    assert(all[head.len() + j] == b);
}

proof fn lemma_no_later_across(p: Seq<NodeId>, q: Seq<NodeId>, a: NodeId, b: NodeId)
    requires
        p.contains(a),
        q.contains(b),
    ensures
        no_later(p + q, a, b),
{
    let i = choose|i: int| 0 <= i < p.len() && p[i] == a;
    let j = choose|j: int| 0 <= j < q.len() && q[j] == b;
    assert((p + q)[i] == a);
    assert((p + q)[p.len() + j] == b);
}

/// The trees of earlier children come before those of later ones.
pub(crate) proof fn lemma_order_in_trees(
    m: HostModel,
    p: NodeId,
    from: nat,
    i: nat,
    j: nat,
    keep: spec_fn(NodeId) -> bool,
    a: NodeId,
    b: NodeId,
)
    requires
        m.wf(),
        p.0 < m.nodes.len(),
        from <= i <= j < m.list(p).len(),
        m.tree(m.list(p)[i as int], keep).contains(a),
        m.tree(m.list(p)[j as int], keep).contains(b),
        i == j ==> no_later(m.tree(m.list(p)[i as int], keep), a, b),
    ensures
        no_later(m.trees(p, from, keep), a, b),
    decreases i - from,
{
    let t = m.tree(m.list(p)[from as int], keep);
    let rest = m.trees(p, from + 1, keep);
    assert(m.trees(p, from, keep) == t + rest);
    if from < i {
        lemma_order_in_trees(m, p, from + 1, i, j, keep, a, b);
        lemma_no_later_in(t, rest, Seq::empty(), a, b);
        assert(t + (rest + Seq::empty()) =~= t + rest);
    } else if i == j {
        lemma_no_later_in(Seq::empty(), t, rest, a, b);
        assert(Seq::empty() + (t + rest) =~= t + rest);
    } else {
        lemma_child_in_trees(m, p, from + 1, j, keep, b);
        lemma_no_later_across(t, rest, a, b);
    }
}

/// What a child's tree holds, its parent's trees hold.
pub(crate) proof fn lemma_child_in_trees(
    m: HostModel,
    p: NodeId,
    from: nat,
    j: nat,
    keep: spec_fn(NodeId) -> bool,
    x: NodeId,
)
    requires
        m.wf(),
        p.0 < m.nodes.len(),
        from <= j < m.list(p).len(),
        m.tree(m.list(p)[j as int], keep).contains(x),
    ensures
        m.trees(p, from, keep).contains(x),
    decreases j - from,
{
    let t = m.tree(m.list(p)[from as int], keep);
    let rest = m.trees(p, from + 1, keep);
    let all = m.trees(p, from, keep);
    assert(all == t + rest);
    if from == j {
        let i = choose|i: int| 0 <= i < t.len() && t[i] == x;
        assert(all[i] == x);
    } else {
        lemma_child_in_trees(m, p, from + 1, j, keep, x);
        let i = choose|i: int| 0 <= i < rest.len() && rest[i] == x;
        assert(all[t.len() + i] == x);
    }
}

/// The trees of earlier nodes of a list come before those of later ones.
pub(crate) proof fn lemma_order_in_forest(
    m: HostModel,
    list: Seq<NodeId>,
    i: nat,
    j: nat,
    keep: spec_fn(NodeId) -> bool,
    a: NodeId,
    b: NodeId,
)
    requires
        i <= j < list.len(),
        m.tree(list[i as int], keep).contains(a),
        m.tree(list[j as int], keep).contains(b),
        i == j ==> no_later(m.tree(list[i as int], keep), a, b),
    ensures
        no_later(m.forest(list, keep), a, b),
    decreases list.len(),
{
    let t = m.tree(list[0], keep);
    let tail = list.drop_first();
    let rest = m.forest(tail, keep);
    assert(m.forest(list, keep) == t + rest);
    if 0 < i {
        assert(tail[i - 1] == list[i as int] && tail[j - 1] == list[j as int]);
        lemma_order_in_forest(m, tail, (i - 1) as nat, (j - 1) as nat, keep, a, b);
        lemma_no_later_in(t, rest, Seq::empty(), a, b);
        assert(t + (rest + Seq::empty()) =~= t + rest);
    } else if i == j {
        lemma_no_later_in(Seq::empty(), t, rest, a, b);
        assert(Seq::empty() + (t + rest) =~= t + rest);
    } else {
        assert(tail[j - 1] == list[j as int]);
        lemma_in_forest(m, tail, (j - 1) as nat, keep, b);
        lemma_no_later_across(t, rest, a, b);
    }
}

pub(crate) proof fn lemma_in_forest(
    m: HostModel,
    list: Seq<NodeId>,
    j: nat,
    keep: spec_fn(NodeId) -> bool,
    x: NodeId,
)
    requires
        j < list.len(),
        m.tree(list[j as int], keep).contains(x),
    ensures
        m.forest(list, keep).contains(x),
    decreases list.len(),
{
    let t = m.tree(list[0], keep);
    let tail = list.drop_first();
    let rest = m.forest(tail, keep);
    let all = m.forest(list, keep);
    assert(all == t + rest);
    if j == 0 {
        let i = choose|i: int| 0 <= i < t.len() && t[i] == x;
        assert(all[i] == x);
    } else {
        assert(tail[j - 1] == list[j as int]);
        lemma_in_forest(m, tail, (j - 1) as nat, keep, x);
        let i = choose|i: int| 0 <= i < rest.len() && rest[i] == x;
        assert(all[t.len() + i] == x);
    }
}

/// Where a tree holds a node, it holds the node's kept children behind it, in
/// the order of their list.
proof fn lemma_family_in_tree(
    m: HostModel,
    id: NodeId,
    keep: spec_fn(NodeId) -> bool,
    p: NodeId,
    i: nat,
    j: nat,
)
    requires
        m.wf(),
        m.tree(id, keep).contains(p),
        p.0 < m.nodes.len(),
        i <= j < m.list(p).len(),
        keep(m.list(p)[i as int]),
        keep(m.list(p)[j as int]),
    ensures
        no_later(m.tree(id, keep), p, m.list(p)[i as int]),
        no_later(m.tree(id, keep), m.list(p)[i as int], m.list(p)[j as int]),
        m.tree(id, keep).contains(m.list(p)[i as int]),
    decreases m.height(id),
{
    let (a, b) = (m.list(p)[i as int], m.list(p)[j as int]);
    let all = m.tree(id, keep);
    let rest = m.trees(id, 0, keep);
    assert(all == seq![id] + rest);
    let k = choose|k: int| 0 <= k < all.len() && all[k] == p;
    if p == id {
        let (ta, tb) = (m.tree(a, keep), m.tree(b, keep));
        assert(ta == seq![a] + m.trees(a, 0, keep));
        assert(tb == seq![b] + m.trees(b, 0, keep));
        assert(ta[0] == a && tb[0] == b);
        lemma_child_in_trees(m, p, 0, i, keep, a);
        assert(seq![id][0] == p);
        lemma_no_later_across(seq![id], rest, p, a);
        lemma_order_in_trees(m, p, 0, i, j, keep, a, b);
        lemma_no_later_in(seq![id], rest, Seq::empty(), a, b);
        assert(seq![id] + (rest + Seq::empty()) =~= all);
    } else {
        assert(rest[k - 1] == p);
        let c = lemma_trees_below(m, id, 0, keep, p);
        lemma_height(m, id, c);
        lemma_family_in_tree(m, m.list(id)[c], keep, p, i, j);
        lemma_order_in_trees(m, id, 0, c as nat, c as nat, keep, p, a);
        lemma_order_in_trees(m, id, 0, c as nat, c as nat, keep, a, b);
        lemma_no_later_in(seq![id], rest, Seq::empty(), p, a);
        lemma_no_later_in(seq![id], rest, Seq::empty(), a, b);
        assert(seq![id] + (rest + Seq::empty()) =~= all);
    }
    let (x, y) = choose|x: int, y: int|
        0 <= x <= y < all.len() && #[trigger] all[x] == p && #[trigger] all[y] == a;
    assert(all[y] == a);
}

/// Document order: where a node is in the document, so are its children that
/// are kept, behind it and in the order of their list.
pub proof fn law_parents_come_first(
    m: HostModel,
    keep: spec_fn(NodeId) -> bool,
    p: NodeId,
    i: nat,
    j: nat,
)
    requires
        m.wf(),
        m.document(keep).contains(p),
        i <= j < m.list(p).len(),
        p.0 != NodeId::NIL,
        keep(m.list(p)[i as int]),
        keep(m.list(p)[j as int]),
    ensures
        m.document(keep).contains(m.list(p)[i as int]),
        no_later(m.document(keep), p, m.list(p)[i as int]),
        no_later(m.document(keep), m.list(p)[i as int], m.list(p)[j as int]),
{
    let r = lemma_forest_below(m, keep, m.roots, p) as nat;
    let root = m.roots[r as int];
    lemma_family_in_tree(m, root, keep, p, i, j);
    let (a, b) = (m.list(p)[i as int], m.list(p)[j as int]);
    lemma_order_in_forest(m, m.roots, r, r, keep, p, a);
    lemma_family_in_tree(m, root, keep, p, j, j);
    lemma_order_in_forest(m, m.roots, r, r, keep, a, b);
    lemma_in_forest(m, m.roots, r, keep, a);
}

/// The roots that are kept are in the document, in the order of their list.
pub proof fn law_roots_are_in_the_document(
    m: HostModel,
    keep: spec_fn(NodeId) -> bool,
    i: nat,
    j: nat,
)
    requires
        m.wf(),
        i <= j < m.roots.len(),
        keep(m.roots[i as int]),
        keep(m.roots[j as int]),
    ensures
        m.document(keep).contains(m.roots[i as int]),
        no_later(m.document(keep), m.roots[i as int], m.roots[j as int]),
{
    let (a, b) = (m.roots[i as int], m.roots[j as int]);
    let (ta, tb) = (m.tree(a, keep), m.tree(b, keep));
    assert(ta == seq![a] + m.trees(a, 0, keep));
    assert(tb == seq![b] + m.trees(b, 0, keep));
    assert(ta[0] == a && tb[0] == b);
    lemma_in_forest(m, m.roots, i, keep, a);
    lemma_order_in_forest(m, m.roots, i, j, keep, a, b);
}

/// Where one node of a tree is, its ancestors down from the tree's top are.
pub(crate) proof fn lemma_kept_path(
    m: HostModel,
    id: NodeId,
    keep: spec_fn(NodeId) -> bool,
    x: NodeId,
)
    requires
        m.wf(),
        m.tree(id, m.every()).contains(x),
    ensures
        m.tree(id, keep).contains(x) <==> forall|a: NodeId| #[trigger]
            m.path_up(x).contains(a) && m.path_up(a).contains(id) ==> keep(a),
    decreases m.height(id),
{
    let every = m.every();
    let all = m.tree(id, every);
    let rest = m.trees(id, 0, every);
    assert(all == seq![id] + rest);
    let k = choose|k: int| 0 <= k < all.len() && all[k] == x;
    lemma_path_up(m, id);
    lemma_path_up(m, x);
    lemma_tree_below(m, id, every, x);
    if x == id {
        assert forall|a: NodeId| #[trigger]
            m.path_up(x).contains(a) && m.path_up(a).contains(id) implies a == id by {
            lemma_path_depth(m, id, a);
            lemma_path_depth(m, a, id);
        }
        if keep(id) {
            assert(m.tree(id, keep) == seq![id] + m.trees(id, 0, keep));
            assert(m.tree(id, keep)[0] == id);
        }
    } else {
        assert(rest[k - 1] == x);
        let j = lemma_trees_below(m, id, 0, every, x);
        lemma_height(m, id, j);
        let c = m.list(id)[j];
        lemma_kept_path(m, c, keep, x);
        assert forall|a: NodeId| #[trigger]
            m.path_up(x).contains(a) && m.path_up(a).contains(id) implies a == id || m.path_up(
            a,
        ).contains(c) by {
            lemma_above(m, id, j, x, a);
        }
        assert forall|a: NodeId| #[trigger]
            m.path_up(x).contains(a) && m.path_up(a).contains(c) implies m.path_up(a).contains(
            id,
        ) by {
            lemma_path_up(m, c);
            crate::host::proofs::lemma_path_closed(m, a, c, id);
        }
        if m.tree(id, keep).contains(x) {
            let t = m.tree(id, keep);
            let ts = m.trees(id, 0, keep);
            assert(t == seq![id] + ts);
            let y = choose|y: int| 0 <= y < t.len() && t[y] == x;
            assert(ts[y - 1] == x);
            let i = lemma_trees_below(m, id, 0, keep, x);
            lemma_height(m, id, i);
            lemma_same_child(m, id, i, j, x);
        }
        if keep(id) && m.tree(c, keep).contains(x) {
            lemma_child_in_trees(m, id, 0, j as nat, keep, x);
            let ts = m.trees(id, 0, keep);
            assert(m.tree(id, keep) == seq![id] + ts);
            let y = choose|y: int| 0 <= y < ts.len() && ts[y] == x;
            assert(m.tree(id, keep)[y + 1] == x);
        }
    }
}

/// An ancestor of `x` at or below `p` is `p`, or at or below the child of `p`
/// that `x` is below.
pub(crate) proof fn lemma_above(m: HostModel, p: NodeId, j: int, x: NodeId, a: NodeId)
    requires
        m.wf(),
        p.0 < m.nodes.len(),
        0 <= j < m.list(p).len(),
        m.path_up(x).contains(m.list(p)[j]),
        m.path_up(x).contains(a),
        m.path_up(a).contains(p),
    ensures
        a == p || m.path_up(a).contains(m.list(p)[j]),
{
    let c = m.list(p)[j];
    lemma_height(m, p, j);
    lemma_path_up(m, c);
    lemma_path_up(m, a);
    lemma_path_is_chain(m, x, a, c);
    if !m.path_up(a).contains(c) {
        assert(m.path_up(c).contains(a));
        assert(a != c);
        assert(m.path_up(p).contains(a));
        lemma_path_depth(m, p, a);
        lemma_path_depth(m, a, p);
    }
}

/// A node is below one child of a parent only.
pub(crate) proof fn lemma_same_child(m: HostModel, p: NodeId, i: int, j: int, x: NodeId)
    requires
        m.wf(),
        p.0 < m.nodes.len(),
        0 <= i < m.list(p).len(),
        0 <= j < m.list(p).len(),
        m.path_up(x).contains(m.list(p)[i]),
        m.path_up(x).contains(m.list(p)[j]),
    ensures
        i == j,
{
    let (c, d) = (m.list(p)[i], m.list(p)[j]);
    lemma_height(m, p, i);
    lemma_height(m, p, j);
    assert(m.children[p.0 as int].no_duplicates());
    if i != j {
        assert(c != d);
        lemma_path_is_chain(m, x, c, d);
        lemma_path_up(m, c);
        lemma_path_up(m, d);
        lemma_child_not_above(m, p, i);
        lemma_child_not_above(m, p, j);
    }
}

/// What a document keeps: the nodes all of whose ancestors are kept.
pub proof fn law_document_keeps_open_paths(
    m: HostModel,
    keep: spec_fn(NodeId) -> bool,
    x: NodeId,
)
    requires
        m.wf(),
    ensures
        m.document(keep).contains(x) <==> m.document(m.every()).contains(x) && forall|a: NodeId|
            #[trigger] m.path_up(x).contains(a) ==> keep(a),
{
    let every = m.every();
    if m.document(keep).contains(x) {
        let j = lemma_forest_below(m, keep, m.roots, x) as nat;
        lemma_all_of_tree(m, m.roots[j as int], keep, x);
        lemma_in_forest(m, m.roots, j, every, x);
    }
    if m.document(every).contains(x) {
        let j = lemma_forest_below(m, every, m.roots, x) as nat;
        let r = m.roots[j as int];
        assert(m.alive(m.roots[j as int]));
        lemma_kept_path(m, r, keep, x);
        assert forall|a: NodeId| #[trigger] m.path_up(x).contains(a) implies m.path_up(
            a,
        ).contains(r) by {
            lemma_root_on_top(m, j as int, x, a);
        }
        if m.tree(r, keep).contains(x) {
            lemma_in_forest(m, m.roots, j, keep, x);
        }
        if m.document(keep).contains(x) {
            let i = lemma_forest_below(m, keep, m.roots, x);
            lemma_path_up(m, m.roots[i]);
            assert(m.alive(m.roots[i]));
            lemma_root_on_top(m, j as int, x, m.roots[i]);
            assert(m.roots[i] == r);
        }
    }
}

/// Every ancestor of a node below a root is at or below that root.
pub(crate) proof fn lemma_root_on_top(m: HostModel, j: int, x: NodeId, a: NodeId)
    requires
        m.wf(),
        0 <= j < m.roots.len(),
        m.path_up(x).contains(m.roots[j]),
        m.path_up(x).contains(a),
    ensures
        m.path_up(a).contains(m.roots[j]),
{
    let r = m.roots[j];
    assert(m.alive(m.roots[j]));
    lemma_path_up(m, r);
    lemma_path_up(m, a);
    lemma_path_is_chain(m, x, a, r);
}

/// A tree that leaves nodes out holds no node that the whole tree lacks.
proof fn lemma_all_of_tree(m: HostModel, id: NodeId, keep: spec_fn(NodeId) -> bool, x: NodeId)
    requires
        m.wf(),
        m.tree(id, keep).contains(x),
    ensures
        m.tree(id, m.every()).contains(x),
    decreases m.height(id),
{
    let every = m.every();
    let t = m.tree(id, keep);
    let ts = m.trees(id, 0, keep);
    let all = m.tree(id, every);
    assert(t == seq![id] + ts);
    assert(all == seq![id] + m.trees(id, 0, every));
    assert(all[0] == id);
    let y = choose|y: int| 0 <= y < t.len() && t[y] == x;
    if x != id {
        assert(ts[y - 1] == x);
        let j = lemma_trees_below(m, id, 0, keep, x);
        lemma_height(m, id, j);
        lemma_all_of_tree(m, m.list(id)[j], keep, x);
        lemma_child_in_trees(m, id, 0, j as nat, every, x);
        let rest = m.trees(id, 0, every);
        let i = choose|i: int| 0 <= i < rest.len() && rest[i] == x;
        assert(all[i + 1] == x);
    }
}

} // verus!
