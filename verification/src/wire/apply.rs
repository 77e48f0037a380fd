//! Applying a transaction to the host and the style table.
//!
//! A transaction is checked against a shadow of the tree first, so one that
//! cannot be applied changes nothing.

use super::format::{Op, OpModel, Txn, WireError};
use crate::host::model::HostModel;
use crate::host::proofs::{
    lemma_congruent, lemma_created_wf, lemma_depth, lemma_marked_wf, lemma_path_up, lemma_placed_wf,
    lemma_removed_wf, lemma_unlinked_wf, same_place,
};
use crate::host::{repainted, Host, NodeFlags, NodeHeader, NodeId, NodeKind, NodeProps};
use crate::layout::{Layouts, LayoutsModel};
use crate::style::Style;
use vstd::prelude::*;

verus! {

/// The node kind that a create op names.
pub open spec fn kind_named(kind: u8) -> NodeKind {
    NodeKind(
        if kind == 1 {
            NodeKind::TEXT
        } else if kind == 2 {
            NodeKind::INPUT
        } else if kind == 3 {
            NodeKind::CUSTOM
        } else {
            NodeKind::VIEW
        },
    )
}

/// True of an op that the tree can take: ids to create stay below the
/// sentinels, a node is placed where it closes no ring, what is detached has
/// a slot, what is removed is live, and a style has an id of its own.
pub open spec fn applicable(m: HostModel, op: OpModel) -> bool {
    match op {
        OpModel::Create { id, .. } => id < NodeId::DETACHED,
        OpModel::Place { parent, child, .. } => m.placeable(NodeId(parent), NodeId(child)),
        OpModel::Detach { id } => m.in_range(NodeId(id)),
        OpModel::Remove { id } => m.alive(NodeId(id)),
        OpModel::Style { wire_id, .. } => wire_id < u32::MAX,
        _ => true,
    }
}

/// The tree after an op.
pub open spec fn host_after(m: HostModel, op: OpModel) -> HostModel {
    match op {
        OpModel::Create { id, kind } => m.created(NodeId(id), kind_named(kind)),
        OpModel::SetText { id, text } => m.text_set(NodeId(id), text),
        OpModel::TextProps { id, font_size, color } => m.text_styled(NodeId(id), font_size, color),
        OpModel::SetStyle { id, wire_style } => m.styled(NodeId(id), wire_style),
        OpModel::Place { parent, child, before } => m.placed(
            NodeId(parent),
            NodeId(child),
            NodeId(before),
        ),
        OpModel::Detach { id } => m.unlinked(NodeId(id)),
        OpModel::Remove { id } => m.removed(NodeId(id)),
        OpModel::Hidden { id, hidden } => m.concealed(NodeId(id), hidden),
        OpModel::ViewPaint { id, color } => m.filled(NodeId(id), color),
        OpModel::Paint { id, paint } => match m.view_of(NodeId(id)) {
            Some(row) => m.painted(
                NodeId(id),
                repainted(row, paint.fill, paint.radius, paint.border),
            ),
            None => m,
        },
        OpModel::Props { id, listeners, focusable } => m.listening(
            NodeId(id),
            NodeProps { listeners, focusable },
        ),
        _ => m,
    }
}

/// The layout state after an op: a style that is redefined reaches nodes
/// that nothing lists, so it empties every cache.
pub open spec fn layouts_after(l: LayoutsModel, m: HostModel, op: OpModel) -> LayoutsModel {
    match op {
        OpModel::Style { wire_id, style } => if l.defined(wire_id) {
            l.with_style(wire_id, style).forgotten(m.nodes.len())
        } else {
            l.with_style(wire_id, style)
        },
        _ => l,
    }
}

/// The tree after the first `k` ops.
pub open spec fn host_run(m: HostModel, ops: Seq<OpModel>, k: nat) -> HostModel
    decreases k,
{
    if k == 0 {
        m
    } else {
        host_after(host_run(m, ops, (k - 1) as nat), ops[k - 1])
    }
}

/// The layout state after the first `k` ops.
pub open spec fn layouts_run(
    l: LayoutsModel,
    m: HostModel,
    ops: Seq<OpModel>,
    k: nat,
) -> LayoutsModel
    decreases k,
{
    if k == 0 {
        l
    } else {
        layouts_after(
            layouts_run(l, m, ops, (k - 1) as nat),
            host_run(m, ops, (k - 1) as nat),
            ops[k - 1],
        )
    }
}

/// Each of the first `k` ops can be applied to what the ops before it leave.
pub open spec fn runs(m: HostModel, ops: Seq<OpModel>, k: nat) -> bool {
    forall|i: nat| i < k ==> applicable(#[trigger] host_run(m, ops, i), ops[i as int])
}

/// The op at `k` is the first that cannot be applied.
pub open spec fn fails_at(m: HostModel, ops: Seq<OpModel>, k: nat) -> bool {
    runs(m, ops, k) && k < ops.len() && !applicable(host_run(m, ops, k), ops[k as int])
}

/// True of two trees with the same slots, of which the same are live, with
/// the same parents.
pub open spec fn same_shape(a: HostModel, b: HostModel) -> bool {
    &&& a.nodes.len() == b.nodes.len()
    &&& forall|i: int|
        #![trigger b.nodes[i]]
        0 <= i < a.nodes.len() ==> a.nodes[i].parent == b.nodes[i].parent && a.nodes[i].vacant()
            == b.nodes[i].vacant()
}

/// An op that only writes content keeps the invariant and the shape of the
/// tree.
pub(crate) proof fn lemma_content_op(m: HostModel, op: OpModel)
    requires
        m.wf(),
        !(op is Create || op is Place || op is Detach || op is Remove),
    ensures
        host_after(m, op).wf(),
        same_shape(m, host_after(m, op)),
{
    let n = host_after(m, op);
    match op {
        OpModel::SetText { id, text } => {
            let id = NodeId(id);
            if m.text_of(id) is Some {
                let a = HostModel { texts: n.texts, ..m };
                lemma_congruent(m, a);
                lemma_marked_wf(a, id, NodeFlags(NodeFlags::LAYOUT_TEXT));
                assert(n == a.marked(id, NodeFlags(NodeFlags::LAYOUT_TEXT)));
            }
        },
        OpModel::TextProps { id, .. } => {
            let id = NodeId(id);
            if m.text_of(id) is Some {
                let a = HostModel { texts: n.texts, ..m };
                lemma_congruent(m, a);
                lemma_congruent(m, a.with_paint(true));
                lemma_marked_wf(a, id, NodeFlags(NodeFlags::LAYOUT_TEXT));
            }
        },
        OpModel::SetStyle { id, wire_style } => {
            let id = NodeId(id);
            if m.alive(id) {
                let a = m.with_header(id, NodeHeader { style: wire_style, ..m.header(id) });
                lemma_congruent(m, a);
                lemma_marked_wf(a, id, NodeFlags(NodeFlags::LAYOUT));
            } else {
                lemma_marked_wf(m, id, NodeFlags(NodeFlags::LAYOUT));
            }
        },
        OpModel::Hidden { id, hidden } => {
            let id = NodeId(id);
            if m.alive(id) {
                assert(m.nodes[id.0 as int] == m.header(id));
                let a = m.with_header(id, m.header(id).with_hidden(hidden));
                lemma_congruent(m, a);
                lemma_marked_wf(a, id, NodeFlags(NodeFlags::LAYOUT));
            } else {
                lemma_marked_wf(m, id, NodeFlags(NodeFlags::LAYOUT));
            }
        },
        _ => {
            lemma_congruent(m, n);
        },
    }
}

/// An op that can be applied keeps the invariant.
pub proof fn lemma_op_wf(m: HostModel, op: OpModel)
    requires
        m.wf(),
        applicable(m, op),
    ensures
        host_after(m, op).wf(),
{
    match op {
        OpModel::Create { id, kind } => lemma_created_wf(m, NodeId(id), kind_named(kind)),
        OpModel::Place { parent, child, before } => lemma_placed_wf(
            m,
            NodeId(parent),
            NodeId(child),
            NodeId(before),
        ),
        OpModel::Detach { id } => {
            assert(m.nodes[id as int] == m.header(NodeId(id)));
            if m.alive(NodeId(id)) {
                lemma_unlinked_wf(m, NodeId(id));
            }
        },
        OpModel::Remove { id } => lemma_removed_wf(m, NodeId(id)),
        _ => lemma_content_op(m, op),
    }
}

/// What the ops of a transaction that can be applied lead to is a host that
/// keeps its invariant.
pub proof fn law_transactions_keep_the_tree(m: HostModel, ops: Seq<OpModel>, k: nat)
    requires
        m.wf(),
        runs(m, ops, k),
    ensures
        host_run(m, ops, k).wf(),
    decreases k,
{
    if k > 0 {
        let j = (k - 1) as nat;
        law_transactions_keep_the_tree(m, ops, j);
        assert(applicable(host_run(m, ops, j), ops[j as int]));
        lemma_op_wf(host_run(m, ops, j), ops[j as int]);
    }
}

/// A slot as the shape of the tree sees it.
#[derive(Clone, Copy)]
struct Slot {
    live: bool,
    parent: u32,
}

/// The shape of the tree: which slots are live, and their parents.
struct Shadow {
    slots: Vec<Slot>,
}

impl Shadow {
    spec fn shows(&self, m: HostModel) -> bool {
        &&& self.slots@.len() == m.nodes.len()
        &&& forall|i: int|
            #![trigger m.nodes[i]]
            0 <= i < m.nodes.len() ==> self.slots@[i].live == !m.nodes[i].vacant()
                && self.slots@[i].parent == m.nodes[i].parent
    }

    fn of(host: &Host) -> (r: Shadow)
        ensures
            r.shows(host.model()),
    {
        let ghost m = host.model();
        let mut slots: Vec<Slot> = Vec::new();
        let n: usize = host.slot_count();
        let mut i: usize = 0;
        while i < n
            invariant
                i <= n,
                n == m.nodes.len(),
                m == host.model(),
                slots@.len() == i,
                forall|k: int|
                    #![trigger m.nodes[k]]
                    0 <= k < i ==> slots@[k].live == !m.nodes[k].vacant() && slots@[k].parent
                        == m.nodes[k].parent,
            decreases n - i,
        {
            let h: NodeHeader = host.header_at(i);
            slots.push(Slot { live: !h.is_empty(), parent: h.parent });
            i = i + 1;
        }
        Shadow { slots }
    }

    fn is_live(&self, id: u32, m: Ghost<HostModel>) -> (r: bool)
        requires
            self.shows(m@),
        ensures
            r == m@.alive(NodeId(id)),
    {
        let i: usize = id as usize;
        proof {
            if i < m@.nodes.len() {
                assert(m@.nodes[i as int].vacant() == !self.slots@[i as int].live);
            }
        }
        i < self.slots.len() && self.slots[i].live
    }

    fn can_place(&self, parent: u32, child: u32, m: Ghost<HostModel>) -> (r: bool)
        requires
            m@.wf(),
            self.shows(m@),
        ensures
            r == m@.placeable(NodeId(parent), NodeId(child)),
    {
        if !self.is_live(child, m) {
            return false;
        }
        if parent == NodeId::NIL {
            return true;
        }
        if parent as usize >= self.slots.len() {
            return false;
        }
        let mut cur: u32 = parent;
        loop
            invariant
                m@.wf(),
                self.shows(m@),
                m@.path_up(NodeId(parent)).contains(NodeId(child)) == m@.path_up(
                    NodeId(cur),
                ).contains(NodeId(child)),
                m@.alive(NodeId(child)),
                m@.in_range(NodeId(parent)),
                m@.in_range(NodeId(cur)),
                parent != NodeId::NIL,
            decreases m@.depth(NodeId(cur)),
        {
            proof {
                lemma_path_up(m@, NodeId(cur));
                assert(m@.nodes[cur as int] == m@.header(NodeId(cur)));
            }
            if cur == child {
                return false;
            }
            let slot: Slot = self.slots[cur as usize];
            if !slot.live || slot.parent >= NodeId::DETACHED {
                return true;
            }
            proof {
                lemma_depth(m@, NodeId(cur));
            }
            cur = slot.parent;
        }
    }

    /// Takes an op that can be applied.
    fn take(&mut self, op: &Op<'_>, m: Ghost<HostModel>)
        requires
            m@.wf(),
            applicable(m@, op@),
            old(self).shows(m@),
        ensures
            final(self).shows(host_after(m@, op@)),
    {
        let ghost n = host_after(m@, op@);
        match op {
            Op::Create { id, kind } => {
                let i: usize = *id as usize;
                let ghost start = self.slots@;
                proof {
                    lemma_created_wf(m@, NodeId(*id), kind_named(*kind));
                }
                if self.is_live(*id, m) {
                    return ;
                }
                while self.slots.len() <= i
                    invariant
                        i == *id,
                        *id < NodeId::DETACHED,
                        start.len() <= self.slots@.len(),
                        self.slots@.len() <= i + 1 || self.slots@.len() == start.len(),
                        forall|k: int| 0 <= k < start.len() ==> self.slots@[k] == start[k],
                        forall|k: int|
                            start.len() <= k < self.slots@.len() ==> !self.slots@[k].live
                                && self.slots@[k].parent == NodeId::DETACHED,
                    decreases i + 1 - self.slots@.len(),
                {
                    self.slots.push(Slot { live: false, parent: NodeId::DETACHED });
                }
                self.slots.set(i, Slot { live: true, parent: NodeId::DETACHED });
                proof {
                    assert forall|k: int| #![trigger n.nodes[k]] 0 <= k < n.nodes.len() implies
                        self.slots@[k].live == !n.nodes[k].vacant() && self.slots@[k].parent
                        == n.nodes[k].parent by {
                        if k != i && k < m@.nodes.len() {
                            assert(n.nodes[k] == m@.nodes[k]);
                        }
                    }
                }
            },
            Op::Place { parent, child, before } => {
                proof {
                    lemma_placed_wf(m@, NodeId(*parent), NodeId(*child), NodeId(*before));
                }
                let i: usize = *child as usize;
                self.slots.set(i, Slot { live: true, parent: *parent });
                proof {
                    assert forall|k: int| #![trigger n.nodes[k]] 0 <= k < n.nodes.len() implies
                        self.slots@[k].live == !n.nodes[k].vacant() && self.slots@[k].parent
                        == n.nodes[k].parent by {
                        if k != i {
                            assert(same_place(m@.nodes[k], n.nodes[k]));
                        } else {
                            assert(n.nodes[k] == n.header(NodeId(*child)));
                            assert(n.alive(NodeId(*child)));
                        }
                    }
                }
            },
            Op::Detach { id } => {
                let i: usize = *id as usize;
                proof {
                    assert(m@.nodes[i as int] == m@.header(NodeId(*id)));
                    if m@.alive(NodeId(*id)) {
                        lemma_unlinked_wf(m@, NodeId(*id));
                    }
                }
                let live: bool = self.slots[i].live;
                self.slots.set(i, Slot { live, parent: NodeId::DETACHED });
                proof {
                    assert forall|k: int| #![trigger n.nodes[k]] 0 <= k < n.nodes.len() implies
                        self.slots@[k].live == !n.nodes[k].vacant() && self.slots@[k].parent
                        == n.nodes[k].parent by {
                        if m@.alive(NodeId(*id)) {
                            if k != i {
                                assert(same_place(m@.nodes[k], n.nodes[k]));
                            } else {
                                assert(n.nodes[k] == n.header(NodeId(*id)));
                            }
                        } else {
                            assert(n.nodes[k] == m@.nodes[k]);
                        }
                    }
                }
            },
            Op::Remove { id } => {
                let i: usize = *id as usize;
                proof {
                    lemma_removed_wf(m@, NodeId(*id));
                    lemma_unlinked_wf(m@, NodeId(*id));
                }
                self.slots.set(i, Slot { live: false, parent: NodeId::DETACHED });
                proof {
                    let u = m@.unlinked(NodeId(*id));
                    assert forall|k: int| #![trigger n.nodes[k]] 0 <= k < n.nodes.len() implies
                        self.slots@[k].live == !n.nodes[k].vacant() && self.slots@[k].parent
                        == n.nodes[k].parent by {
                        if k != i {
                            assert(n.nodes[k] == u.nodes[k]);
                            assert(same_place(m@.nodes[k], u.nodes[k]));
                        }
                    }
                }
            },
            _ => {
                proof {
                    lemma_content_op(m@, op@);
                    assert forall|k: int| #![trigger n.nodes[k]] 0 <= k < n.nodes.len() implies
                        self.slots@[k].live == !n.nodes[k].vacant() && self.slots@[k].parent
                        == n.nodes[k].parent by {
                        assert(m@.nodes[k].parent == n.nodes[k].parent);
                    }
                }
            },
        }
    }

    fn accepts(&self, op: &Op<'_>, m: Ghost<HostModel>) -> (r: bool)
        requires
            m@.wf(),
            self.shows(m@),
        ensures
            r == applicable(m@, op@),
    {
        match op {
            Op::Create { id, .. } => *id < NodeId::DETACHED,
            Op::Place { parent, child, .. } => self.can_place(*parent, *child, m),
            Op::Detach { id } => (*id as usize) < self.slots.len(),
            Op::Remove { id } => self.is_live(*id, m),
            Op::Style { wire_id, .. } => *wire_id < u32::MAX,
            _ => true,
        }
    }
}

impl<'a> Txn<'a> {
    /// Index of the first op that cannot be applied, if any.
    fn first_rejected(&self, host: &Host) -> (r: Option<usize>)
        requires
            host.model().wf(),
        ensures
            match r {
                Some(k) => fails_at(host.model(), self@.ops, k as nat),
                None => runs(host.model(), self@.ops, self@.ops.len()),
            },
    {
        let ghost m = host.model();
        let ghost ops = self@.ops;
        let mut shadow: Shadow = Shadow::of(host);
        let mut k: usize = 0;
        while k < self.ops.len()
            invariant
                k <= self.ops@.len(),
                ops == self@.ops,
                m == host.model(),
                m.wf(),
                runs(m, ops, k as nat),
                shadow.shows(host_run(m, ops, k as nat)),
            decreases self.ops@.len() - k,
        {
            let op = &self.ops[k];
            let ghost now = host_run(m, ops, k as nat);
            proof {
                law_transactions_keep_the_tree(m, ops, k as nat);
                assert(ops[k as int] == op@);
            }
            if !shadow.accepts(op, Ghost(now)) {
                return Some(k);
            }
            shadow.take(op, Ghost(now));
            k = k + 1;
        }
        None
    }

    /// Applies the transaction to the host and the style table, in the
    /// sender's order. One that cannot be applied changes nothing.
    pub fn apply(&self, host: &mut Host, layouts: &mut Layouts) -> (r: Result<(), WireError>)
        requires
            old(host).model().wf(),
            old(layouts).wf(),
        ensures
            final(host).model().wf(),
            final(layouts).wf(),
            match r {
                Ok(_) => {
                    &&& runs(old(host).model(), self@.ops, self@.ops.len())
                    &&& final(host).model() == host_run(
                        old(host).model(),
                        self@.ops,
                        self@.ops.len(),
                    )
                    &&& final(layouts).model() == layouts_run(
                        old(layouts).model(),
                        old(host).model(),
                        self@.ops,
                        self@.ops.len(),
                    )
                },
                Err(e) => {
                    &&& e matches WireError::Rejected(k) && fails_at(
                        old(host).model(),
                        self@.ops,
                        k as nat,
                    )
                    &&& *final(host) == *old(host)
                    &&& *final(layouts) == *old(layouts)
                },
            },
    {
        if let Some(k) = self.first_rejected(host) {
            return Err(WireError::Rejected(k));
        }
        let ghost m = host.model();
        let ghost l = layouts.model();
        let ghost ops = self@.ops;
        let mut k: usize = 0;
        while k < self.ops.len()
            invariant
                k <= self.ops@.len(),
                ops == self@.ops,
                m.wf(),
                runs(m, ops, ops.len()),
                host.model() == host_run(m, ops, k as nat),
                layouts.model() == layouts_run(l, m, ops, k as nat),
                host.model().wf(),
                layouts.wf(),
            decreases self.ops@.len() - k,
        {
            let op = &self.ops[k];
            proof {
                assert(ops[k as int] == op@);
                assert(applicable(host_run(m, ops, k as nat), ops[k as int]));
            }
            apply_op(op, host, layouts);
            k = k + 1;
        }
        Ok(())
    }
}

/// Applies one op that the tree can take.
fn apply_op(op: &Op<'_>, host: &mut Host, layouts: &mut Layouts)
    requires
        old(host).model().wf(),
        old(layouts).wf(),
        applicable(old(host).model(), op@),
    ensures
        final(host).model() == host_after(old(host).model(), op@),
        final(host).model().wf(),
        final(layouts).model() == layouts_after(old(layouts).model(), old(host).model(), op@),
        final(layouts).wf(),
{
    let ghost m = host.model();
    match op {
        Op::Create { id, kind } => {
            let k: u16 = match *kind {
                1 => NodeKind::TEXT,
                2 => NodeKind::INPUT,
                3 => NodeKind::CUSTOM,
                _ => NodeKind::VIEW,
            };
            let _ = host.create(NodeId(*id), NodeKind(k));
            proof {
                let n = m.created(NodeId(*id), NodeKind(k));
                assert(n.with_header(NodeId(*id), n.header(NodeId(*id))).nodes =~= n.nodes);
            }
        },
        Op::SetText { id, text } => host.set_text(NodeId(*id), text),
        Op::TextProps { id, font_size, color } => host.set_text_props(
            NodeId(*id),
            *font_size,
            *color,
        ),
        Op::SetStyle { id, wire_style } => host.set_style(NodeId(*id), *wire_style),
        Op::Place { parent, child, before } => host.insert_before(
            NodeId(*parent),
            NodeId(*child),
            NodeId(*before),
        ),
        Op::Detach { id } => host.detach(NodeId(*id)),
        Op::Remove { id } => host.remove(NodeId(*id)),
        Op::Hidden { id, hidden } => host.set_hidden(NodeId(*id), *hidden),
        Op::ViewPaint { id, color } => host.set_view_paint(NodeId(*id), *color),
        Op::Paint { id, paint } => host.set_paint(
            NodeId(*id),
            paint.fill,
            paint.radius,
            paint.border,
        ),
        Op::Props { id, listeners, focusable } => host.set_props(
            NodeId(*id),
            *listeners,
            *focusable,
        ),
        Op::Style { wire_id, style } => {
            let existed: bool = layouts.wire_style_defined(*wire_id);
            layouts.define_style(*wire_id, **style);
            if existed {
                layouts.clear_all_caches(host.slot_count());
            }
        },
        _ => {},
    }
}

/// Two trees look the same: the top level is the same, each node of both has
/// its children, its content and its style, and what is gone was detached.
pub open spec fn looks_same(a: HostModel, b: HostModel) -> bool {
    &&& a.roots == b.roots
    &&& forall|id: NodeId|
        #![trigger a.alive(id)]
        #![trigger b.alive(id)]
        a.alive(id) && b.alive(id) ==> {
            &&& b.list(id) == a.list(id)
            &&& b.view_of(id) == a.view_of(id)
            &&& b.text_of(id) == a.text_of(id)
            &&& b.header(id).kind == a.header(id).kind
            &&& b.header(id).style == a.header(id).style
        }
    &&& forall|id: NodeId|
        #![trigger a.alive(id)]
        #![trigger b.alive(id)]
        a.alive(id) && !b.alive(id) ==> a.header(id).parent == NodeId::DETACHED
}

/// What does not ask for paint changes nothing that is painted: an op after
/// which the tree is not due for painting leaves it looking the same.
pub proof fn law_unpainted_ops_do_not_show(m: HostModel, op: OpModel)
    requires
        m.wf(),
        applicable(m, op),
        !host_after(m, op).paint_dirty,
    ensures
        looks_same(m, host_after(m, op)),
{
    let n = host_after(m, op);
    if let OpModel::Create { id: made, kind } = op {
        lemma_created_wf(m, NodeId(made), kind_named(kind));
        assert forall|id: NodeId|
            #![trigger m.alive(id)]
            #![trigger n.alive(id)]
            m.alive(id) && n.alive(id) implies {
            &&& n.list(id) == m.list(id)
            &&& n.view_of(id) == m.view_of(id)
            &&& n.text_of(id) == m.text_of(id)
            &&& n.header(id).kind == m.header(id).kind
            &&& n.header(id).style == m.header(id).style
        } by {
            assert(n.nodes[id.0 as int] == m.nodes[id.0 as int]);
            assert(m.nodes[id.0 as int] == m.header(id));
            if id.0 != NodeId::NIL {
                assert(n.children[id.0 as int] == m.children[id.0 as int]);
            }
        }
        assert forall|id: NodeId|
            #![trigger m.alive(id)]
            #![trigger n.alive(id)]
            m.alive(id) && !n.alive(id) implies m.header(id).parent == NodeId::DETACHED by {
            assert(n.nodes[id.0 as int] == m.nodes[id.0 as int]);
        }
    }
}

/// A style that is defined again empties every layout cache there is.
pub proof fn law_redefined_style_empties_caches(
    l: LayoutsModel,
    m: HostModel,
    wire_id: u32,
    style: Style,
    i: int,
)
    requires
        l.defined(wire_id),
        0 <= i < layouts_after(l, m, OpModel::Style { wire_id, style }).caches.len(),
    ensures
        layouts_after(l, m, OpModel::Style { wire_id, style }).caches[i] == Set::<int>::empty(),
        layouts_after(l, m, OpModel::Style { wire_id, style }).caches.len() >= m.nodes.len(),
{
}

} // verus!
