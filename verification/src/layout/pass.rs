//! What a layout pass decides: which caches are stale, how a node is laid
//! out, and when a text leaf is shaped again.

use super::store::Layouts;
use crate::host::model::HostModel;
use crate::host::proofs::{lemma_depth, lemma_path_closed, lemma_path_up};
use crate::host::{Host, NodeFlags, NodeHeader, NodeId, NodeKind};
use crate::scalar::Scalar;
use vstd::prelude::*;

verus! {

/// A node that some queued node has on its path to the top.
pub open spec fn touched(m: HostModel, queue: Seq<NodeId>, x: NodeId) -> bool {
    exists|k: int|
        0 <= k < queue.len() && m.in_range(queue[k]) && m.path_up(#[trigger] queue[k]).contains(x)
}

/// A record with its layout flag lowered.
pub open spec fn lowered(h: NodeHeader) -> NodeHeader {
    if h.vacant() {
        h
    } else {
        NodeHeader { flags: h.flags.without(NodeFlags(NodeFlags::LAYOUT)), ..h }
    }
}

/// The caches after the nodes in `seen` were emptied: those are empty, the
/// others are as before, and a cache that was not there before is empty.
pub open spec fn emptied(
    before: Seq<Set<int>>,
    after: Seq<Set<int>>,
    seen: Set<NodeId>,
    slots: nat,
) -> bool {
    &&& before.len() <= after.len()
    &&& after.len() <= before.len() || after.len() <= slots
    &&& forall|x: NodeId| #[trigger] seen.contains(x) ==> x.0 < after.len()
    &&& forall|x: NodeId|
        #![trigger after[x.0 as int]]
        x.0 < after.len() ==> after[x.0 as int] == (if x.0 < before.len() && !seen.contains(x) {
            before[x.0 as int]
        } else {
            Set::<int>::empty()
        })
}

/// The host with its queue drained: every node that a queued one touches has
/// its layout flag lowered.
pub open spec fn cleared(m: HostModel) -> HostModel {
    HostModel {
        nodes: Seq::new(
            m.nodes.len(),
            |i: int|
                if touched(m, m.layout_dirty, NodeId(i as u32)) {
                    lowered(m.nodes[i])
                } else {
                    m.nodes[i]
                },
        ),
        layout_dirty: Seq::empty(),
        ..m
    }
}

/// The caches of every node that a queued one touches are empty, and so are
/// those that were not there before; the others are as before.
pub open spec fn stale_emptied(
    m: HostModel,
    before: Seq<Set<int>>,
    after: Seq<Set<int>>,
) -> bool {
    &&& forall|x: NodeId| #[trigger]
        touched(m, m.layout_dirty, x) ==> x.0 < after.len() && after[x.0 as int] == Set::<
            int,
        >::empty()
    &&& forall|x: NodeId|
        #![trigger after[x.0 as int]]
        x.0 < before.len() && !touched(m, m.layout_dirty, x) ==> after[x.0 as int]
            == before[x.0 as int]
    &&& forall|i: int|
        before.len() <= i < after.len() ==> #[trigger] after[i] == Set::<int>::empty()
    &&& before.len() <= after.len()
    &&& after.len() <= before.len() || after.len() <= m.nodes.len()
}

/// Empties the solver cache of every node in the host's layout queue and of
/// all its ancestors, lowers their layout flags, and drains the queue.
pub fn invalidate(host: &mut Host, store: &mut Layouts)
    requires
        old(host).model().wf(),
        old(store).wf(),
    ensures
        final(host).model().wf(),
        final(store).wf(),
        final(host).model() == cleared(old(host).model()),
        final(store).model().styles == old(store).model().styles,
        final(store).model().rects == old(store).model().rects,
        final(store).model().hits == old(store).model().hits,
        final(store).model().misses == old(store).model().misses,
        stale_emptied(old(host).model(), old(store).model().caches, final(store).model().caches),
{
    let ghost m = host.model();
    let ghost c = store.model().caches;
    let queue: Vec<NodeId> = host.take_layout_dirty();
    let ghost q = queue@;
    let ghost mut seen: Set<NodeId> = Set::empty();
    let mut k: usize = 0;
    proof {
        assert(host.model().nodes =~= Seq::new(
            m.nodes.len(),
            |i: int|
                if seen.contains(NodeId(i as u32)) {
                    lowered(m.nodes[i])
                } else {
                    m.nodes[i]
                },
        ));
        assert forall|x: NodeId| #[trigger] seen.contains(x) <==> touched(m, q.take(0), x) by {}
    }
    while k < queue.len()
        invariant
            k <= queue@.len(),
            q == queue@,
            m.wf(),
            host.model().wf(),
            store.wf(),
            host.model() == (HostModel {
                nodes: Seq::new(
                    m.nodes.len(),
                    |i: int|
                        if seen.contains(NodeId(i as u32)) {
                            lowered(m.nodes[i])
                        } else {
                            m.nodes[i]
                        },
                ),
                layout_dirty: Seq::empty(),
                ..m
            }),
            store.model().styles == old(store).model().styles,
            store.model().rects == old(store).model().rects,
            store.model().hits == old(store).model().hits,
            store.model().misses == old(store).model().misses,
            emptied(c, store.model().caches, seen, m.nodes.len()),
            forall|x: NodeId| #[trigger] seen.contains(x) <==> touched(m, q.take(k as int), x),
        decreases queue@.len() - k,
    {
        let id: NodeId = queue[k];
        let ghost was = seen;
        let ghost mut walked: Seq<NodeId> = Seq::empty();
        if id.index() < host.slot_count() {
            let mut cur: NodeId = id;
            let mut going: bool = true;
            proof {
                assert(walked + m.path_up(cur) =~= m.path_up(id));
            }
            while going
                invariant
                    m.wf(),
                    host.model().wf(),
                    store.wf(),
                    host.model() == (HostModel {
                        nodes: Seq::new(
                            m.nodes.len(),
                            |i: int|
                                if seen.contains(NodeId(i as u32)) {
                                    lowered(m.nodes[i])
                                } else {
                                    m.nodes[i]
                                },
                        ),
                        layout_dirty: Seq::empty(),
                        ..m
                    }),
                    store.model().styles == old(store).model().styles,
                    store.model().rects == old(store).model().rects,
                    store.model().hits == old(store).model().hits,
                    store.model().misses == old(store).model().misses,
                    emptied(c, store.model().caches, seen, m.nodes.len()),
                    going ==> m.in_range(cur),
                    going ==> walked + m.path_up(cur) == m.path_up(id),
                    !going ==> walked == m.path_up(id),
                    forall|x: NodeId|
                        #[trigger] seen.contains(x) <==> was.contains(x) || walked.contains(x),
                decreases
                        if going {
                            m.depth(cur) + 1
                        } else {
                            0
                        },
            {
                let ghost done = walked;
                let ghost set = seen;
                let ghost hm = host.model();
                let ghost cs = store.model().caches;
                proof {
                    lemma_path_up(m, cur);
                }
                store.cache_clear(cur);
                host.clear_flags(cur, NodeFlags(NodeFlags::LAYOUT));
                proof {
                    walked = done.push(cur);
                    seen = set.insert(cur);
                    assert(emptied(c, store.model().caches, seen, m.nodes.len())) by {
                        let after = store.model().caches;
                        assert forall|x: NodeId| #![trigger after[x.0 as int]] x.0
                            < after.len() implies after[x.0 as int] == (if x.0 < c.len()
                            && !seen.contains(x) {
                            c[x.0 as int]
                        } else {
                            Set::<int>::empty()
                        }) by {
                            if x != cur && x.0 < cs.len() {
                                assert(after[x.0 as int] == cs[x.0 as int]);
                            }
                        }
                    }
                    let f = m.nodes[cur.0 as int].flags.0;
                    assert((f & !1u8) & !1u8 == f & !1u8) by (bit_vector);
                    assert(host.model().nodes =~= Seq::new(
                        m.nodes.len(),
                        |i: int|
                            if seen.contains(NodeId(i as u32)) {
                                lowered(m.nodes[i])
                            } else {
                                m.nodes[i]
                            },
                    ));
                    assert forall|x: NodeId| #[trigger] seen.contains(x) <==> was.contains(x)
                        || walked.contains(x) by {
                        if done.contains(x) {
                            let j = choose|j: int| 0 <= j < done.len() && done[j] == x;
                            assert(walked[j] == x);
                        }
                        if walked.contains(x) && x != cur {
                            let j = choose|j: int| 0 <= j < walked.len() && walked[j] == x;
                            assert(done[j] == x);
                        }
                        assert(walked[done.len() as int] == cur);
                    }
                }
                let p: NodeId = host.parent(cur);
                proof {
                    assert(hm.nodes[cur.0 as int].parent == m.nodes[cur.0 as int].parent);
                    assert(p == m.parent_of(cur));
                }
                if p.0 == NodeId::NIL || p.0 == NodeId::DETACHED {
                    going = false;
                    proof {
                        assert(walked =~= done + m.path_up(cur));
                    }
                } else {
                    proof {
                        lemma_depth(m, cur);
                        assert(walked + m.path_up(p) =~= done + m.path_up(cur));
                    }
                    cur = p;
                }
            }
        }
        proof {
            assert forall|x: NodeId| #[trigger] seen.contains(x) <==> touched(
                m,
                q.take(k + 1),
                x,
            ) by {
                let a = q.take(k as int);
                let b = q.take(k + 1);
                if touched(m, a, x) {
                    let j = choose|j: int|
                        0 <= j < a.len() && m.in_range(a[j]) && m.path_up(#[trigger] a[j]).contains(
                            x,
                        );
                    assert(b[j] == a[j]);
                }
                if touched(m, b, x) {
                    let j = choose|j: int|
                        0 <= j < b.len() && m.in_range(b[j]) && m.path_up(#[trigger] b[j]).contains(
                            x,
                        );
                    if j < k {
                        assert(a[j] == b[j]);
                    }
                }
                assert(b[k as int] == id);
            }
        }
        k = k + 1;
    }
    proof {
        assert(q.take(k as int) =~= q);
        assert(host.model().nodes =~= Seq::new(
            m.nodes.len(),
            |i: int|
                if touched(m, q, NodeId(i as u32)) {
                    lowered(m.nodes[i])
                } else {
                    m.nodes[i]
                },
        ));
        assert forall|x: NodeId| #[trigger] touched(m, q, x) implies x.0
            < store.model().caches.len() && store.model().caches[x.0 as int]
            == Set::<int>::empty() by {
            assert(seen.contains(x));
            assert(x == NodeId(x.0 as int as u32));
        }
        let after = store.model().caches;
        assert forall|i: int| c.len() <= i < after.len() implies #[trigger] after[i]
            == Set::<int>::empty() by {
            let x = NodeId(i as u32);
            assert(after[x.0 as int] == after[i]);
        }
    }
}

/// A stale cache makes every cache above it stale: whatever is touched has
/// its whole path to the top touched.
pub proof fn law_touched_upward(m: HostModel, queue: Seq<NodeId>, x: NodeId, y: NodeId)
    requires
        m.wf(),
        touched(m, queue, x),
        m.path_up(x).contains(y),
    ensures
        touched(m, queue, y),
{
    let k = choose|k: int|
        0 <= k < queue.len() && m.in_range(queue[k]) && m.path_up(#[trigger] queue[k]).contains(x);
    lemma_path_closed(m, queue[k], x, y);
}

/// Every dirty node is reached: where all flagged nodes are queued, no live
/// node that invalidation leaves untouched is flagged.
pub proof fn law_untouched_is_clean(m: HostModel, id: NodeId)
    requires
        m.wf(),
        m.dirty_queued(),
        m.alive(id),
        !touched(m, m.layout_dirty, id),
    ensures
        !m.header(id).flags.has(NodeFlags::LAYOUT),
{
    assert(m.nodes[id.0 as int] == m.header(id));
    if m.header(id).flags.has(NodeFlags::LAYOUT) {
        let q = m.layout_dirty;
        assert(q.contains(NodeId(id.0 as int as u32)));
        let k = choose|k: int| 0 <= k < q.len() && q[k] == id;
        lemma_path_up(m, q[k]);
        assert(m.path_up(q[k]).contains(id));
    }
}

/// How a node is laid out.
#[derive(Clone, Copy, Debug, PartialEq, Eq, Structural)]
pub enum LayoutPath {
    /// It and what is below it take no space.
    Hidden,
    /// Its children share its box.
    Container,
    /// It is measured by its content.
    Leaf,
}

/// Width that a solver offers a leaf.
#[derive(Clone, Copy, Debug, PartialEq, Eq, Structural)]
pub enum Space {
    Definite(Scalar),
    MinContent,
    MaxContent,
}

/// How a leaf gets its size.
#[derive(Clone, Copy, Debug, PartialEq, Eq)]
pub enum MeasurePlan {
    /// Both dimensions are known already.
    Known,
    /// The leaf has no content.
    Nothing,
    /// The editor of an input is measured at this width.
    Input { width: Scalar },
    /// The retained text layout is still good.
    Retained,
    /// The text is laid out again, wrapped at this width or not at all.
    Shape { wrap: Option<Scalar> },
}

/// Bits of 160, the width of an input that nothing constrains.
pub const INPUT_WIDTH: u32 = 0x4320_0000;

/// Wrap key of text that is laid out unwrapped.
pub const UNWRAPPED: u32 = 0xFFFF_FFFF;

/// Where text wraps in a space.
pub open spec fn wrap_in(space: Space) -> Option<Scalar> {
    match space {
        Space::Definite(w) => Some(w.max_of(Scalar(0))),
        Space::MinContent => Some(Scalar(0)),
        Space::MaxContent => None,
    }
}

/// The key that a text layout is retained under.
pub open spec fn wrap_key(wrap: Option<Scalar>) -> u32 {
    match wrap {
        Some(w) => w.0,
        None => UNWRAPPED,
    }
}

/// Width that an input is measured at.
pub open spec fn input_width_in(space: Space) -> Scalar {
    match space {
        Space::Definite(w) => w,
        _ => Scalar(INPUT_WIDTH),
    }
}

pub open spec fn planned(
    m: HostModel,
    id: NodeId,
    known: bool,
    space: Space,
    retained: Option<u32>,
) -> MeasurePlan {
    if known {
        MeasurePlan::Known
    } else if !m.alive(id) {
        MeasurePlan::Nothing
    } else if m.header(id).kind_index() == NodeKind::INPUT {
        MeasurePlan::Input { width: input_width_in(space) }
    } else if m.header(id).kind_index() != NodeKind::TEXT {
        MeasurePlan::Nothing
    } else if !m.header(id).flags.has(NodeFlags::TEXT) && retained == Some(
        wrap_key(wrap_in(space)),
    ) {
        MeasurePlan::Retained
    } else if m.text_of(id) is None {
        MeasurePlan::Nothing
    } else {
        MeasurePlan::Shape { wrap: wrap_in(space) }
    }
}

/// How a node with `children` children is laid out.
pub open spec fn path_for(suppressed: bool, children: nat) -> LayoutPath {
    if suppressed {
        LayoutPath::Hidden
    } else if children > 0 {
        LayoutPath::Container
    } else {
        LayoutPath::Leaf
    }
}

/// The host with the text of a node noted as laid out.
pub open spec fn shaped(m: HostModel, id: NodeId) -> HostModel {
    if m.alive(id) {
        m.with_header(
            id,
            NodeHeader {
                flags: m.header(id).flags.without(NodeFlags(NodeFlags::TEXT)),
                ..m.header(id)
            },
        )
    } else {
        m
    }
}

/// Width of an input whose editor measured `measured` at `width`.
pub open spec fn width_for(measured: Scalar, width: Scalar) -> Scalar {
    measured.max_of(width.min_of(Scalar(INPUT_WIDTH)))
}

impl Layouts {
    /// How a node is laid out: a hidden or styled-away node not at all, a
    /// node with children as a container, any other as a leaf.
    pub fn path_of(&self, host: &Host, id: NodeId) -> (r: LayoutPath)
        requires
            self.wf(),
        ensures
            r == path_for(
                self.model().suppressed(host.model(), id),
                host.model().list(id).len(),
            ),
    {
        if self.is_suppressed(host, id) {
            LayoutPath::Hidden
        } else if host.child_count(id) > 0 {
            LayoutPath::Container
        } else {
            LayoutPath::Leaf
        }
    }
}

impl Host {
    /// How a leaf gets its size: `known` where both dimensions are final,
    /// `space` the width on offer, `retained` the wrap key of the text
    /// layout kept for the node.
    pub fn measure(&self, id: NodeId, known: bool, space: Space, retained: Option<u32>) -> (r:
        MeasurePlan)
        ensures
            r == planned(self.model(), id, known, space, retained),
    {
        if known {
            return MeasurePlan::Known;
        }
        let node: NodeHeader = match self.node(id) {
            Some(n) => *n,
            None => {
                return MeasurePlan::Nothing;
            },
        };
        let kind: u16 = node.kind().0;
        if kind == NodeKind::INPUT {
            let width: Scalar = match space {
                Space::Definite(w) => w,
                _ => Scalar(INPUT_WIDTH),
            };
            return MeasurePlan::Input { width };
        }
        if kind != NodeKind::TEXT {
            return MeasurePlan::Nothing;
        }
        let wrap: Option<Scalar> = match space {
            Space::Definite(w) => Some(w.max(Scalar(0))),
            Space::MinContent => Some(Scalar(0)),
            Space::MaxContent => None,
        };
        let key: u32 = match wrap {
            Some(w) => w.0,
            None => UNWRAPPED,
        };
        let fresh: bool = match retained {
            Some(k) => k == key,
            None => false,
        };
        if !node.flags.contains(NodeFlags(NodeFlags::TEXT)) && fresh {
            return MeasurePlan::Retained;
        }
        if self.text(id).is_none() {
            return MeasurePlan::Nothing;
        }
        MeasurePlan::Shape { wrap }
    }

    /// Notes that the text of a node was laid out: its text flag goes down.
    pub fn text_measured(&mut self, id: NodeId)
        requires
            old(self).model().wf(),
        ensures
            final(self).model().wf(),
            final(self).model() == shaped(old(self).model(), id),
    {
        self.clear_flags(id, NodeFlags(NodeFlags::TEXT));
    }
}

/// Width of an input whose editor measured `measured` at `width`: never less
/// than the lesser of that width and the default.
pub fn input_width(measured: Scalar, width: Scalar) -> (r: Scalar)
    ensures
        r == width_for(measured, width),
{
    measured.max(width.min(Scalar(INPUT_WIDTH)))
}

/// A leaf: what is known is not measured; a node that is neither text nor an
/// input has no content; an input is measured at the width on offer, or at
/// 160 where none is.
pub proof fn law_leaves_are_measured(
    m: HostModel,
    id: NodeId,
    space: Space,
    retained: Option<u32>,
    w: Scalar,
)
    ensures
        planned(m, id, true, space, retained) is Known,
        !m.alive(id) ==> planned(m, id, false, space, retained) is Nothing,
        m.alive(id) && m.header(id).kind as int % 0x8000 != 1 && m.header(id).kind as int % 0x8000
            != 2 ==> planned(m, id, false, space, retained) is Nothing,
        m.alive(id) && m.header(id).kind as int % 0x8000 == 2 ==> planned(
            m,
            id,
            false,
            Space::Definite(w),
            retained,
        ) == (MeasurePlan::Input { width: w }) && planned(
            m,
            id,
            false,
            Space::MinContent,
            retained,
        ) == (MeasurePlan::Input { width: Scalar(0x4320_0000) }) && planned(
            m,
            id,
            false,
            Space::MaxContent,
            retained,
        ) == (MeasurePlan::Input { width: Scalar(0x4320_0000) }),
{
}

/// Text: a layout is kept only where the text did not change and it was made
/// for the same wrap width; else the text is shaped anew, at the width on
/// offer, at none for the least width, and unwrapped for the greatest. What is
/// shaped and then asked for again at the same width is kept.
pub proof fn law_text_is_shaped_when_stale(
    m: HostModel,
    id: NodeId,
    retained: Option<u32>,
    w: Scalar,
)
    requires
        m.alive(id),
        m.header(id).kind as int % 0x8000 == 1,
        m.text_of(id) is Some,
    ensures
        ({
            let stale = m.header(id).flags.0 & 2 != 0;
            let at = planned(m, id, false, Space::Definite(w), retained);
            let least = planned(m, id, false, Space::MinContent, retained);
            let most = planned(m, id, false, Space::MaxContent, retained);
            &&& Scalar(0).below(w) ==> at == (if !stale && retained == Some(w.0) {
                MeasurePlan::Retained
            } else {
                MeasurePlan::Shape { wrap: Some(w) }
            })
            &&& w.below(Scalar(0)) || w.nan() ==> at == least
            &&& least == (if !stale && retained == Some(0u32) {
                MeasurePlan::Retained
            } else {
                MeasurePlan::Shape { wrap: Some(Scalar(0)) }
            })
            &&& most == (if !stale && retained == Some(0xFFFF_FFFFu32) {
                MeasurePlan::Retained
            } else {
                MeasurePlan::Shape { wrap: None }
            })
        }),
{
}

/// Measured text is no longer stale; its other flags, its place and every
/// other node stay.
pub proof fn law_measured_text_is_fresh(m: HostModel, id: NodeId)
    ensures
        ({
            let n = shaped(m, id);
            let h = n.header(id);
            &&& m.alive(id) ==> h.flags.0 & 2 == 0
            &&& m.alive(id) ==> h.flags.0 & 1 == m.header(id).flags.0 & 1
            &&& m.alive(id) ==> h == (NodeHeader { flags: h.flags, ..m.header(id) })
            &&& !m.alive(id) ==> n == m
            &&& n == (HostModel { nodes: n.nodes, ..m })
            &&& n.nodes.len() == m.nodes.len()
            &&& forall|i: int|
                0 <= i < m.nodes.len() && i != id.0 ==> #[trigger] n.nodes[i] == m.nodes[i]
        }),
{
    let f = m.header(id).flags.0;
    assert((f & !2u8) & 2u8 == 0) by (bit_vector);
    assert((f & !2u8) & 1u8 == f & 1u8) by (bit_vector);
}

/// A lowered record has no layout flag, and is else the same.
pub proof fn law_lowered_flag(h: NodeHeader)
    ensures
        !h.vacant() ==> lowered(h).flags.0 & 1 == 0,
        lowered(h).flags.0 & 2 == h.flags.0 & 2,
        lowered(h) == (NodeHeader { flags: lowered(h).flags, ..h }),
        h.vacant() ==> lowered(h) == h,
{
    let f = h.flags.0;
    assert((f & !1u8) & 1u8 == 0) by (bit_vector);
    assert((f & !1u8) & 2u8 == f & 2u8) by (bit_vector);
}

/// What is touched is what is queued and what is above it: a queued node and
/// its parent are, and nothing is by an empty queue.
pub proof fn law_queued_is_touched(m: HostModel, queue: Seq<NodeId>, k: int, x: NodeId)
    requires
        m.wf(),
        0 <= k < queue.len(),
        m.in_range(queue[k]),
    ensures
        touched(m, queue, queue[k]),
        touched(m, seq![queue[k]], x) ==> m.path_up(queue[k]).contains(x),
        !touched(m, Seq::empty(), x),
{
    lemma_path_up(m, queue[k]);
    assert(m.path_up(queue[k])[0] == queue[k]);
    if touched(m, seq![queue[k]], x) {
        let one = seq![queue[k]];
        let j = choose|j: int|
            0 <= j < one.len() && m.in_range(one[j]) && m.path_up(#[trigger] one[j]).contains(x);
        assert(one[j] == queue[k]);
    }
}

/// A node takes no space where it is suppressed; else it is a container
/// exactly where it has a child.
pub proof fn law_containers_have_children(children: nat)
    ensures
        path_for(true, children) is Hidden,
        path_for(false, children) is Leaf <==> children == 0,
        path_for(false, children) is Container <==> children > 0,
{
}

/// An input is never narrower than its text, nor than the lesser of the width
/// on offer and 160; and is no wider than one of these asks.
pub proof fn law_inputs_keep_their_width(measured: Scalar, width: Scalar)
    requires
        !measured.nan(),
        !width.nan(),
    ensures
        ({
            let r = width_for(measured, width);
            &&& !r.below(measured)
            &&& !r.below(width) || !r.below(Scalar(0x4320_0000))
            &&& r == measured || r == width || r == Scalar(0x4320_0000)
            &&& measured.below(r) ==> !width.below(r) && !Scalar(0x4320_0000).below(r)
        }),
{
}

/// Invalidation drains the queue, and lowers the layout flag of every queued
/// node and of all above it, up to the top; the other records, the lists, rows
/// and properties stay.
pub proof fn law_invalidation_reaches_the_top(m: HostModel, k: int, x: NodeId)
    requires
        m.wf(),
        0 <= k < m.layout_dirty.len(),
        m.in_range(m.layout_dirty[k]),
        m.path_up(m.layout_dirty[k]).contains(x),
        m.alive(x),
    ensures
        cleared(m).layout_dirty.len() == 0,
        cleared(m).header(x).flags.0 & 1 == 0,
        cleared(m).header(x).flags.0 & 2 == m.header(x).flags.0 & 2,
        cleared(m) == (HostModel {
            nodes: cleared(m).nodes,
            layout_dirty: Seq::empty(),
            ..m
        }),
        cleared(m).nodes.len() == m.nodes.len(),
{
    assert(touched(m, m.layout_dirty, x));
    assert(x == NodeId(x.0 as int as u32));
    law_lowered_flag(m.header(x));
}

/// The caches of queued nodes and of all above them are emptied; those of the
/// others stay, and so do their records.
pub proof fn law_only_stale_caches_are_emptied(
    m: HostModel,
    before: Seq<Set<int>>,
    after: Seq<Set<int>>,
    x: NodeId,
)
    requires
        m.wf(),
        stale_emptied(m, before, after),
    ensures
        (exists|k: int|
            0 <= k < m.layout_dirty.len() && m.in_range(m.layout_dirty[k]) && m.path_up(
                #[trigger] m.layout_dirty[k],
            ).contains(x)) ==> x.0 < after.len() && after[x.0 as int].is_empty(),
        (forall|k: int|
            0 <= k < m.layout_dirty.len() && m.in_range(m.layout_dirty[k]) ==> !m.path_up(
                #[trigger] m.layout_dirty[k],
            ).contains(x)) ==> {
            &&& x.0 < before.len() ==> x.0 < after.len() && after[x.0 as int] == before[x.0 as int]
            &&& x.0 < m.nodes.len() ==> cleared(m).nodes[x.0 as int] == m.nodes[x.0 as int]
        },
{
    let q = m.layout_dirty;
    if touched(m, q, x) {
        assert(after[x.0 as int] == Set::<int>::empty());
        let k = choose|k: int|
            0 <= k < q.len() && m.in_range(q[k]) && m.path_up(#[trigger] q[k]).contains(x);
        assert(m.path_up(q[k]).contains(x));
    } else {
        assert(x == NodeId(x.0 as int as u32));
        if x.0 < before.len() {
            assert(after[x.0 as int] == before[x.0 as int]);
        }
    }
}

} // verus!
