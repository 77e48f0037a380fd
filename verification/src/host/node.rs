//! The host arena.

use super::header::{
    NodeFlags, NodeHeader, NodeId, NodeKind, NodeProps, TextModel, TextRow, ViewRow, DEFAULT_COLOR,
    DEFAULT_FONT_SIZE, NO_ROW,
};
use super::model::{
    fresh_text, fresh_view, lemma_position_is, no_props, position, spliced, without, HostModel,
};
use super::proofs::{
    lemma_congruent, lemma_created_wf, lemma_depth, lemma_marked_wf, lemma_path_up, lemma_placed_wf,
    lemma_removed_wf, lemma_rewritten, lemma_unlinked_wf, same_place,
};
use crate::scalar::Scalar;
use vstd::prelude::*;

verus! {

/// Dense arena indexed directly by the ids that the sender assigns.
///
/// Free slots carry the empty kind, and the generation of a slot makes stale
/// ids safe to touch. Children live beside the arena in ordered lists, with
/// `roots` holding the top level.
pub struct Host {
    nodes: Vec<NodeHeader>,
    children: Vec<Vec<NodeId>>,
    roots: Vec<NodeId>,
    live: usize,
    /// Rows of text nodes, recycled through `free_texts`.
    texts: Vec<TextRow>,
    free_texts: Vec<u32>,
    /// Rows of view, input and custom nodes, recycled through `free_views`.
    views: Vec<ViewRow>,
    free_views: Vec<u32>,
    props: Vec<NodeProps>,
    /// Nodes that need layout invalidation, in mark order: pushed when a
    /// node's layout flag goes up, drained by the layout pass.
    layout_dirty: Vec<NodeId>,
    /// Coarse repaint signal: set by any mutation that can change pixels.
    paint_dirty: bool,
}

/// Position of `x` in `list`; its length where it is absent.
fn find(list: &Vec<NodeId>, x: NodeId) -> (r: usize)
    ensures
        r == position(list@, x),
        r <= list@.len(),
{
    let mut k: usize = 0;
    while k < list.len()
        invariant
            k <= list@.len(),
            forall|i: int| 0 <= i < k ==> list@[i] != x,
        decreases list@.len() - k,
    {
        if list[k].0 == x.0 {
            proof {
                lemma_position_is(list@, x, k as int);
            }
            return k;
        }
        k = k + 1;
    }
    proof {
        lemma_position_is(list@, x, k as int);
    }
    k
}

impl Host {
    /// What the host holds.
    pub closed spec fn model(&self) -> HostModel {
        HostModel {
            nodes: self.nodes@,
            children: Seq::new(self.children@.len(), |i: int| self.children@[i]@),
            roots: self.roots@,
            live: self.live as nat,
            texts: Seq::new(self.texts@.len(), |i: int| self.texts@[i]@),
            free_texts: self.free_texts@,
            views: self.views@,
            free_views: self.free_views@,
            props: self.props@,
            layout_dirty: self.layout_dirty@,
            paint_dirty: self.paint_dirty,
        }
    }

    pub fn new() -> (r: Host)
        ensures
            r.model() == HostModel::empty(),
            r.model().wf(),
            r.model().dirty_queued(),
    {
        let r = Host {
            nodes: Vec::new(),
            children: Vec::new(),
            roots: Vec::new(),
            live: 0,
            texts: Vec::new(),
            free_texts: Vec::new(),
            views: Vec::new(),
            free_views: Vec::new(),
            props: Vec::new(),
            layout_dirty: Vec::new(),
            paint_dirty: false,
        };
        proof {
            assert(r.model() =~= HostModel::empty());
            let k = super::model::Ranking { of: |i: int| 0nat, bound: 1 };
            assert(super::model::ranked(r.model().nodes, k));
        }
        r
    }

    /// The record of a live node.
    pub fn node(&self, id: NodeId) -> (r: Option<&NodeHeader>)
        ensures
            r == (if self.model().alive(id) {
                Some(&self.model().header(id))
            } else {
                None
            }),
    {
        let index: usize = id.index();
        if index < self.nodes.len() && !self.nodes[index].is_empty() {
            Some(&self.nodes[index])
        } else {
            None
        }
    }

    /// The record in slot `index`, live or free.
    pub(crate) fn header_at(&self, index: usize) -> (r: NodeHeader)
        requires
            index < self.model().nodes.len(),
        ensures
            r == self.model().nodes[index as int],
    {
        self.nodes[index]
    }

    pub fn node_mut(&mut self, id: NodeId) -> (r: Option<&mut NodeHeader>)
        ensures
            match r {
                Some(h) => {
                    &&& old(self).model().alive(id)
                    &&& *h == old(self).model().header(id)
                    &&& final(self).model() == old(self).model().with_header(id, *final(h))
                    &&& old(self).model().wf() && same_place(*h, *final(h))
                        ==> final(self).model().wf()
                },
                None => !old(self).model().alive(id) && final(self).model() == old(self).model(),
            },
    {
        let index: usize = id.index();
        if index < self.nodes.len() && !self.nodes[index].is_empty() {
            proof {
                if self.model().wf() {
                    lemma_rewritten(self.model(), id);
                }
            }
            Some(&mut self.nodes[index])
        } else {
            None
        }
    }

    /// Grows the arena to hold a slot for `id`.
    fn grow(&mut self, id: NodeId)
        requires
            old(self).model().wf(),
            id.0 < NodeId::DETACHED,
        ensures
            final(self).model() == old(self).model().grown(id),
    {
        let ghost start = self.model();
        let ghost m = self.model().nodes.len();
        let index: usize = id.index();
        while self.nodes.len() <= index
            invariant
                id.0 == index,
                start.shaped(),
                m == start.nodes.len(),
                m <= self.nodes@.len(),
                self.nodes@.len() <= index + 1 || self.nodes@.len() == m,
                self.children@.len() == self.nodes@.len(),
                self.props@.len() == self.nodes@.len(),
                self.model() == (HostModel {
                    nodes: start.nodes + Seq::new(
                        (self.nodes@.len() - m) as nat,
                        |i: int| NodeHeader::vacated(0),
                    ),
                    children: start.children + Seq::new(
                        (self.nodes@.len() - m) as nat,
                        |i: int| Seq::<NodeId>::empty(),
                    ),
                    props: start.props + Seq::new(
                        (self.nodes@.len() - m) as nat,
                        |i: int| no_props(),
                    ),
                    ..start
                }),
            decreases index + 1 - self.nodes@.len(),
        {
            let ghost before = self.model();
            let ghost n = (self.nodes@.len() - m) as nat;
            self.nodes.push(NodeHeader::empty(0));
            self.children.push(Vec::new());
            self.props.push(NodeProps { listeners: 0, focusable: false });
            proof {
                let more = (n + 1) as nat;
                assert(self.model().nodes =~= start.nodes + Seq::new(
                    more,
                    |i: int| NodeHeader::vacated(0),
                ));
                assert(self.model().children =~= start.children + Seq::new(
                    more,
                    |i: int| Seq::<NodeId>::empty(),
                )) by {
                    assert(self.model().children =~= before.children.push(Seq::<NodeId>::empty()));
                }
                assert(self.model().props =~= start.props + Seq::new(more, |i: int| no_props()));
                assert(self.model().texts =~= before.texts);
            }
        }
        proof {
            assert(self.model() =~= start.grown(id)) by {
                if m > index {
                    assert(self.model().nodes =~= start.nodes);
                    assert(self.model().children =~= start.children);
                    assert(self.model().props =~= start.props);
                }
            }
        }
    }

    /// A row for a new text node: the row freed last, or a fresh one.
    fn take_text_row(&mut self) -> (row: u32)
        requires
            old(self).model().free_texts.len() == 0 ==> old(self).model().texts.len() < NO_ROW,
        ensures
            old(self).model().free_texts.len() > 0 ==> row
                == old(self).model().free_texts.last() && final(self).model()
                == (
                    HostModel {
                        free_texts: old(self).model().free_texts.drop_last(),
                        ..old(self).model()
                    }
                ),
            old(self).model().free_texts.len() == 0 ==> row
                == old(self).model().texts.len() && final(self).model() == (
            HostModel { texts: old(self).model().texts.push(fresh_text()), ..old(self).model() }),
    {
        let ghost before = self.model();
        match self.free_texts.pop() {
            Some(row) => {
                proof {
                    assert(self.model().children =~= before.children);
                    assert(self.model().texts =~= before.texts);
                }
                row
            },
            None => {
                let row: u32 = self.texts.len() as u32;
                self.texts.push(
                    TextRow {
                        text: String::new(),
                        font_size: Scalar(DEFAULT_FONT_SIZE),
                        color: DEFAULT_COLOR,
                    },
                );
                proof {
                    assert(self.texts@.last()@ =~= fresh_text());
                    assert(self.model().children =~= before.children);
                    assert(self.model().texts =~= before.texts.push(fresh_text()));
                    assert(self.model().free_texts =~= before.free_texts);
                }
                row
            },
        }
    }

    /// A row for a new view, input or custom node.
    fn take_view_row(&mut self) -> (row: u32)
        requires
            old(self).model().free_views.len() == 0 ==> old(self).model().views.len() < NO_ROW,
        ensures
            old(self).model().free_views.len() > 0 ==> row
                == old(self).model().free_views.last() && final(self).model()
                == (
                    HostModel {
                        free_views: old(self).model().free_views.drop_last(),
                        ..old(self).model()
                    }
                ),
            old(self).model().free_views.len() == 0 ==> row
                == old(self).model().views.len() && final(self).model() == (
            HostModel { views: old(self).model().views.push(fresh_view()), ..old(self).model() }),
    {
        let ghost before = self.model();
        match self.free_views.pop() {
            Some(row) => {
                proof {
                    assert(self.model().children =~= before.children);
                    assert(self.model().texts =~= before.texts);
                }
                row
            },
            None => {
                let row: u32 = self.views.len() as u32;
                self.views.push(
                    ViewRow {
                        color: 0,
                        radius: Scalar(0),
                        border_w: Scalar(0),
                        border_color: 0,
                    },
                );
                proof {
                    assert(self.model().children =~= before.children);
                    assert(self.model().texts =~= before.texts);
                    assert(self.model().free_views =~= before.free_views);
                }
                row
            },
        }
    }

    /// Creates a node at the id that the sender assigned. Fails where the
    /// slot is live.
    pub fn create(&mut self, id: NodeId, kind: NodeKind) -> (r: Option<&mut NodeHeader>)
        requires
            old(self).model().wf(),
            id.0 < NodeId::DETACHED,
            kind.0 as int % 0x8000 != 0x7FFF,
        ensures
            match r {
                Some(h) => {
                    &&& !old(self).model().alive(id)
                    &&& *h == old(self).model().created(id, kind).header(id)
                    &&& final(self).model() == old(self).model().created(id, kind).with_header(
                        id,
                        *final(h),
                    )
                    &&& same_place(*h, *final(h)) ==> final(self).model().wf()
                },
                None => old(self).model().alive(id) && final(self).model() == old(self).model(),
            },
            old(self).model().created(id, kind).wf(),
    {
        proof {
            lemma_created_wf(self.model(), id, kind);
        }
        let ghost start = self.model();
        let index: usize = id.index();
        if index < self.nodes.len() && !self.nodes[index].is_empty() {
            return None;
        }
        self.grow(id);
        let ghost grown = self.model();
        let generation: u16 = self.nodes[index].generation;
        let aux: u32 = if kind.0 == NodeKind::TEXT {
            self.take_text_row()
        } else if kind.0 == NodeKind::VIEW || kind.0 == NodeKind::INPUT || kind.0
            == NodeKind::CUSTOM {
            self.take_view_row()
        } else {
            NO_ROW
        };
        proof {
            super::model::lemma_tally_bound(super::model::Tally::Live, start.nodes);
        }
        self.props.set(index, NodeProps { listeners: 0, focusable: false });
        self.nodes.set(
            index,
            NodeHeader {
                parent: NodeId::DETACHED,
                aux,
                style: NO_ROW,
                kind: kind.0,
                generation,
                flags: NodeFlags(0),
            },
        );
        self.live = self.live + 1;
        proof {
            assert(self.model() =~= start.created(id, kind));
        }
        self.node_mut(id)
    }

    /// Ordered children of `parent`; nil yields the top level.
    pub fn children(&self, parent: NodeId) -> (r: &[NodeId])
        ensures
            r@ == self.model().list(parent),
    {
        if parent.is_nil() {
            return self.roots.as_slice();
        }
        let index: usize = parent.index();
        if index < self.children.len() {
            self.children[index].as_slice()
        } else {
            &[]
        }
    }

    pub fn child_count(&self, parent: NodeId) -> (r: usize)
        ensures
            r == self.model().list(parent).len(),
    {
        self.children(parent).len()
    }

    /// The `index`-th child of `parent`; nil where it is out of range.
    pub fn child_at(&self, parent: NodeId, index: usize) -> (r: NodeId)
        ensures
            r == self.model().nth_child(parent, index as int),
    {
        let list = self.children(parent);
        if index < list.len() {
            list[index]
        } else {
            NodeId(NodeId::NIL)
        }
    }

    /// The first child of `parent`; nil where it has none.
    pub fn first_child(&self, parent: NodeId) -> (r: NodeId)
        ensures
            r == self.model().nth_child(parent, 0),
    {
        self.child_at(parent, 0)
    }

    /// `id` and the siblings that follow it, in order. Empty where no list
    /// names `id`.
    pub fn siblings(&self, id: NodeId) -> (r: Vec<NodeId>)
        requires
            self.model().wf(),
        ensures
            r@ == self.model().from_here(id),
    {
        let mut out: Vec<NodeId> = Vec::new();
        if self.node(id).is_none() {
            return out;
        }
        let list = self.children(self.parent(id));
        let mut k: usize = 0;
        while k < list.len() && list[k].0 != id.0
            invariant
                k <= list@.len(),
                forall|i: int| 0 <= i < k ==> list@[i] != id,
            decreases list@.len() - k,
        {
            k = k + 1;
        }
        proof {
            lemma_position_is(list@, id, k as int);
        }
        let ghost from = k as int;
        while k < list.len()
            invariant
                0 <= from <= k <= list@.len(),
                out@ == list@.subrange(from, k as int),
            decreases list@.len() - k,
        {
            out.push(list[k]);
            proof {
                assert(list@.subrange(from, k + 1) =~= list@.subrange(from, k as int).push(
                    list@[k as int],
                ));
            }
            k = k + 1;
        }
        proof {
            assert(list@.subrange(from, list@.len() as int) =~= list@.skip(from));
        }
        out
    }

    /// Appends `child` to `parent`'s children; nil appends to the top level.
    pub fn append_child(&mut self, parent: NodeId, child: NodeId)
        requires
            old(self).model().wf(),
            old(self).model().placeable(parent, child),
        ensures
            final(self).model() == old(self).model().placed(parent, child, NodeId(NodeId::NIL)),
            final(self).model().wf(),
    {
        self.insert_before(parent, child, NodeId(NodeId::NIL));
    }

    /// True where `child` can move under `parent`.
    pub fn can_place(&self, parent: NodeId, child: NodeId) -> (r: bool)
        requires
            self.model().wf(),
        ensures
            r == self.model().placeable(parent, child),
    {
        if self.node(child).is_none() {
            return false;
        }
        if parent.is_nil() {
            return true;
        }
        if parent.index() >= self.nodes.len() {
            return false;
        }
        let mut cur: NodeId = parent;
        loop
            invariant
                self.model().wf(),
                self.model().path_up(parent).contains(child) == self.model().path_up(cur).contains(
                    child,
                ),
                self.model().alive(child),
                self.model().in_range(parent),
                parent.0 != NodeId::NIL,
            decreases self.model().depth(cur),
        {
            proof {
                lemma_path_up(self.model(), cur);
            }
            if cur.0 == child.0 {
                return false;
            }
            let up: NodeId = self.parent(cur);
            if up.0 >= NodeId::DETACHED {
                return true;
            }
            proof {
                lemma_depth(self.model(), cur);
            }
            cur = up;
        }
    }

    /// Inserts `child` before `before` among `parent`'s children; where
    /// `before` is not among them (nil never is), appends.
    pub fn insert_before(&mut self, parent: NodeId, child: NodeId, before: NodeId)
        requires
            old(self).model().wf(),
            old(self).model().placeable(parent, child),
        ensures
            final(self).model() == old(self).model().placed(parent, child, before),
            final(self).model().wf(),
    {
        proof {
            lemma_placed_wf(self.model(), parent, child, before);
            lemma_unlinked_wf(self.model(), child);
        }
        let ghost start = self.model();
        self.detach(child);
        let ghost m = self.model();
        if parent.is_nil() {
            let pos: usize = find(&self.roots, before);
            self.roots.insert(pos, child);
        } else {
            let p: usize = parent.index();
            let pos: usize = find(&self.children[p], before);
            self.children[p].insert(pos, child);
        }
        let c: usize = child.index();
        self.nodes[c].parent = parent.0;
        proof {
            let n = m.with_list(parent, spliced(m.list(parent), child, before)).with_parent(
                child,
                parent.0,
            );
            assert(self.model().children =~= n.children);
            assert(self.model().texts =~= n.texts);
            assert(self.model() =~= n);
        }
        self.mark_dirty(child, NodeFlags(NodeFlags::LAYOUT));
    }

    /// Detaches `id` and frees its slot and its row. The nodes below it stay
    /// as they are until their own removal.
    pub fn remove(&mut self, id: NodeId)
        requires
            old(self).model().wf(),
            old(self).model().alive(id),
        ensures
            final(self).model() == old(self).model().removed(id),
            final(self).model().wf(),
    {
        proof {
            lemma_removed_wf(self.model(), id);
            lemma_unlinked_wf(self.model(), id);
        }
        let ghost start = self.model();
        self.detach(id);
        let ghost m = self.model();
        let index: usize = id.index();
        self.children.set(index, Vec::new());
        let node: NodeHeader = self.nodes[index];
        if node.aux != NO_ROW {
            let kind: u16 = node.kind().0;
            if kind == NodeKind::TEXT {
                self.free_texts.push(node.aux);
            } else if kind == NodeKind::VIEW || kind == NodeKind::INPUT || kind
                == NodeKind::CUSTOM {
                self.free_views.push(node.aux);
            }
        }
        self.props.set(index, NodeProps { listeners: 0, focusable: false });
        let generation: u16 = node.generation.wrapping_add(1);
        self.nodes.set(index, NodeHeader::empty(generation));
        self.live = self.live - 1;
        proof {
            assert(self.model().children =~= m.freed(id).children);
            assert(self.model().texts =~= m.texts);
            assert(self.model() =~= m.freed(id));
        }
    }

    /// Unlinks `id` from its parent without freeing the slot.
    pub fn detach(&mut self, id: NodeId)
        requires
            old(self).model().wf(),
            old(self).model().in_range(id),
        ensures
            final(self).model() == old(self).model().unlinked(id),
            final(self).model().wf(),
    {
        let ghost start = self.model();
        let index: usize = id.index();
        let parent: u32 = self.nodes[index].parent;
        proof {
            assert(start.nodes[id.0 as int] == start.header(id));
            if start.alive(id) {
                lemma_unlinked_wf(start, id);
            }
        }
        if parent == NodeId::DETACHED {
            return;
        }
        if parent == NodeId::NIL {
            let pos: usize = find(&self.roots, id);
            if pos < self.roots.len() {
                self.roots.remove(pos);
            }
        } else {
            let p: usize = parent as usize;
            let pos: usize = find(&self.children[p], id);
            if pos < self.children[p].len() {
                self.children[p].remove(pos);
            }
        }
        self.nodes[index].parent = NodeId::DETACHED;
        proof {
            let n = start.with_list(
                NodeId(parent),
                without(start.list(NodeId(parent)), id),
            ).with_parent(id, NodeId::DETACHED);
            assert(self.model().children =~= n.children);
            assert(self.model().texts =~= n.texts);
            assert(self.model() =~= n);
        }
        // The parent's layout output depended on this child.
        self.mark_dirty(NodeId(parent), NodeFlags(NodeFlags::LAYOUT));
    }

    /// Number of slots ever allocated, free ones among them.
    pub fn slot_count(&self) -> (r: usize)
        ensures
            r == self.model().nodes.len(),
    {
        self.nodes.len()
    }

    /// Parent of `id`, or a sentinel; nil where `id` is not live.
    pub fn parent(&self, id: NodeId) -> (r: NodeId)
        ensures
            r == self.model().parent_of(id),
    {
        match self.node(id) {
            Some(n) => NodeId(n.parent),
            None => NodeId(NodeId::NIL),
        }
    }

    /// Row of a text node.
    pub fn text(&self, id: NodeId) -> (r: Option<&TextRow>)
        ensures
            match r {
                Some(row) => self.model().text_of(id) == Some(row@),
                None => self.model().text_of(id) is None,
            },
    {
        match self.node(id) {
            Some(n) => {
                if n.kind().0 == NodeKind::TEXT && (n.aux as usize) < self.texts.len() {
                    Some(&self.texts[n.aux as usize])
                } else {
                    None
                }
            },
            None => None,
        }
    }

    /// Sets a text node's content and marks it for layout.
    pub fn set_text(&mut self, id: NodeId, text: &str)
        requires
            old(self).model().wf(),
        ensures
            final(self).model() == old(self).model().text_set(id, text@),
            final(self).model().wf(),
    {
        let ghost start = self.model();
        if self.text(id).is_none() {
            return;
        }
        let aux: usize = self.nodes[id.index()].aux as usize;
        self.texts[aux].text = text.to_owned();
        proof {
            let row = TextModel { text: text@, ..start.texts[aux as int] };
            assert(self.texts@[aux as int]@ =~= row);
            assert(self.model().children =~= start.children);
            assert(self.model().texts =~= start.texts.update(aux as int, row));
            lemma_congruent(start, self.model());
            lemma_marked_wf(self.model(), id, NodeFlags(NodeFlags::LAYOUT_TEXT));
        }
        self.mark_dirty(id, NodeFlags(NodeFlags::LAYOUT_TEXT));
    }

    /// Sets a text node's font size and color. A new size invalidates
    /// layout; a new color alone asks for a repaint.
    pub fn set_text_props(&mut self, id: NodeId, font_size: Scalar, color: u32)
        requires
            old(self).model().wf(),
        ensures
            final(self).model() == old(self).model().text_styled(id, font_size, color),
            final(self).model().wf(),
    {
        let ghost start = self.model();
        if self.text(id).is_none() {
            return;
        }
        let aux: usize = self.nodes[id.index()].aux as usize;
        let same: bool = self.texts[aux].font_size.same(font_size);
        self.texts[aux].font_size = font_size;
        self.texts[aux].color = color;
        proof {
            let row = TextModel { font_size, color, ..start.texts[aux as int] };
            assert(self.texts@[aux as int]@ =~= row);
            assert(self.model().children =~= start.children);
            assert(self.model().texts =~= start.texts.update(aux as int, row));
            lemma_congruent(start, self.model());
            lemma_congruent(start, self.model().with_paint(true));
            lemma_marked_wf(self.model(), id, NodeFlags(NodeFlags::LAYOUT_TEXT));
        }
        if same {
            self.force_paint();
        } else {
            self.mark_dirty(id, NodeFlags(NodeFlags::LAYOUT_TEXT));
        }
    }

    /// Paint row of a view, input or custom node.
    pub fn view(&self, id: NodeId) -> (r: Option<&ViewRow>)
        ensures
            r == (match self.model().view_of(id) {
                Some(row) => Some(&row),
                None => None,
            }),
    {
        match self.node(id) {
            Some(n) => {
                let kind: u16 = n.kind().0;
                if (kind == NodeKind::VIEW || kind == NodeKind::INPUT || kind == NodeKind::CUSTOM)
                    && (n.aux as usize) < self.views.len() {
                    Some(&self.views[n.aux as usize])
                } else {
                    None
                }
            },
            None => None,
        }
    }

    /// Replaces a node's paint row.
    fn put_view(&mut self, id: NodeId, row: ViewRow)
        requires
            old(self).model().wf(),
        ensures
            final(self).model() == old(self).model().painted(id, row),
            final(self).model().wf(),
    {
        let ghost start = self.model();
        if self.view(id).is_none() {
            return;
        }
        let aux: usize = self.nodes[id.index()].aux as usize;
        self.views.set(aux, row);
        self.paint_dirty = true;
        proof {
            assert(self.model().children =~= start.children);
            assert(self.model().texts =~= start.texts);
            lemma_congruent(start, self.model());
        }
    }

    /// Sets a node's background color (0xRRGGBBAA).
    pub fn set_view_paint(&mut self, id: NodeId, color: u32)
        requires
            old(self).model().wf(),
        ensures
            final(self).model() == old(self).model().filled(id, color),
            final(self).model().wf(),
    {
        let row: ViewRow = match self.view(id) {
            Some(row) => ViewRow { color, ..*row },
            None => {
                return;
            },
        };
        self.put_view(id, row);
    }

    /// Sets the parts of a node's paint that are given: background color,
    /// corner radius, border color and width.
    pub fn set_paint(
        &mut self,
        id: NodeId,
        fill: Option<u32>,
        radius: Option<Scalar>,
        border: Option<(u32, Scalar)>,
    )
        requires
            old(self).model().wf(),
        ensures
            final(self).model() == (match old(self).model().view_of(id) {
                Some(row) => old(self).model().painted(id, repainted(row, fill, radius, border)),
                None => old(self).model(),
            }),
            final(self).model().wf(),
    {
        let mut row: ViewRow = match self.view(id) {
            Some(row) => *row,
            None => {
                return;
            },
        };
        if let Some(color) = fill {
            row.color = color;
        }
        if let Some(r) = radius {
            row.radius = r;
        }
        if let Some(b) = border {
            row.border_color = b.0;
            row.border_w = b.1;
        }
        self.put_view(id, row);
    }

    /// Interaction properties of a node; none for a node that is not live.
    pub fn props(&self, id: NodeId) -> (r: NodeProps)
        requires
            self.model().shaped(),
        ensures
            r == self.model().props_of(id),
    {
        if self.node(id).is_some() {
            self.props[id.index()]
        } else {
            NodeProps { listeners: 0, focusable: false }
        }
    }

    /// Sets a node's interaction properties.
    pub fn set_props(&mut self, id: NodeId, listeners: u32, focusable: bool)
        requires
            old(self).model().wf(),
        ensures
            final(self).model() == old(self).model().listening(
                id,
                NodeProps { listeners, focusable },
            ),
            final(self).model().wf(),
    {
        let ghost start = self.model();
        if self.node(id).is_some() {
            self.props.set(id.index(), NodeProps { listeners, focusable });
            proof {
                assert(self.model().children =~= start.children);
                assert(self.model().texts =~= start.texts);
                lemma_congruent(start, self.model());
            }
        }
    }

    /// Sets a node's style handle (`NO_ROW` clears it).
    pub fn set_style(&mut self, id: NodeId, style: u32)
        requires
            old(self).model().wf(),
        ensures
            final(self).model() == old(self).model().styled(id, style),
            final(self).model().wf(),
    {
        let ghost start = self.model();
        if let Some(node) = self.node_mut(id) {
            node.style = style;
        }
        proof {
            lemma_congruent(start, self.model());
            lemma_marked_wf(self.model(), id, NodeFlags(NodeFlags::LAYOUT));
        }
        self.mark_dirty(id, NodeFlags(NodeFlags::LAYOUT));
    }

    /// Sets or clears the hidden bit.
    pub fn set_hidden(&mut self, id: NodeId, hidden: bool)
        requires
            old(self).model().wf(),
        ensures
            final(self).model() == old(self).model().concealed(id, hidden),
            final(self).model().wf(),
    {
        let ghost start = self.model();
        if let Some(node) = self.node_mut(id) {
            node.set_hidden(hidden);
        }
        proof {
            assert(start.alive(id) ==> !start.header(id).vacant() && start.header(id).kind_index()
                != 0x7FFF) by {
                if start.alive(id) {
                    assert(start.nodes[id.0 as int] == start.header(id));
                }
            }
            lemma_congruent(start, self.model());
            lemma_marked_wf(self.model(), id, NodeFlags(NodeFlags::LAYOUT));
        }
        self.mark_dirty(id, NodeFlags(NodeFlags::LAYOUT));
    }

    /// Marks a node dirty and notes the repaint. The node is queued for
    /// layout when its layout flag goes up.
    pub fn mark_dirty(&mut self, id: NodeId, flags: NodeFlags)
        ensures
            final(self).model() == old(self).model().marked(id, flags),
            old(self).model().wf() ==> final(self).model().wf(),
    {
        let ghost start = self.model();
        let index: usize = id.index();
        if index < self.nodes.len() && !self.nodes[index].is_empty() {
            let node: NodeHeader = self.nodes[index];
            if flags.contains(NodeFlags(NodeFlags::LAYOUT)) && !node.flags.contains(
                NodeFlags(NodeFlags::LAYOUT),
            ) {
                self.layout_dirty.push(id);
            }
            self.nodes[index].flags.set(flags);
        }
        self.paint_dirty = true;
        proof {
            assert(self.model().children =~= start.children);
            assert(self.model().texts =~= start.texts);
            assert(self.model() =~= start.marked(id, flags));
            if start.wf() {
                lemma_marked_wf(start, id, flags);
            }
        }
    }

    /// Drains the layout queue. Called once per layout pass.
    pub fn take_layout_dirty(&mut self) -> (r: Vec<NodeId>)
        ensures
            r@ == old(self).model().layout_dirty,
            final(self).model() == (HostModel { layout_dirty: Seq::empty(), ..old(self).model() }),
            old(self).model().wf() ==> final(self).model().wf(),
    {
        let ghost start = self.model();
        let mut out: Vec<NodeId> = Vec::new();
        std::mem::swap(&mut out, &mut self.layout_dirty);
        proof {
            assert(self.model().children =~= start.children);
            assert(self.model().texts =~= start.texts);
            assert(self.model() =~= (HostModel { layout_dirty: Seq::empty(), ..start }));
            if start.wf() {
                lemma_congruent(start, self.model());
            }
        }
        out
    }

    /// Lowers a live node's layout flag.
    pub(crate) fn clear_flags(&mut self, id: NodeId, flags: NodeFlags)
        ensures
            final(self).model() == (if old(self).model().alive(id) {
                old(self).model().with_header(
                    id,
                    NodeHeader {
                        flags: old(self).model().header(id).flags.without(flags),
                        ..old(self).model().header(id)
                    },
                )
            } else {
                old(self).model()
            }),
            old(self).model().wf() ==> final(self).model().wf(),
    {
        let ghost start = self.model();
        if let Some(node) = self.node_mut(id) {
            node.flags.clear(flags);
        }
        proof {
            if start.wf() {
                lemma_congruent(start, self.model());
            }
        }
    }

    /// True when a mutation since the last `clear_paint_dirty` can change
    /// pixels.
    pub fn paint_dirty(&self) -> (r: bool)
        ensures
            r == self.model().paint_dirty,
    {
        self.paint_dirty
    }

    /// Forces the next paint.
    pub fn force_paint(&mut self)
        ensures
            final(self).model() == old(self).model().with_paint(true),
            old(self).model().wf() ==> final(self).model().wf(),
    {
        let ghost start = self.model();
        self.paint_dirty = true;
        proof {
            assert(self.model().children =~= start.children);
            assert(self.model().texts =~= start.texts);
            if start.wf() {
                lemma_congruent(start, self.model());
            }
        }
    }

    pub fn clear_paint_dirty(&mut self)
        ensures
            final(self).model() == old(self).model().with_paint(false),
            old(self).model().wf() ==> final(self).model().wf(),
    {
        let ghost start = self.model();
        self.paint_dirty = false;
        proof {
            assert(self.model().children =~= start.children);
            assert(self.model().texts =~= start.texts);
            if start.wf() {
                lemma_congruent(start, self.model());
            }
        }
    }

    /// Number of live nodes.
    pub fn len(&self) -> (r: usize)
        ensures
            r == self.model().live,
    {
        self.live
    }

    pub fn is_empty(&self) -> (r: bool)
        ensures
            r == (self.model().live == 0),
    {
        self.live == 0
    }
}

/// A paint row with the given parts replaced.
pub open spec fn repainted(
    row: ViewRow,
    fill: Option<u32>,
    radius: Option<Scalar>,
    border: Option<(u32, Scalar)>,
) -> ViewRow {
    ViewRow {
        color: match fill {
            Some(color) => color,
            None => row.color,
        },
        radius: match radius {
            Some(r) => r,
            None => row.radius,
        },
        border_w: match border {
            Some(b) => b.1,
            None => row.border_w,
        },
        border_color: match border {
            Some(b) => b.0,
            None => row.border_color,
        },
    }
}

impl Default for Host {
    fn default() -> (r: Host)
        ensures
            r.model() == HostModel::empty(),
    {
        Host::new()
    }
}

} // verus!
