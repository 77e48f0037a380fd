//! Mathematical model of the host: what each operation does to the tree and
//! its tables, and the invariant that every operation keeps.

use super::header::{
    NodeFlags, NodeHeader, NodeId, NodeKind, NodeProps, TextModel, ViewRow, DEFAULT_COLOR,
    DEFAULT_FONT_SIZE, NO_ROW,
};
use crate::scalar::Scalar;
use vstd::prelude::*;

verus! {

/// What a host holds.
#[verifier::ext_equal]
pub struct HostModel {
    pub nodes: Seq<NodeHeader>,
    /// Ordered children, parallel to `nodes`.
    pub children: Seq<Seq<NodeId>>,
    /// Ordered top-level nodes.
    pub roots: Seq<NodeId>,
    pub live: nat,
    pub texts: Seq<TextModel>,
    pub free_texts: Seq<u32>,
    pub views: Seq<ViewRow>,
    pub free_views: Seq<u32>,
    /// Interaction properties, parallel to `nodes`.
    pub props: Seq<NodeProps>,
    /// Nodes that await layout invalidation, in mark order.
    pub layout_dirty: Seq<NodeId>,
    pub paint_dirty: bool,
}

/// Index of the first `x` in `s`; the length of `s` where there is none.
pub open spec fn position(s: Seq<NodeId>, x: NodeId) -> int
    decreases s.len(),
{
    if s.len() == 0 || s[0] == x {
        0
    } else {
        1 + position(s.drop_first(), x)
    }
}

/// `s` without its first `x`.
pub open spec fn without(s: Seq<NodeId>, x: NodeId) -> Seq<NodeId> {
    if position(s, x) < s.len() {
        s.remove(position(s, x))
    } else {
        s
    }
}

/// `s` with `x` put before the first `before`, or at the end where there is
/// none.
pub open spec fn spliced(s: Seq<NodeId>, x: NodeId, before: NodeId) -> Seq<NodeId> {
    s.insert(position(s, before), x)
}

pub open spec fn no_props() -> NodeProps {
    NodeProps { listeners: 0, focusable: false }
}

pub open spec fn fresh_text() -> TextModel {
    TextModel {
        text: Seq::empty(),
        font_size: Scalar(DEFAULT_FONT_SIZE),
        color: DEFAULT_COLOR,
    }
}

pub open spec fn fresh_view() -> ViewRow {
    ViewRow { color: 0, radius: Scalar(0), border_w: Scalar(0), border_color: 0 }
}

/// True of a kind whose nodes own a text row.
pub open spec fn text_kind(kind: int) -> bool {
    kind == NodeKind::TEXT
}

/// True of a kind whose nodes own a view row.
pub open spec fn view_kind(kind: int) -> bool {
    kind == NodeKind::VIEW || kind == NodeKind::INPUT || kind == NodeKind::CUSTOM
}

/// What a tally counts.
pub enum Tally {
    Live,
    TextRow,
    ViewRow,
}

pub open spec fn owns_text(h: NodeHeader) -> bool {
    !h.vacant() && text_kind(h.kind_index()) && h.aux != NO_ROW
}

pub open spec fn owns_view(h: NodeHeader) -> bool {
    !h.vacant() && view_kind(h.kind_index()) && h.aux != NO_ROW
}

pub open spec fn counts(what: Tally, h: NodeHeader) -> bool {
    match what {
        Tally::Live => !h.vacant(),
        Tally::TextRow => owns_text(h),
        Tally::ViewRow => owns_view(h),
    }
}

/// Number of records that `what` counts.
pub open spec fn tally(what: Tally, nodes: Seq<NodeHeader>) -> nat
    decreases nodes.len(),
{
    if nodes.len() == 0 {
        0
    } else {
        tally(what, nodes.drop_last()) + (if counts(what, nodes.last()) {
            1nat
        } else {
            0nat
        })
    }
}

/// Evidence that no node is its own ancestor: every node ranks above its
/// parent, and below a bound.
pub struct Ranking {
    pub of: spec_fn(int) -> nat,
    pub bound: nat,
}

pub open spec fn ranked(nodes: Seq<NodeHeader>, r: Ranking) -> bool {
    &&& forall|i: int| 0 <= i < nodes.len() ==> #[trigger] (r.of)(i) < r.bound
    &&& forall|i: int|
        #![trigger nodes[i]]
        0 <= i < nodes.len() && nodes[i].parent < nodes.len() ==> (r.of)(nodes[i].parent as int) < (
        r.of)(i)
}

impl HostModel {
    pub open spec fn empty() -> HostModel {
        HostModel {
            nodes: Seq::empty(),
            children: Seq::empty(),
            roots: Seq::empty(),
            live: 0,
            texts: Seq::empty(),
            free_texts: Seq::empty(),
            views: Seq::empty(),
            free_views: Seq::empty(),
            props: Seq::empty(),
            layout_dirty: Seq::empty(),
            paint_dirty: false,
        }
    }

    /// True of an id whose slot is occupied.
    pub open spec fn alive(self, id: NodeId) -> bool {
        id.0 < self.nodes.len() && !self.nodes[id.0 as int].vacant()
    }

    pub open spec fn header(self, id: NodeId) -> NodeHeader {
        self.nodes[id.0 as int]
    }

    /// Ordered children of `parent`; nil yields the top level.
    pub open spec fn list(self, parent: NodeId) -> Seq<NodeId> {
        if parent.0 == NodeId::NIL {
            self.roots
        } else if parent.0 < self.children.len() {
            self.children[parent.0 as int]
        } else {
            Seq::empty()
        }
    }

    /// The host with `list` as the children of `parent`.
    pub open spec fn with_list(self, parent: NodeId, list: Seq<NodeId>) -> HostModel {
        if parent.0 == NodeId::NIL {
            HostModel { roots: list, ..self }
        } else {
            HostModel { children: self.children.update(parent.0 as int, list), ..self }
        }
    }

    pub open spec fn with_header(self, id: NodeId, h: NodeHeader) -> HostModel {
        HostModel { nodes: self.nodes.update(id.0 as int, h), ..self }
    }

    pub open spec fn with_parent(self, id: NodeId, parent: u32) -> HostModel {
        self.with_header(id, NodeHeader { parent, ..self.header(id) })
    }

    pub open spec fn with_paint(self, dirty: bool) -> HostModel {
        HostModel { paint_dirty: dirty, ..self }
    }

    pub open spec fn parent_of(self, id: NodeId) -> NodeId {
        if self.alive(id) {
            NodeId(self.header(id).parent)
        } else {
            NodeId(NodeId::NIL)
        }
    }

    /// The `k`-th child of `parent`; nil where there is none.
    pub open spec fn nth_child(self, parent: NodeId, k: int) -> NodeId {
        if 0 <= k < self.list(parent).len() {
            self.list(parent)[k]
        } else {
            NodeId(NodeId::NIL)
        }
    }

    /// A live node and the siblings that follow it.
    pub open spec fn from_here(self, id: NodeId) -> Seq<NodeId> {
        if self.alive(id) {
            self.list(self.parent_of(id)).skip(position(self.list(self.parent_of(id)), id))
        } else {
            Seq::empty()
        }
    }

    pub open spec fn text_of(self, id: NodeId) -> Option<TextModel> {
        if self.alive(id) && text_kind(self.header(id).kind_index()) && self.header(id).aux
            < self.texts.len() {
            Some(self.texts[self.header(id).aux as int])
        } else {
            None
        }
    }

    pub open spec fn view_of(self, id: NodeId) -> Option<ViewRow> {
        if self.alive(id) && view_kind(self.header(id).kind_index()) && self.header(id).aux
            < self.views.len() {
            Some(self.views[self.header(id).aux as int])
        } else {
            None
        }
    }

    pub open spec fn props_of(self, id: NodeId) -> NodeProps {
        if self.alive(id) {
            self.props[id.0 as int]
        } else {
            no_props()
        }
    }

    /// Marks a node: its flags are joined, it is queued when the layout flag
    /// goes up, and a repaint is owed.
    pub open spec fn marked(self, id: NodeId, flags: NodeFlags) -> HostModel {
        if self.alive(id) {
            let h = self.header(id);
            HostModel {
                nodes: self.nodes.update(
                    id.0 as int,
                    NodeHeader { flags: h.flags.with(flags), ..h },
                ),
                layout_dirty: if flags.has(NodeFlags::LAYOUT) && !h.flags.has(NodeFlags::LAYOUT) {
                    self.layout_dirty.push(id)
                } else {
                    self.layout_dirty
                },
                paint_dirty: true,
                ..self
            }
        } else {
            HostModel { paint_dirty: true, ..self }
        }
    }

    /// Unlinks `id` from its parent, which is marked for layout.
    pub open spec fn unlinked(self, id: NodeId) -> HostModel {
        let parent = NodeId(self.header(id).parent);
        if parent.0 == NodeId::DETACHED {
            self
        } else {
            self.with_list(parent, without(self.list(parent), id)).with_parent(
                id,
                NodeId::DETACHED,
            ).marked(parent, NodeFlags(NodeFlags::LAYOUT))
        }
    }

    /// Moves `child` under `parent`, before `before`.
    pub open spec fn placed(self, parent: NodeId, child: NodeId, before: NodeId) -> HostModel {
        let m = self.unlinked(child);
        m.with_list(parent, spliced(m.list(parent), child, before)).with_parent(
            child,
            parent.0,
        ).marked(child, NodeFlags(NodeFlags::LAYOUT))
    }

    /// The arena with a slot for `id`.
    pub open spec fn grown(self, id: NodeId) -> HostModel {
        if id.0 < self.nodes.len() {
            self
        } else {
            let more = (id.0 + 1 - self.nodes.len()) as nat;
            HostModel {
                nodes: self.nodes + Seq::new(more, |i: int| NodeHeader::vacated(0)),
                children: self.children + Seq::new(more, |i: int| Seq::<NodeId>::empty()),
                props: self.props + Seq::new(more, |i: int| no_props()),
                ..self
            }
        }
    }

    /// The host with the free slot `id` occupied by a node of `kind`. A row
    /// that was freed last is reused as it is; else a fresh row is added.
    pub open spec fn occupied(self, id: NodeId, kind: NodeKind) -> HostModel {
        let h = NodeHeader { kind: kind.0, ..NodeHeader::vacated(self.header(id).generation) };
        let m = HostModel {
            live: self.live + 1,
            props: self.props.update(id.0 as int, no_props()),
            ..self
        };
        if text_kind(kind.0 as int) {
            if self.free_texts.len() > 0 {
                HostModel { free_texts: self.free_texts.drop_last(), ..m }.with_header(
                    id,
                    NodeHeader { aux: self.free_texts.last(), ..h },
                )
            } else {
                HostModel { texts: self.texts.push(fresh_text()), ..m }.with_header(
                    id,
                    NodeHeader { aux: self.texts.len() as u32, ..h },
                )
            }
        } else if view_kind(kind.0 as int) {
            if self.free_views.len() > 0 {
                HostModel { free_views: self.free_views.drop_last(), ..m }.with_header(
                    id,
                    NodeHeader { aux: self.free_views.last(), ..h },
                )
            } else {
                HostModel { views: self.views.push(fresh_view()), ..m }.with_header(
                    id,
                    NodeHeader { aux: self.views.len() as u32, ..h },
                )
            }
        } else {
            m.with_header(id, h)
        }
    }

    /// Creates a node; a live slot is left as it is.
    pub open spec fn created(self, id: NodeId, kind: NodeKind) -> HostModel {
        if self.alive(id) {
            self
        } else {
            self.grown(id).occupied(id, kind)
        }
    }

    /// Frees the slot of an unlinked node, and its row.
    pub open spec fn freed(self, id: NodeId) -> HostModel {
        let h = self.header(id);
        HostModel {
            nodes: self.nodes.update(
                id.0 as int,
                NodeHeader::vacated(((h.generation + 1) % 0x1_0000) as u16),
            ),
            children: self.children.update(id.0 as int, Seq::empty()),
            props: self.props.update(id.0 as int, no_props()),
            free_texts: if owns_text(h) {
                self.free_texts.push(h.aux)
            } else {
                self.free_texts
            },
            free_views: if owns_view(h) {
                self.free_views.push(h.aux)
            } else {
                self.free_views
            },
            live: (self.live - 1) as nat,
            ..self
        }
    }

    pub open spec fn removed(self, id: NodeId) -> HostModel {
        self.unlinked(id).freed(id)
    }

    /// Replaces a text node's content.
    pub open spec fn text_set(self, id: NodeId, text: Seq<char>) -> HostModel {
        match self.text_of(id) {
            Some(row) => HostModel {
                texts: self.texts.update(self.header(id).aux as int, TextModel { text, ..row }),
                ..self
            }.marked(id, NodeFlags(NodeFlags::LAYOUT_TEXT)),
            None => self,
        }
    }

    /// Replaces a text node's size and color. A new size invalidates layout,
    /// a new color alone asks for a repaint.
    pub open spec fn text_styled(self, id: NodeId, font_size: Scalar, color: u32) -> HostModel {
        match self.text_of(id) {
            Some(row) => {
                let m = HostModel {
                    texts: self.texts.update(
                        self.header(id).aux as int,
                        TextModel { font_size, color, ..row },
                    ),
                    ..self
                };
                if row.font_size.equals(font_size) {
                    m.with_paint(true)
                } else {
                    m.marked(id, NodeFlags(NodeFlags::LAYOUT_TEXT))
                }
            },
            None => self,
        }
    }

    /// Replaces a node's view row and asks for a repaint.
    pub open spec fn painted(self, id: NodeId, row: ViewRow) -> HostModel {
        match self.view_of(id) {
            Some(_) => HostModel {
                views: self.views.update(self.header(id).aux as int, row),
                paint_dirty: true,
                ..self
            },
            None => self,
        }
    }

    pub open spec fn filled(self, id: NodeId, color: u32) -> HostModel {
        match self.view_of(id) {
            Some(row) => self.painted(id, ViewRow { color, ..row }),
            None => self,
        }
    }

    pub open spec fn styled(self, id: NodeId, style: u32) -> HostModel {
        (if self.alive(id) {
            self.with_header(id, NodeHeader { style, ..self.header(id) })
        } else {
            self
        }).marked(id, NodeFlags(NodeFlags::LAYOUT))
    }

    pub open spec fn concealed(self, id: NodeId, hidden: bool) -> HostModel {
        (if self.alive(id) {
            self.with_header(id, self.header(id).with_hidden(hidden))
        } else {
            self
        }).marked(id, NodeFlags(NodeFlags::LAYOUT))
    }

    pub open spec fn listening(self, id: NodeId, props: NodeProps) -> HostModel {
        if self.alive(id) {
            HostModel { props: self.props.update(id.0 as int, props), ..self }
        } else {
            self
        }
    }

    // ------------------------------------------------------------ invariant

    /// The tables that run parallel to the arena have its length, and ids
    /// stay below the sentinels.
    pub open spec fn shaped(self) -> bool {
        &&& self.children.len() == self.nodes.len()
        &&& self.props.len() == self.nodes.len()
        &&& self.nodes.len() <= NodeId::DETACHED
    }

    /// Every parent is a slot or a sentinel; free slots have none; hiding a
    /// node cannot turn its kind word into that of a free slot.
    pub open spec fn sane(self) -> bool {
        forall|i: int|
            #![trigger self.nodes[i]]
            0 <= i < self.nodes.len() ==> {
                &&& self.nodes[i].parent < self.nodes.len() || self.nodes[i].parent
                    >= NodeId::DETACHED
                &&& self.nodes[i].vacant() ==> self.nodes[i].parent == NodeId::DETACHED
                &&& !self.nodes[i].vacant() ==> self.nodes[i].kind_index() != 0x7FFF
            }
    }

    /// Every listed child is alive and names the owner of the list as its
    /// parent, and no list names a child twice. Every node whose parent is
    /// nil is a root.
    pub open spec fn linked(self) -> bool {
        &&& forall|p: int, k: int|
            #![trigger self.children[p][k]]
            0 <= p < self.children.len() && 0 <= k < self.children[p].len() ==> self.alive(
                self.children[p][k],
            ) && self.header(self.children[p][k]).parent == p
        &&& forall|p: int|
            #![trigger self.children[p]]
            0 <= p < self.children.len() ==> self.children[p].no_duplicates()
        &&& forall|k: int|
            #![trigger self.roots[k]]
            0 <= k < self.roots.len() ==> self.alive(self.roots[k]) && self.header(
                self.roots[k],
            ).parent == NodeId::NIL
        &&& self.roots.no_duplicates()
        &&& forall|i: int|
            #![trigger self.nodes[i]]
            0 <= i < self.nodes.len() && self.nodes[i].parent == NodeId::NIL
                ==> self.roots.contains(NodeId(i as u32))
    }

    /// No node is its own ancestor.
    pub open spec fn acyclic(self) -> bool {
        exists|r: Ranking| ranked(self.nodes, r)
    }

    /// Each text node owns a row of its own; the other rows are free, each
    /// once.
    pub open spec fn text_rows(self) -> bool {
        &&& forall|i: int|
            #![trigger self.nodes[i]]
            0 <= i < self.nodes.len() && owns_text(self.nodes[i]) ==> self.nodes[i].aux
                < self.texts.len() && !self.free_texts.contains(self.nodes[i].aux)
        &&& forall|i: int, j: int|
            #![trigger self.nodes[i], self.nodes[j]]
            0 <= i < j < self.nodes.len() && owns_text(self.nodes[i]) && owns_text(self.nodes[j])
                ==> self.nodes[i].aux != self.nodes[j].aux
        &&& forall|k: int|
            #![trigger self.free_texts[k]]
            0 <= k < self.free_texts.len() ==> self.free_texts[k] < self.texts.len()
        &&& self.free_texts.no_duplicates()
        &&& self.texts.len() <= NO_ROW
        &&& self.texts.len() == tally(Tally::TextRow, self.nodes) + self.free_texts.len()
    }

    pub open spec fn view_rows(self) -> bool {
        &&& forall|i: int|
            #![trigger self.nodes[i]]
            0 <= i < self.nodes.len() && owns_view(self.nodes[i]) ==> self.nodes[i].aux
                < self.views.len() && !self.free_views.contains(self.nodes[i].aux)
        &&& forall|i: int, j: int|
            #![trigger self.nodes[i], self.nodes[j]]
            0 <= i < j < self.nodes.len() && owns_view(self.nodes[i]) && owns_view(self.nodes[j])
                ==> self.nodes[i].aux != self.nodes[j].aux
        &&& forall|k: int|
            #![trigger self.free_views[k]]
            0 <= k < self.free_views.len() ==> self.free_views[k] < self.views.len()
        &&& self.free_views.no_duplicates()
        &&& self.views.len() <= NO_ROW
        &&& self.views.len() == tally(Tally::ViewRow, self.nodes) + self.free_views.len()
    }

    /// The live count is the number of occupied slots.
    pub open spec fn counted(self) -> bool {
        self.live == tally(Tally::Live, self.nodes)
    }

    pub open spec fn wf(self) -> bool {
        &&& self.shaped()
        &&& self.sane()
        &&& self.linked()
        &&& self.acyclic()
        &&& self.text_rows()
        &&& self.view_rows()
        &&& self.counted()
    }

    /// Every live node whose layout flag is up awaits invalidation.
    pub open spec fn dirty_queued(self) -> bool {
        forall|i: int|
            #![trigger self.nodes[i]]
            0 <= i < self.nodes.len() && !self.nodes[i].vacant() && self.nodes[i].flags.has(
                NodeFlags::LAYOUT,
            ) ==> self.layout_dirty.contains(NodeId(i as u32))
    }
}

// ---------------------------------------------------------------- sequences

pub proof fn lemma_position(s: Seq<NodeId>, x: NodeId)
    ensures
        0 <= position(s, x) <= s.len(),
        position(s, x) < s.len() ==> s[position(s, x)] == x,
        forall|i: int| 0 <= i < position(s, x) ==> s[i] != x,
        s.contains(x) <==> position(s, x) < s.len(),
    decreases s.len(),
{
    if s.len() > 0 && s[0] != x {
        let t = s.drop_first();
        lemma_position(t, x);
        assert forall|i: int| 0 <= i < position(s, x) implies s[i] != x by {
            if i > 0 {
                assert(s[i] == t[i - 1]);
            }
        }
        if position(s, x) < s.len() {
            assert(s[position(s, x)] == t[position(t, x)]);
        }
        if s.contains(x) {
            let i = choose|i: int| 0 <= i < s.len() && s[i] == x;
            assert(t[i - 1] == x);
        }
    }
}

/// The position is the only index that the loop over a list can stop at.
pub proof fn lemma_position_is(s: Seq<NodeId>, x: NodeId, k: int)
    requires
        0 <= k <= s.len(),
        forall|i: int| 0 <= i < k ==> s[i] != x,
        k < s.len() ==> s[k] == x,
    ensures
        position(s, x) == k,
{
    lemma_position(s, x);
}

pub proof fn lemma_without(s: Seq<NodeId>, x: NodeId)
    requires
        s.no_duplicates(),
    ensures
        without(s, x).no_duplicates(),
        !without(s, x).contains(x),
        forall|y: NodeId| y != x ==> (#[trigger] without(s, x).contains(y) <==> s.contains(y)),
        without(s, x).len() <= s.len(),
        forall|k: int|
            0 <= k < without(s, x).len() ==> s.contains(#[trigger] without(s, x)[k])
                && without(s, x)[k] != x,
{
    lemma_position(s, x);
    let p = position(s, x);
    let t = without(s, x);
    if p < s.len() {
        assert forall|y: NodeId| y != x implies (#[trigger] t.contains(y) <==> s.contains(y)) by {
            if s.contains(y) {
                let i = choose|i: int| 0 <= i < s.len() && s[i] == y;
                if i < p {
                    assert(t[i] == y);
                } else {
                    assert(t[i - 1] == y);
                }
            }
            if t.contains(y) {
                let i = choose|i: int| 0 <= i < t.len() && t[i] == y;
                if i < p {
                    assert(s[i] == y);
                } else {
                    assert(s[i + 1] == y);
                }
            }
        }
        assert forall|k: int| 0 <= k < t.len() implies s.contains(#[trigger] t[k]) && t[k] != x by {
            if k < p {
                assert(s[k] == t[k]);
            } else {
                assert(s[k + 1] == t[k]);
            }
        }
    }
}

pub proof fn lemma_spliced(s: Seq<NodeId>, x: NodeId, before: NodeId)
    requires
        s.no_duplicates(),
        !s.contains(x),
    ensures
        spliced(s, x, before).no_duplicates(),
        spliced(s, x, before).contains(x),
        spliced(s, x, before).len() == s.len() + 1,
        forall|y: NodeId|
            y != x ==> (#[trigger] spliced(s, x, before).contains(y) <==> s.contains(y)),
        forall|k: int|
            0 <= k < spliced(s, x, before).len() ==> (#[trigger] spliced(s, x, before)[k] == x)
                || s.contains(spliced(s, x, before)[k]),
{
    lemma_position(s, before);
    let p = position(s, before);
    let t = spliced(s, x, before);
    assert(t[p] == x);
    assert forall|k: int| 0 <= k < t.len() implies (#[trigger] t[k] == x) || s.contains(t[k]) by {
        if k < p {
            assert(t[k] == s[k]);
        } else if k > p {
            assert(t[k] == s[k - 1]);
        }
    }
    assert forall|y: NodeId| y != x implies (#[trigger] t.contains(y) <==> s.contains(y)) by {
        if s.contains(y) {
            let i = choose|i: int| 0 <= i < s.len() && s[i] == y;
            if i < p {
                assert(t[i] == y);
            } else {
                assert(t[i + 1] == y);
            }
        }
    }
    assert forall|i: int, j: int| 0 <= i < t.len() && 0 <= j < t.len() && i != j implies t[i]
        != t[j] by {
        let a = if i < p {
            i
        } else {
            i - 1
        };
        let b = if j < p {
            j
        } else {
            j - 1
        };
        if i != p && j != p {
            assert(s[a] == t[i] && s[b] == t[j]);
        } else if i == p {
            assert(s[b] == t[j]);
        } else {
            assert(s[a] == t[i]);
        }
    }
}

// ------------------------------------------------------------------ tallies

pub proof fn lemma_tally_bound(what: Tally, nodes: Seq<NodeHeader>)
    ensures
        tally(what, nodes) <= nodes.len(),
    decreases nodes.len(),
{
    if nodes.len() > 0 {
        lemma_tally_bound(what, nodes.drop_last());
    }
}

pub proof fn lemma_tally_update(what: Tally, nodes: Seq<NodeHeader>, i: int, h: NodeHeader)
    requires
        0 <= i < nodes.len(),
    ensures
        tally(what, nodes.update(i, h)) == tally(what, nodes) - (if counts(what, nodes[i]) {
            1int
        } else {
            0
        }) + (if counts(what, h) {
            1int
        } else {
            0
        }),
    decreases nodes.len(),
{
    let after = nodes.update(i, h);
    if i == nodes.len() - 1 {
        assert(after.drop_last() =~= nodes.drop_last());
    } else {
        assert(after.drop_last() =~= nodes.drop_last().update(i, h));
        lemma_tally_update(what, nodes.drop_last(), i, h);
    }
}

pub proof fn lemma_tally_vacant(what: Tally, nodes: Seq<NodeHeader>, more: nat)
    ensures
        tally(what, nodes + Seq::new(more, |i: int| NodeHeader::vacated(0))) == tally(what, nodes),
    decreases more,
{
    let after = nodes + Seq::new(more, |i: int| NodeHeader::vacated(0));
    if more == 0 {
        assert(after =~= nodes);
    } else {
        let less = (more - 1) as nat;
        assert(after.drop_last() =~= nodes + Seq::new(less, |i: int| NodeHeader::vacated(0)));
        assert(after.last() == NodeHeader::vacated(0));
        lemma_tally_vacant(what, nodes, less);
    }
}

} // verus!
