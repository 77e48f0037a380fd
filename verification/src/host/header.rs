//! Node identity and the fixed-size record of a retained node.

use crate::scalar::Scalar;
use vstd::prelude::*;

verus! {

/// Stable node identity, assigned by the sender of transactions and recycled
/// there once a removal is acknowledged. An id is a direct index into the
/// host arena: the arena keeps no free list of its own.
#[derive(Clone, Copy, Debug, PartialEq, Eq, Hash, Structural)]
pub struct NodeId(pub u32);

impl NodeId {
    /// Nil, or "the root list". Real ids stay below `DETACHED`.
    pub const NIL: u32 = 0xFFFF_FFFF;

    /// Parent of a record that was created but never attached.
    pub const DETACHED: u32 = 0xFFFF_FFFE;

    pub fn is_nil(self) -> (r: bool)
        ensures
            r == (self.0 == NodeId::NIL),
    {
        self.0 == NodeId::NIL
    }

    pub(crate) fn index(self) -> (r: usize)
        ensures
            r == self.0,
    {
        self.0 as usize
    }
}

/// Root sentinel: the children of `ROOT` are the top-level nodes.
pub const ROOT: u32 = 0xFFFF_FFFF;

/// Kind word of a free slot.
pub const EMPTY_KIND: u16 = 0xFFFF;

/// Top bit of a kind word: the node is hidden.
pub const HIDDEN: u16 = 0x8000;

/// Absent row or style handle.
pub const NO_ROW: u32 = 0xFFFF_FFFF;

/// A node kind: an index into the host's kind table, one row table per kind.
/// The top bit is reserved for the hidden mark.
#[derive(Clone, Copy, Debug, PartialEq, Eq, Structural)]
pub struct NodeKind(pub u16);

impl NodeKind {
    pub const EMPTY: u16 = 0xFFFF;

    /// A layout and paint container.
    pub const VIEW: u16 = 0;

    /// A text leaf: owns a row in the host's text table.
    pub const TEXT: u16 = 1;

    /// An editable text field: paints its view row behind its text.
    pub const INPUT: u16 = 2;

    /// A node that an application painter fills: paints its view row first.
    pub const CUSTOM: u16 = 3;
}

/// Content of a text node, addressed by the header's `aux`.
#[derive(Clone, Debug)]
pub struct TextRow {
    pub text: String,
    /// Logical point size, scaled when the text is measured and painted.
    pub font_size: Scalar,
    /// 0xRRGGBBAA.
    pub color: u32,
}

/// What a text row holds.
#[verifier::ext_equal]
pub struct TextModel {
    pub text: Seq<char>,
    pub font_size: Scalar,
    pub color: u32,
}

impl View for TextRow {
    type V = TextModel;

    open spec fn view(&self) -> TextModel {
        TextModel { text: self.text@, font_size: self.font_size, color: self.color }
    }
}

/// Bits of 14, the font size of a fresh text row.
pub const DEFAULT_FONT_SIZE: u32 = 0x4160_0000;

/// Color of a fresh text row: opaque white.
pub const DEFAULT_COLOR: u32 = 0xFFFF_FFFF;

/// Paint data of a view, input or custom node.
#[derive(Clone, Copy, Debug, PartialEq, Eq, Structural)]
pub struct ViewRow {
    /// Background fill, 0xRRGGBBAA. Alpha 0 paints nothing.
    pub color: u32,
    /// Corner radius in logical points.
    pub radius: Scalar,
    /// Border width in logical points.
    pub border_w: Scalar,
    /// Border color, 0xRRGGBBAA.
    pub border_color: u32,
}

/// Interaction properties of a node.
#[derive(Clone, Copy, Debug, PartialEq, Eq, Structural)]
pub struct NodeProps {
    /// Listener bits (see `events::mask_for`).
    pub listeners: u32,
    /// Whether the node takes part in focus traversal.
    pub focusable: bool,
}

/// Per-node dirty bits.
#[derive(Clone, Copy, Debug, PartialEq, Eq, Structural)]
pub struct NodeFlags(pub u8);

impl NodeFlags {
    pub const NONE: u8 = 0;

    pub const LAYOUT: u8 = 1;

    /// Text content or metrics changed: the retained text layout is stale.
    pub const TEXT: u8 = 2;

    /// Layout and text together.
    pub const LAYOUT_TEXT: u8 = 3;

    pub open spec fn has(self, bits: u8) -> bool {
        self.0 & bits != 0
    }

    pub open spec fn with(self, other: NodeFlags) -> NodeFlags {
        NodeFlags(self.0 | other.0)
    }

    pub open spec fn without(self, other: NodeFlags) -> NodeFlags {
        NodeFlags(self.0 & !other.0)
    }

    /// True where any bit of `other` is set.
    pub fn contains(self, other: NodeFlags) -> (r: bool)
        ensures
            r == self.has(other.0),
    {
        self.0 & other.0 != 0
    }

    pub fn set(&mut self, other: NodeFlags)
        ensures
            *final(self) == old(self).with(other),
    {
        self.0 = self.0 | other.0;
    }

    pub fn clear(&mut self, other: NodeFlags)
        ensures
            *final(self) == old(self).without(other),
    {
        self.0 = self.0 & !other.0;
    }
}

/// Setting bits and clearing the same bits leaves none of them set, and
/// setting them leaves all of them set.
pub proof fn law_flags_set_clear(a: NodeFlags, b: NodeFlags)
    ensures
        !a.with(b).without(b).has(b.0),
        b.0 != 0 ==> a.with(b).has(b.0),
        forall|bit: u8| bit & b.0 == 0 ==> a.with(b).has(bit) == a.has(bit),
        forall|bit: u8| bit & b.0 == 0 ==> a.without(b).has(bit) == a.has(bit),
{
    let x = a.0;
    let y = b.0;
    assert(((x | y) & !y) & y == 0) by (bit_vector);
    assert(y != 0 ==> (x | y) & y != 0) by (bit_vector);
    assert forall|bit: u8| bit & b.0 == 0 implies a.with(b).has(bit) == a.has(bit) by {
        assert(bit & y == 0 ==> (x | y) & bit == x & bit) by (bit_vector);
    }
    assert forall|bit: u8| bit & b.0 == 0 implies a.without(b).has(bit) == a.has(bit) by {
        assert(bit & y == 0 ==> (x & !y) & bit == x & bit) by (bit_vector);
    }
}

/// Fixed-size record of every retained node: 20 bytes.
///
/// Topology lives outside the header: the host holds each node's ordered
/// children, and `parent` is the only upward edge. `generation` is bumped
/// when a slot is freed, so that a reference captured before the removal
/// cannot be taken for one to the next occupant.
#[derive(Clone, Copy, Debug, PartialEq, Eq, Structural)]
pub struct NodeHeader {
    pub parent: u32,
    /// Row in this kind's table; `NO_ROW` where the kind stores none.
    pub aux: u32,
    /// Style handle; `NO_ROW` where the node is unstyled.
    pub style: u32,
    /// Kind index with the hidden bit on top; `EMPTY_KIND` marks a free slot.
    pub kind: u16,
    pub generation: u16,
    pub flags: NodeFlags,
}

impl NodeHeader {
    pub open spec fn vacant(self) -> bool {
        self.kind == EMPTY_KIND
    }

    /// The kind index, without the hidden bit.
    pub open spec fn kind_index(self) -> int {
        self.kind as int % 0x8000
    }

    pub open spec fn is_hidden(self) -> bool {
        self.kind >= HIDDEN
    }

    /// The record of a free slot that was freed `generation` times.
    pub open spec fn vacated(generation: u16) -> NodeHeader {
        NodeHeader {
            parent: NodeId::DETACHED,
            aux: NO_ROW,
            style: NO_ROW,
            kind: EMPTY_KIND,
            generation,
            flags: NodeFlags(0),
        }
    }

    /// The record with its hidden bit set or cleared.
    pub open spec fn with_hidden(self, hidden: bool) -> NodeHeader {
        NodeHeader {
            kind: (if hidden {
                self.kind_index() + 0x8000
            } else {
                self.kind_index()
            }) as u16,
            ..self
        }
    }

    pub(crate) fn empty(generation: u16) -> (r: NodeHeader)
        ensures
            r == NodeHeader::vacated(generation),
    {
        NodeHeader {
            parent: NodeId::DETACHED,
            aux: NO_ROW,
            style: NO_ROW,
            kind: EMPTY_KIND,
            generation,
            flags: NodeFlags(0),
        }
    }

    pub fn kind(&self) -> (r: NodeKind)
        ensures
            r.0 == self.kind_index(),
    {
        let k: u16 = self.kind;
        assert(k & 0x7FFF == k % 0x8000) by (bit_vector);
        NodeKind(k & 0x7FFF)
    }

    pub fn hidden(&self) -> (r: bool)
        ensures
            r == self.is_hidden(),
    {
        let k: u16 = self.kind;
        assert((k & 0x8000 != 0) == (k >= 0x8000)) by (bit_vector);
        k & HIDDEN != 0
    }

    pub fn is_empty(&self) -> (r: bool)
        ensures
            r == self.vacant(),
    {
        self.kind == EMPTY_KIND
    }

    pub fn set_hidden(&mut self, hidden: bool)
        ensures
            *final(self) == old(self).with_hidden(hidden),
    {
        let k: u16 = self.kind;
        assert(k | 0x8000 == k % 0x8000 + 0x8000) by (bit_vector);
        assert(k & 0x7FFF == k % 0x8000) by (bit_vector);
        if hidden {
            self.kind = k | HIDDEN;
        } else {
            self.kind = k & 0x7FFF;
        }
    }
}

/// The hidden bit does not change a node's kind, and reads back as set.
pub proof fn law_hidden_keeps_kind(h: NodeHeader, hidden: bool)
    ensures
        h.with_hidden(hidden).kind_index() == h.kind_index(),
        h.with_hidden(hidden).is_hidden() == hidden,
{
}

/// What marks a record: a free slot has no parent, row or style and no flag;
/// the codes of kinds and the bits of flags.
pub proof fn law_record_words(generation: u16, h: NodeHeader)
    ensures
        ({
            let v = NodeHeader::vacated(generation);
            &&& v.vacant() && v.kind == 0xFFFF && v.generation == generation
            &&& v.parent == 0xFFFF_FFFE && v.aux == 0xFFFF_FFFF && v.style == 0xFFFF_FFFF
            &&& v.flags.0 == 0
        }),
        NodeKind::VIEW == 0 && NodeKind::TEXT == 1 && NodeKind::INPUT == 2 && NodeKind::CUSTOM
            == 3,
        NodeFlags::LAYOUT == 1 && NodeFlags::TEXT == 2 && NodeFlags::LAYOUT_TEXT == 3,
        NodeId::NIL == 0xFFFF_FFFF && NodeId::DETACHED == 0xFFFF_FFFE && ROOT == 0xFFFF_FFFF,
        h.vacant() <==> h.kind == 0xFFFF,
        h.is_hidden() <==> h.kind >= 0x8000,
        h.kind == h.kind_index() + (if h.is_hidden() {
            0x8000int
        } else {
            0
        }),
{
}

/// Hiding changes nothing but the kind word, and showing undoes it.
pub proof fn law_hiding_is_undone(h: NodeHeader, hidden: bool)
    ensures
        h.with_hidden(hidden) == (NodeHeader { kind: h.with_hidden(hidden).kind, ..h }),
        h.with_hidden(hidden).with_hidden(h.is_hidden()) == h,
        h.kind < 0x8000 ==> h.with_hidden(true).kind == h.kind + 0x8000,
{
}

} // verus!
