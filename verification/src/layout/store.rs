//! The layout store.

use crate::geom::{Point, Rect, Size};
use crate::host::model::HostModel;
use crate::host::{Host, NodeId, StyleId, NO_ROW};
use crate::scalar::Scalar;
use crate::style::{Display, Style};
use vstd::prelude::*;

verus! {

/// A solver cache.
#[verifier::external_type_specification]
#[verifier::external_body]
pub struct ExCache(taffy::Cache);

/// The entries of a solver cache that hold a result, by number.
pub uninterp spec fn cache_entries(cache: taffy::Cache) -> Set<int>;

/// An empty solver cache, from `taffy::Cache::new`. Claimed of it: none of
/// its entries holds a result.
#[verifier::external_body]
fn empty_cache() -> (r: taffy::Cache)
    ensures
        cache_entries(r) == Set::<int>::empty(),
{
    taffy::Cache::new()
}

/// Computed boxes of a node, in logical units.
#[derive(Clone, Copy, Debug, PartialEq, Eq, Structural)]
pub struct LayoutData {
    /// Border box, relative to the parent's border box.
    pub rect: Rect,
    /// Content-box origin relative to the border box.
    pub content: Point,
    /// Total border and padding insets: the content box measures the border
    /// box less these.
    pub insets: Size,
    /// Padding box relative to the border-box origin: what a clipping node
    /// clips its descendants to.
    pub clip_box: Rect,
    /// Greatest scroll offsets. Zero when the content fits.
    pub scroll_extent: Point,
}

impl LayoutData {
    pub open spec fn zero() -> LayoutData {
        LayoutData {
            rect: Rect::zero(),
            content: Point::zero(),
            insets: Size { width: Scalar(0), height: Scalar(0) },
            clip_box: Rect::zero(),
            scroll_extent: Point::zero(),
        }
    }

    /// The data with sizes and extents that would be negative, or are no
    /// number, at zero.
    pub open spec fn floored(self) -> LayoutData {
        let zero = Scalar(0);
        LayoutData {
            clip_box: Rect {
                origin: self.clip_box.origin,
                size: Size {
                    width: self.clip_box.size.width.max_of(zero),
                    height: self.clip_box.size.height.max_of(zero),
                },
            },
            scroll_extent: Point {
                x: self.scroll_extent.x.max_of(zero),
                y: self.scroll_extent.y.max_of(zero),
            },
            ..self
        }
    }

    /// True of extents that an offset can be clamped to.
    pub open spec fn scrollable(self) -> bool {
        !self.scroll_extent.x.below(Scalar(0)) && !self.scroll_extent.x.nan()
            && !self.scroll_extent.y.below(Scalar(0)) && !self.scroll_extent.y.nan()
    }

    fn blank() -> (r: LayoutData)
        ensures
            r == LayoutData::zero(),
    {
        let zero: Scalar = Scalar(0);
        LayoutData {
            rect: Rect::new(zero, zero, zero, zero),
            content: Point::new(zero, zero),
            insets: Size::new(zero, zero),
            clip_box: Rect::new(zero, zero, zero, zero),
            scroll_extent: Point::new(zero, zero),
        }
    }
}

/// Per-node layout state plus the style table. The handle of a style is the
/// id that the wire gives it.
pub struct Layouts {
    styles: Vec<Option<Style>>,
    default: Style,
    cache: Vec<taffy::Cache>,
    rects: Vec<LayoutData>,
    /// Lookups that a solver cache answered, and those that it did not.
    pub cache_hits: u64,
    pub cache_misses: u64,
}

/// What the layout state holds.
#[verifier::ext_equal]
pub struct LayoutsModel {
    pub styles: Seq<Option<Style>>,
    /// Per node, the entries of its solver cache that hold a result.
    pub caches: Seq<Set<int>>,
    pub rects: Seq<LayoutData>,
    pub hits: u64,
    pub misses: u64,
}

impl LayoutsModel {
    pub open spec fn empty() -> LayoutsModel {
        LayoutsModel {
            styles: Seq::empty(),
            caches: Seq::empty(),
            rects: Seq::empty(),
            hits: 0,
            misses: 0,
        }
    }

    pub open spec fn wf(self) -> bool {
        forall|i: int| 0 <= i < self.rects.len() ==> (#[trigger] self.rects[i]).scrollable()
    }

    /// The style behind a handle; an undefined one reads as the initial
    /// style.
    pub open spec fn style(self, id: StyleId) -> Style {
        if id.0 < self.styles.len() {
            match self.styles[id.0 as int] {
                Some(s) => s,
                None => Style::initial(),
            }
        } else {
            Style::initial()
        }
    }

    pub open spec fn defined(self, wire_id: u32) -> bool {
        wire_id < self.styles.len() && self.styles[wire_id as int] is Some
    }

    pub open spec fn data(self, id: NodeId) -> LayoutData {
        if id.0 < self.rects.len() {
            self.rects[id.0 as int]
        } else {
            LayoutData::zero()
        }
    }

    /// The state with style `wire_id` defined.
    pub open spec fn with_style(self, wire_id: u32, style: Style) -> LayoutsModel {
        LayoutsModel { styles: padded(self.styles, wire_id as int, None).update(
            wire_id as int,
            Some(style),
        ), ..self }
    }

    /// The state with the boxes of a node stored.
    pub open spec fn with_boxes(self, id: NodeId, data: LayoutData) -> LayoutsModel {
        LayoutsModel {
            rects: padded(self.rects, id.0 as int, LayoutData::zero()).update(
                id.0 as int,
                data.floored(),
            ),
            ..self
        }
    }

    /// The state with one more lookup counted.
    pub open spec fn looked_up(self, hit: bool) -> LayoutsModel {
        if hit {
            LayoutsModel { hits: (self.hits + 1) as u64, ..self }
        } else {
            LayoutsModel { misses: (self.misses + 1) as u64, ..self }
        }
    }

    /// The state with every solver cache emptied, and one for each slot.
    pub open spec fn forgotten(self, slots: nat) -> LayoutsModel {
        LayoutsModel {
            caches: Seq::new(
                if self.caches.len() < slots {
                    slots
                } else {
                    self.caches.len()
                },
                |i: int| Set::<int>::empty(),
            ),
            ..self
        }
    }

    /// The style of a node; that of an unstyled one where it is not live.
    pub open spec fn style_of(self, m: HostModel, id: NodeId) -> Style {
        self.style(
            StyleId(
                if m.alive(id) {
                    m.header(id).style
                } else {
                    NO_ROW
                },
            ),
        )
    }

    /// The node and what is below it take no part in layout, paint or hits.
    pub open spec fn suppressed(self, m: HostModel, id: NodeId) -> bool {
        !m.alive(id) || m.header(id).is_hidden() || self.style_of(m, id).display == Display::Gone
    }
}

/// `s` with `blank` appended until index `i` exists.
pub open spec fn padded<T>(s: Seq<T>, i: int, blank: T) -> Seq<T> {
    if i < s.len() {
        s
    } else {
        s + Seq::new((i + 1 - s.len()) as nat, |k: int| blank)
    }
}

impl Layouts {
    pub closed spec fn model(&self) -> LayoutsModel {
        LayoutsModel {
            styles: self.styles@,
            caches: Seq::new(self.cache@.len(), |i: int| cache_entries(self.cache@[i])),
            rects: self.rects@,
            hits: self.cache_hits,
            misses: self.cache_misses,
        }
    }

    /// The style that undefined handles read as is the initial one, and
    /// every extent can be clamped to.
    pub closed spec fn wf(&self) -> bool {
        self.default == Style::initial() && self.model().wf()
    }

    /// The extents of a sound store can be clamped to.
    pub proof fn lemma_wf(&self)
        requires
            self.wf(),
        ensures
            self.model().wf(),
    {
    }

    pub fn new() -> (r: Layouts)
        ensures
            r.wf(),
            r.model() == LayoutsModel::empty(),
    {
        let r = Layouts {
            styles: Vec::new(),
            default: Style::default(),
            cache: Vec::new(),
            rects: Vec::new(),
            cache_hits: 0,
            cache_misses: 0,
        };
        proof {
            assert(r.model() =~= LayoutsModel::empty());
        }
        r
    }

    /// Border box of a node relative to its parent's; zero where the node
    /// was never laid out.
    pub fn rect(&self, id: NodeId) -> (r: Rect)
        ensures
            r == self.model().data(id).rect,
    {
        self.data(id).rect
    }

    /// Computed boxes of a node; zero where it was never laid out.
    pub fn data(&self, id: NodeId) -> (r: LayoutData)
        ensures
            r == self.model().data(id),
            self.wf() ==> r.scrollable(),
    {
        let i: usize = id.0 as usize;
        if i < self.rects.len() {
            self.rects[i]
        } else {
            LayoutData::blank()
        }
    }

    /// Stores the computed boxes of a node; sizes and extents below zero are
    /// stored as zero.
    pub fn set_final(&mut self, id: NodeId, data: LayoutData)
        requires
            old(self).wf(),
            id.0 < u32::MAX,
        ensures
            final(self).wf(),
            final(self).model() == old(self).model().with_boxes(id, data),
    {
        let ghost start = self.rects@;
        let ghost before = self.model();
        let i: usize = id.0 as usize;
        while self.rects.len() <= i
            invariant
                i == id.0,
                id.0 < u32::MAX,
                start.len() <= self.rects@.len(),
                self.rects@.len() <= i + 1 || self.rects@.len() == start.len(),
                self.rects@ == start + Seq::new(
                    (self.rects@.len() - start.len()) as nat,
                    |k: int| LayoutData::zero(),
                ),
                self.styles == old(self).styles,
                self.default == old(self).default,
                self.cache == old(self).cache,
                self.cache_hits == old(self).cache_hits,
                self.cache_misses == old(self).cache_misses,
            decreases i + 1 - self.rects@.len(),
        {
            let ghost n = (self.rects@.len() - start.len()) as nat;
            self.rects.push(LayoutData::blank());
            proof {
                assert(self.rects@ =~= start + Seq::new(
                    (n + 1) as nat,
                    |k: int| LayoutData::zero(),
                ));
            }
        }
        proof {
            if start.len() > i {
                assert(self.rects@ =~= start);
            }
            assert(self.rects@ =~= padded(start, i as int, LayoutData::zero()));
        }
        let zero: Scalar = Scalar(0);
        self.rects.set(
            i,
            LayoutData {
                clip_box: Rect {
                    origin: data.clip_box.origin,
                    size: Size {
                        width: data.clip_box.size.width.max(zero),
                        height: data.clip_box.size.height.max(zero),
                    },
                },
                scroll_extent: Point {
                    x: data.scroll_extent.x.max(zero),
                    y: data.scroll_extent.y.max(zero),
                },
                ..data
            },
        );
        proof {
            let m = self.model();
            assert(m.caches =~= before.caches);
            assert forall|k: int| 0 <= k < m.rects.len() implies (
            #[trigger] m.rects[k]).scrollable() by {
                if k != i && k < start.len() {
                    assert(m.rects[k] == before.rects[k]);
                }
            }
        }
    }

    /// The style behind a handle; undefined handles read as the initial
    /// style.
    pub fn style(&self, id: StyleId) -> (r: &Style)
        requires
            self.wf(),
        ensures
            *r == self.model().style(id),
    {
        let i: usize = id.0 as usize;
        if i < self.styles.len() {
            match &self.styles[i] {
                Some(s) => s,
                None => &self.default,
            }
        } else {
            &self.default
        }
    }

    /// The style of a node.
    pub fn style_of(&self, host: &Host, id: NodeId) -> (r: &Style)
        requires
            self.wf(),
        ensures
            *r == self.model().style_of(host.model(), id),
    {
        match host.node(id) {
            Some(n) => self.style(StyleId(n.style)),
            None => self.style(StyleId(NO_ROW)),
        }
    }

    /// True of a node that takes no part in layout, paint or hits, with all
    /// that is below it.
    pub fn is_suppressed(&self, host: &Host, id: NodeId) -> (r: bool)
        requires
            self.wf(),
        ensures
            r == self.model().suppressed(host.model(), id),
    {
        let hidden: bool = match host.node(id) {
            Some(n) => n.hidden(),
            None => true,
        };
        hidden || self.style_of(host, id).display == Display::Gone
    }

    /// Defines or redefines a style.
    pub fn define_style(&mut self, wire_id: u32, style: Style)
        requires
            old(self).wf(),
            wire_id < u32::MAX,
        ensures
            final(self).wf(),
            final(self).model() == old(self).model().with_style(wire_id, style),
    {
        let ghost start = self.styles@;
        let ghost before = self.model();
        let i: usize = wire_id as usize;
        while self.styles.len() <= i
            invariant
                i == wire_id,
                wire_id < u32::MAX,
                start.len() <= self.styles@.len(),
                self.styles@.len() <= i + 1 || self.styles@.len() == start.len(),
                self.styles@ == start + Seq::new(
                    (self.styles@.len() - start.len()) as nat,
                    |k: int| None::<Style>,
                ),
                self.rects == old(self).rects,
                self.default == old(self).default,
                self.cache == old(self).cache,
                self.cache_hits == old(self).cache_hits,
                self.cache_misses == old(self).cache_misses,
            decreases i + 1 - self.styles@.len(),
        {
            let ghost n = (self.styles@.len() - start.len()) as nat;
            self.styles.push(None);
            proof {
                assert(self.styles@ =~= start + Seq::new((n + 1) as nat, |k: int| None::<Style>));
            }
        }
        proof {
            if start.len() > i {
                assert(self.styles@ =~= start);
            }
            assert(self.styles@ =~= padded(start, i as int, None::<Style>));
        }
        self.styles.set(i, Some(style));
        proof {
            assert(self.model().caches =~= before.caches);
            assert(self.model().rects == before.rects);
            assert(self.model().wf()) by {
                assert(before.wf());
            }
        }
    }

    pub fn wire_style_defined(&self, wire_id: u32) -> (r: bool)
        ensures
            r == self.model().defined(wire_id),
    {
        let i: usize = wire_id as usize;
        i < self.styles.len() && self.styles[i].is_some()
    }

    /// Empties every solver cache: a redefined style cannot be traced to the
    /// nodes that wear it.
    pub fn clear_all_caches(&mut self, slots: usize)
        requires
            old(self).wf(),
        ensures
            final(self).wf(),
            final(self).model() == old(self).model().forgotten(slots as nat),
    {
        let ghost before = self.model();
        let n: usize = if self.cache.len() < slots {
            slots
        } else {
            self.cache.len()
        };
        let mut fresh: Vec<taffy::Cache> = Vec::new();
        let mut i: usize = 0;
        while i < n
            invariant
                i <= n,
                fresh@.len() == i,
                forall|k: int|
                    0 <= k < i ==> cache_entries(#[trigger] fresh@[k]) == Set::<int>::empty(),
            decreases n - i,
        {
            fresh.push(empty_cache());
            i = i + 1;
        }
        self.cache = fresh;
        proof {
            assert(self.model().caches =~= before.forgotten(slots as nat).caches);
        }
    }

    /// Makes sure that node `i` has a solver cache.
    fn grow_caches(&mut self, i: usize)
        requires
            old(self).wf(),
            i < u32::MAX,
        ensures
            final(self).wf(),
            final(self).model() == (LayoutsModel {
                caches: padded(old(self).model().caches, i as int, Set::<int>::empty()),
                ..old(self).model()
            }),
            i < final(self).cache@.len(),
            final(self).cache@.len() == final(self).model().caches.len(),
    {
        let ghost start = self.model();
        let ghost len = self.cache@.len();
        while self.cache.len() <= i
            invariant
                i < u32::MAX,
                len == start.caches.len(),
                len <= self.cache@.len(),
                self.cache@.len() <= i + 1 || self.cache@.len() == len,
                self.model().caches == start.caches + Seq::new(
                    (self.cache@.len() - len) as nat,
                    |k: int| Set::<int>::empty(),
                ),
                self.styles == old(self).styles,
                self.default == old(self).default,
                self.rects == old(self).rects,
                self.cache_hits == old(self).cache_hits,
                self.cache_misses == old(self).cache_misses,
            decreases i + 1 - self.cache@.len(),
        {
            let ghost n = (self.cache@.len() - len) as nat;
            let ghost prev = self.model().caches;
            self.cache.push(empty_cache());
            proof {
                assert(self.model().caches =~= prev.push(Set::<int>::empty()));
                assert(self.model().caches =~= start.caches + Seq::new(
                    (n + 1) as nat,
                    |k: int| Set::<int>::empty(),
                ));
            }
        }
        proof {
            assert(self.model().caches =~= padded(start.caches, i as int, Set::<int>::empty()));
        }
    }

    /// Counts a lookup in a solver cache.
    pub fn count_lookup(&mut self, hit: bool)
        requires
            old(self).wf(),
            hit ==> old(self).model().hits < u64::MAX,
            !hit ==> old(self).model().misses < u64::MAX,
        ensures
            final(self).wf(),
            final(self).model() == old(self).model().looked_up(hit),
    {
        let ghost before = self.model();
        if hit {
            self.cache_hits = self.cache_hits + 1;
        } else {
            self.cache_misses = self.cache_misses + 1;
        }
        proof {
            assert(self.model().caches =~= before.caches);
            assert(self.model().rects == before.rects);
        }
    }

    /// The solver cache of a node.
    pub fn cache_row(&mut self, id: NodeId) -> (r: &mut taffy::Cache)
        requires
            old(self).wf(),
            id.0 < u32::MAX,
        ensures
            cache_entries(*r) == padded(
                old(self).model().caches,
                id.0 as int,
                Set::<int>::empty(),
            )[id.0 as int],
            final(self).model() == (LayoutsModel {
                caches: padded(old(self).model().caches, id.0 as int, Set::<int>::empty()).update(
                    id.0 as int,
                    cache_entries(*final(r)),
                ),
                ..old(self).model()
            }),
            final(self).wf(),
    {
        let i: usize = id.0 as usize;
        self.grow_caches(i);
        proof {
            assert forall|c: taffy::Cache|
                #![auto]
                Seq::new(
                    self.cache@.len(),
                    |k: int| cache_entries(self.cache@.update(i as int, c)[k]),
                ) =~= self.model().caches.update(i as int, cache_entries(c)) by {}
        }
        &mut self.cache[i]
    }

    /// Empties the solver cache of node `i`.
    pub fn cache_clear(&mut self, id: NodeId)
        requires
            old(self).wf(),
            id.0 < u32::MAX,
        ensures
            final(self).wf(),
            final(self).model() == (LayoutsModel {
                caches: padded(old(self).model().caches, id.0 as int, Set::<int>::empty()).update(
                    id.0 as int,
                    Set::<int>::empty(),
                ),
                ..old(self).model()
            }),
    {
        let i: usize = id.0 as usize;
        self.grow_caches(i);
        let ghost grown = self.model();
        let fresh = empty_cache();
        self.cache.set(i, fresh);
        proof {
            assert(self.model().caches =~= grown.caches.update(i as int, Set::<int>::empty()));
        }
    }
}

impl Default for Layouts {
    fn default() -> (r: Layouts)
        ensures
            r.wf(),
            r.model() == LayoutsModel::empty(),
    {
        Layouts::new()
    }
}

/// Boxes that are stored read back, with sizes and extents below zero, or no
/// number, as zero; every other node keeps its own, and a node that never got
/// any reads as zero.
pub proof fn law_boxes_read_back(m: LayoutsModel, id: NodeId, data: LayoutData, other: NodeId)
    requires
        other != id,
    ensures
        ({
            let n = m.with_boxes(id, data);
            let d = n.data(id);
            let e = data.scroll_extent;
            let c = data.clip_box;
            &&& d.rect == data.rect && d.content == data.content && d.insets == data.insets
            &&& d.clip_box.origin == c.origin
            &&& d.clip_box.size.width == (if Scalar(0).below(c.size.width) {
                c.size.width
            } else {
                d.clip_box.size.width
            })
            &&& d.clip_box.size.height == (if Scalar(0).below(c.size.height) {
                c.size.height
            } else {
                d.clip_box.size.height
            })
            &&& !Scalar(0).below(c.size.width) ==> d.clip_box.size.width.equals(Scalar(0))
            &&& !Scalar(0).below(c.size.height) ==> d.clip_box.size.height.equals(Scalar(0))
            &&& Scalar(0).below(e.x) ==> d.scroll_extent.x == e.x
            &&& !Scalar(0).below(e.x) ==> d.scroll_extent.x.equals(Scalar(0))
            &&& Scalar(0).below(e.y) ==> d.scroll_extent.y == e.y
            &&& !Scalar(0).below(e.y) ==> d.scroll_extent.y.equals(Scalar(0))
            &&& n.data(other) == m.data(other)
            &&& n == (LayoutsModel { rects: n.rects, ..m })
            &&& n.rects.len() == (if id.0 < m.rects.len() {
                m.rects.len() as int
            } else {
                id.0 + 1
            })
        }),
        LayoutsModel::empty().data(id) == LayoutData::zero(),
        LayoutData::zero().rect == Rect::zero() && LayoutData::zero().clip_box == Rect::zero(),
        LayoutData::zero().content == Point::zero() && LayoutData::zero().scroll_extent
            == Point::zero(),
        LayoutData::zero().insets.width == Scalar(0) && LayoutData::zero().insets.height == Scalar(
            0,
        ),
{
}

/// A defined style is worn by every node with its handle; other handles read
/// as before, and an undefined one as the initial style.
pub proof fn law_styles_read_back(
    m: LayoutsModel,
    h: HostModel,
    id: NodeId,
    wire_id: u32,
    style: Style,
    other: u32,
)
    requires
        other != wire_id,
    ensures
        ({
            let n = m.with_style(wire_id, style);
            &&& n.defined(wire_id) && n.style(StyleId(wire_id)) == style
            &&& n.defined(other) == m.defined(other)
            &&& n.style(StyleId(other)) == m.style(StyleId(other))
            &&& n == (LayoutsModel { styles: n.styles, ..m })
            &&& h.alive(id) && h.header(id).style == wire_id ==> n.style_of(h, id) == style
            &&& h.alive(id) && h.header(id).style == other ==> n.style_of(h, id) == m.style_of(
                h,
                id,
            )
        }),
        !m.defined(other) ==> m.style(StyleId(other)) == Style::initial(),
        !h.alive(id) ==> m.style_of(h, id) == m.style(StyleId(0xFFFF_FFFF)),
        !LayoutsModel::empty().defined(other),
{
}

/// A node is out of layout, paint and hits where it is not there, is hidden,
/// or wears a style whose display is gone; and nowhere else.
pub proof fn law_who_takes_part(m: LayoutsModel, h: HostModel, id: NodeId)
    ensures
        !h.alive(id) ==> m.suppressed(h, id),
        h.alive(id) && h.header(id).kind >= 0x8000 ==> m.suppressed(h, id),
        h.alive(id) && m.style(StyleId(h.header(id).style)).display == Display::Gone
            ==> m.suppressed(h, id),
        h.alive(id) && h.header(id).kind < 0x8000 && m.style(
            StyleId(h.header(id).style),
        ).display == Display::Flex ==> !m.suppressed(h, id),
{
}

/// Forgetting empties every cache, leaves none out, drops none and keeps the
/// styles and boxes.
pub proof fn law_forgetting_empties_caches(m: LayoutsModel, slots: nat, i: int)
    ensures
        ({
            let n = m.forgotten(slots);
            &&& n.caches.len() >= slots && n.caches.len() >= m.caches.len()
            &&& n.caches.len() == slots || n.caches.len() == m.caches.len()
            &&& 0 <= i < n.caches.len() ==> n.caches[i].is_empty()
            &&& n == (LayoutsModel { caches: n.caches, ..m })
        }),
{
}

/// Lookups are counted by how they came out: a hit adds one hit, a miss one
/// miss, and nothing else changes.
pub proof fn law_lookups_are_counted(m: LayoutsModel)
    ensures
        m.hits < u64::MAX ==> m.looked_up(true).hits == m.hits + 1,
        m.misses < u64::MAX ==> m.looked_up(false).misses == m.misses + 1,
        m.looked_up(true) == (LayoutsModel { hits: m.looked_up(true).hits, ..m }),
        m.looked_up(false) == (LayoutsModel { misses: m.looked_up(false).misses, ..m }),
{
}

} // verus!
