//! Hit testing: the deepest visible node at a point.

use crate::host::model::HostModel;
use crate::host::tree::lemma_height;
use crate::host::{Host, NodeId};
use crate::layout::{Layouts, LayoutsModel};
use crate::scalar::{Scalar, MAX_BITS, MIN_BITS};
use vstd::prelude::*;

verus! {

/// The edges of a box in absolute logical points.
#[derive(Clone, Copy, Debug, PartialEq, Eq, Structural)]
pub struct Edges {
    pub x0: Scalar,
    pub y0: Scalar,
    pub x1: Scalar,
    pub y1: Scalar,
}

/// Where a node lies, with the scroll offsets above it applied.
#[derive(Clone, Copy, Debug, PartialEq, Eq, Structural)]
pub struct Placed {
    /// Border box.
    pub border: Edges,
    /// Padding box, which a clipping node clips its descendants to.
    pub pad: Edges,
}

/// `a <= b`.
pub open spec fn at_most(a: Scalar, b: Scalar) -> bool {
    a.below(b) || a.equals(b)
}

impl Edges {
    pub open spec fn zero() -> Edges {
        Edges { x0: Scalar(0), y0: Scalar(0), x1: Scalar(0), y1: Scalar(0) }
    }

    /// The whole plane.
    pub open spec fn everywhere() -> Edges {
        Edges {
            x0: Scalar(MIN_BITS),
            y0: Scalar(MIN_BITS),
            x1: Scalar(MAX_BITS),
            y1: Scalar(MAX_BITS),
        }
    }

    /// The point lies in the box: on or right of and below its near edges,
    /// left of and above its far edges.
    pub open spec fn holds(self, x: Scalar, y: Scalar) -> bool {
        at_most(self.x0, x) && at_most(self.y0, y) && x.below(self.x1) && y.below(self.y1)
    }

    /// The point lies outside the box.
    pub open spec fn excludes(self, x: Scalar, y: Scalar) -> bool {
        x.below(self.x0) || y.below(self.y0) || at_most(self.x1, x) || at_most(self.y1, y)
    }

    /// The part of `self` inside `other`.
    pub open spec fn within(self, other: Edges) -> Edges {
        Edges {
            x0: self.x0.max_of(other.x0),
            y0: self.y0.max_of(other.y0),
            x1: self.x1.min_of(other.x1),
            y1: self.y1.min_of(other.y1),
        }
    }

    pub fn contains(&self, x: Scalar, y: Scalar) -> (r: bool)
        ensures
            r == self.holds(x, y),
    {
        self.x0.le(x) && self.y0.le(y) && x.lt(self.x1) && y.lt(self.y1)
    }

    fn misses(&self, x: Scalar, y: Scalar) -> (r: bool)
        ensures
            r == self.excludes(x, y),
    {
        x.lt(self.x0) || y.lt(self.y0) || self.x1.le(x) || self.y1.le(y)
    }

    pub fn intersect(&self, other: Edges) -> (r: Edges)
        ensures
            r == self.within(other),
    {
        Edges {
            x0: self.x0.max(other.x0),
            y0: self.y0.max(other.y0),
            x1: self.x1.min(other.x1),
            y1: self.y1.min(other.y1),
        }
    }
}

/// Where a node lies; at the origin, without extent, where the table has no
/// row for it.
pub open spec fn place_of(placed: Seq<Placed>, id: NodeId) -> Placed {
    if id.0 < placed.len() {
        placed[id.0 as int]
    } else {
        Placed { border: Edges::zero(), pad: Edges::zero() }
    }
}

pub fn placed_at(placed: &Vec<Placed>, id: NodeId) -> (r: Placed)
    ensures
        r == place_of(placed@, id),
{
    let i: usize = id.0 as usize;
    if i < placed.len() {
        placed[i]
    } else {
        let zero: Scalar = Scalar(0);
        let e: Edges = Edges { x0: zero, y0: zero, x1: zero, y1: zero };
        Placed { border: e, pad: e }
    }
}

/// What a hit test looks at.
pub struct Sight {
    pub host: HostModel,
    pub layouts: LayoutsModel,
    pub placed: Seq<Placed>,
    pub x: Scalar,
    pub y: Scalar,
}

impl Sight {
    /// The clip that a node hands down.
    pub open spec fn clip_below(self, id: NodeId, clip: Edges) -> Edges {
        if self.layouts.style_of(self.host, id).clipping() {
            clip.within(place_of(self.placed, id).pad)
        } else {
            clip
        }
    }

    /// The deepest node at the point among `id` and what is below it.
    /// Children lie above their parent, later siblings above earlier ones.
    pub open spec fn hit(self, id: NodeId, clip: Edges) -> Option<NodeId>
        decreases self.host.height(id), 1int, 0int,
            when self.host.wf()
    {
        if clip.excludes(self.x, self.y) || self.layouts.suppressed(self.host, id) {
            None
        } else {
            match self.hit_below(id, self.host.list(id).len(), self.clip_below(id, clip)) {
                Some(h) => Some(h),
                None => if place_of(self.placed, id).border.holds(self.x, self.y) {
                    Some(id)
                } else {
                    None
                },
            }
        }
    }

    /// The same among the first `k` children of `p`.
    pub open spec fn hit_below(self, p: NodeId, k: nat, clip: Edges) -> Option<NodeId>
        decreases self.host.height(p), 0int, k,
            when self.host.wf()
    {
        if k == 0 || p.0 >= self.host.nodes.len() || k > self.host.list(p).len() {
            None
        } else {
            proof {
                lemma_height(self.host, p, k - 1);
            }
            match self.hit(self.host.list(p)[k - 1], clip) {
                Some(h) => Some(h),
                None => self.hit_below(p, (k - 1) as nat, clip),
            }
        }
    }

    /// The same among the first `k` roots.
    pub open spec fn hit_root(self, k: nat) -> Option<NodeId>
        decreases k,
    {
        if k == 0 || k > self.host.roots.len() {
            None
        } else {
            match self.hit(self.host.roots[k - 1], Edges::everywhere()) {
                Some(h) => Some(h),
                None => self.hit_root((k - 1) as nat),
            }
        }
    }

    /// The deepest node at the point.
    pub open spec fn target(self) -> Option<NodeId> {
        self.hit_root(self.host.roots.len())
    }

    /// Turns down nodes that are hidden or styled away.
    pub open spec fn visible(self) -> spec_fn(NodeId) -> bool {
        |id: NodeId| !self.layouts.suppressed(self.host, id)
    }
}

pub open spec fn sight(host: Host, layouts: Layouts, placed: Seq<Placed>, x: Scalar, y: Scalar) -> Sight {
    Sight { host: host.model(), layouts: layouts.model(), placed, x, y }
}

fn hit_node(
    host: &Host,
    layouts: &Layouts,
    placed: &Vec<Placed>,
    id: NodeId,
    x: Scalar,
    y: Scalar,
    clip: Edges,
) -> (r: Option<NodeId>)
    requires
        host.model().wf(),
        layouts.wf(),
        host.model().alive(id),
    ensures
        r == sight(*host, *layouts, placed@, x, y).hit(id, clip),
    decreases host.model().height(id),
{
    let ghost s = sight(*host, *layouts, placed@, x, y);
    if clip.misses(x, y) || layouts.is_suppressed(host, id) {
        return None;
    }
    let place: Placed = placed_at(placed, id);
    let below: Edges = if layouts.style_of(host, id).clips() {
        clip.intersect(place.pad)
    } else {
        clip
    };
    let list = host.children(id);
    let mut k: usize = list.len();
    while k > 0
        invariant
            k <= list@.len(),
            list@ == host.model().list(id),
            host.model().wf(),
            layouts.wf(),
            host.model().alive(id),
            s == sight(*host, *layouts, placed@, x, y),
            !clip.excludes(x, y),
            !s.layouts.suppressed(s.host, id),
            below == s.clip_below(id, clip),
            s.hit_below(id, list@.len() as nat, below) == s.hit_below(id, k as nat, below),
        decreases k,
    {
        proof {
            lemma_height(host.model(), id, k - 1);
        }
        let child: NodeId = list[k - 1];
        let hit = hit_node(host, layouts, placed, child, x, y, below);
        if hit.is_some() {
            return hit;
        }
        k = k - 1;
    }
    if place.border.contains(x, y) {
        Some(id)
    } else {
        None
    }
}

/// The deepest node that contains a point, honoring clip chains, scroll
/// offsets, hidden nodes and nodes that are styled away.
pub fn hit_test(
    host: &Host,
    layouts: &Layouts,
    placed: &Vec<Placed>,
    x: Scalar,
    y: Scalar,
) -> (r: Option<NodeId>)
    requires
        host.model().wf(),
        layouts.wf(),
    ensures
        r == sight(*host, *layouts, placed@, x, y).target(),
{
    let ghost s = sight(*host, *layouts, placed@, x, y);
    let everywhere: Edges = Edges {
        x0: Scalar(MIN_BITS),
        y0: Scalar(MIN_BITS),
        x1: Scalar(MAX_BITS),
        y1: Scalar(MAX_BITS),
    };
    let list = host.children(NodeId(NodeId::NIL));
    let mut k: usize = list.len();
    while k > 0
        invariant
            k <= list@.len(),
            list@ == host.model().roots,
            host.model().wf(),
            layouts.wf(),
            everywhere == Edges::everywhere(),
            s == sight(*host, *layouts, placed@, x, y),
            s.target() == s.hit_root(k as nat),
        decreases k,
    {
        proof {
            assert(host.model().alive(host.model().roots[k - 1]));
        }
        let root: NodeId = list[k - 1];
        let hit = hit_node(host, layouts, placed, root, x, y, everywhere);
        if hit.is_some() {
            return hit;
        }
        k = k - 1;
    }
    None
}

// ----------------------------------------------------------------------- laws

proof fn lemma_hit_in_tree(s: Sight, id: NodeId, clip: Edges)
    requires
        s.host.wf(),
    ensures
        s.hit(id, clip) matches Some(h) ==> place_of(s.placed, h).border.holds(s.x, s.y)
            && s.host.tree(id, s.visible()).contains(h) && !s.layouts.suppressed(s.host, h),
    decreases s.host.height(id), 1int, 0int,
{
    if let Some(h) = s.hit(id, clip) {
        let keep = s.visible();
        assert(keep(id));
        let rest = s.host.trees(id, 0, keep);
        let all = s.host.tree(id, keep);
        assert(all == seq![id] + rest);
        lemma_hit_in_trees(s, id, s.host.list(id).len(), s.clip_below(id, clip));
        if s.hit_below(id, s.host.list(id).len(), s.clip_below(id, clip)) is Some {
            let i = choose|i: int| 0 <= i < rest.len() && rest[i] == h;
            assert(all[i + 1] == h);
        } else {
            assert(all[0] == id);
        }
    }
}

proof fn lemma_hit_in_trees(s: Sight, p: NodeId, k: nat, clip: Edges)
    requires
        s.host.wf(),
    ensures
        s.hit_below(p, k, clip) matches Some(h) ==> place_of(s.placed, h).border.holds(s.x, s.y)
            && s.host.trees(p, 0, s.visible()).contains(h) && !s.layouts.suppressed(s.host, h),
    decreases s.host.height(p), 0int, k,
{
    if k > 0 && p.0 < s.host.nodes.len() && k <= s.host.list(p).len() {
        lemma_height(s.host, p, k - 1);
        let c = s.host.list(p)[k - 1];
        lemma_hit_in_tree(s, c, clip);
        lemma_hit_in_trees(s, p, (k - 1) as nat, clip);
        if let Some(h) = s.hit(c, clip) {
            lemma_tree_in_trees(s.host, p, 0, (k - 1) as nat, s.visible(), h);
        }
    }
}

proof fn lemma_tree_in_trees(
    m: HostModel,
    p: NodeId,
    from: nat,
    k: nat,
    keep: spec_fn(NodeId) -> bool,
    h: NodeId,
)
    requires
        m.wf(),
        p.0 < m.nodes.len(),
        from <= k < m.list(p).len(),
        m.tree(m.list(p)[k as int], keep).contains(h),
    ensures
        m.trees(p, from, keep).contains(h),
    decreases k - from,
{
    let a = m.tree(m.list(p)[from as int], keep);
    let b = m.trees(p, from + 1, keep);
    let all = m.trees(p, from, keep);
    assert(all == a + b);
    if from == k {
        let i = choose|i: int| 0 <= i < a.len() && a[i] == h;
        assert(all[i] == h);
    } else {
        lemma_tree_in_trees(m, p, from + 1, k, keep, h);
        let i = choose|i: int| 0 <= i < b.len() && b[i] == h;
        assert(all[a.len() + i] == h);
    }
}

/// A node that takes the hit is alive.
pub proof fn lemma_target_alive(s: Sight, k: nat)
    requires
        s.host.wf(),
    ensures
        s.hit_root(k) matches Some(id) ==> s.host.alive(id) && !s.layouts.suppressed(s.host, id),
    decreases k,
{
    if k > 0 && k <= s.host.roots.len() {
        lemma_hit_in_tree(s, s.host.roots[k - 1], Edges::everywhere());
        lemma_target_alive(s, (k - 1) as nat);
    }
}

/// A hit lies under the point and is visible: neither it nor any node above
/// it is hidden or styled away.
pub proof fn law_hit_is_visible_and_under_the_point(s: Sight, id: NodeId, clip: Edges)
    requires
        s.host.wf(),
        s.hit(id, clip) is Some,
    ensures
        place_of(s.placed, s.hit(id, clip).unwrap()).border.holds(s.x, s.y),
        s.host.tree(id, s.visible()).contains(s.hit(id, clip).unwrap()),
        !s.layouts.suppressed(s.host, s.hit(id, clip).unwrap()),
{
    lemma_hit_in_tree(s, id, clip);
}

/// A clipped-away point hits nothing.
pub proof fn law_clip_hides_what_it_excludes(s: Sight, id: NodeId, clip: Edges)
    requires
        s.host.wf(),
        clip.excludes(s.x, s.y),
    ensures
        s.hit(id, clip) is None,
{
}

/// Later siblings lie on top: where the last child takes the hit, the
/// children before it do not matter.
pub proof fn law_later_sibling_wins(s: Sight, p: NodeId, k: nat, clip: Edges)
    requires
        s.host.wf(),
        s.host.in_range(p),
        0 < k <= s.host.list(p).len(),
        s.hit(s.host.list(p)[k - 1], clip) is Some,
    ensures
        s.hit_below(p, k, clip) == s.hit(s.host.list(p)[k - 1], clip),
{
}

} // verus!
