//! What a paint pass draws, in which order and under which clip.

use super::hit::{at_most, place_of, placed_at, Edges, Placed};
use crate::geom::Size;
use crate::host::model::HostModel;
use crate::host::tree::lemma_height;
use crate::host::{Host, NodeId, NodeKind, ViewRow};
use crate::layout::{Layouts, LayoutsModel};
use crate::scalar::Scalar;
use crate::scene::{bordered, Color};
use vstd::prelude::*;

verus! {

/// A clip in absolute logical points, with rounded corners where its radius
/// is positive.
#[derive(Clone, Copy, Debug, PartialEq, Eq, Structural)]
pub struct Clip {
    pub bounds: Edges,
    pub radius: Scalar,
}

impl Clip {
    /// `r` lies inside the clip.
    pub open spec fn encloses(self, r: Edges) -> bool {
        &&& at_most(self.bounds.x0, r.x0) && at_most(self.bounds.y0, r.y0)
        &&& at_most(r.x1, self.bounds.x1) && at_most(r.y1, self.bounds.y1)
    }

    /// The clip cut down to `r`, which has corner radius `radius`, with the
    /// tighter radius: a box that lies inside the clip owns the corners,
    /// else the lesser of both radii is kept.
    pub open spec fn cut(self, r: Edges, radius: Scalar) -> Clip {
        Clip {
            bounds: self.bounds.within(r),
            radius: if self.encloses(r) {
                radius
            } else {
                self.radius.min_of(radius)
            },
        }
    }

    /// Intersects the clip with a box; the tighter radius is kept.
    pub fn intersect(&self, r: Edges, radius: Scalar) -> (c: Clip)
        ensures
            c == self.cut(r, radius),
    {
        let inside: bool = self.bounds.x0.le(r.x0) && self.bounds.y0.le(r.y0) && r.x1.le(
            self.bounds.x1,
        ) && r.y1.le(self.bounds.y1);
        Clip {
            bounds: self.bounds.intersect(r),
            radius: if inside {
                radius
            } else {
                self.radius.min(radius)
            },
        }
    }
}

/// What a node paints besides its background.
#[derive(Clone, Copy, Debug, PartialEq, Eq, Structural)]
pub enum Content {
    Nothing,
    Text,
    Input,
    Custom,
}

/// One step of a paint pass.
#[derive(Clone, Copy, Debug, PartialEq, Eq)]
pub struct PaintStep {
    pub id: NodeId,
    /// Inherited clip.
    pub clip: Option<Clip>,
    /// Background and border, where they show.
    pub background: Option<ViewRow>,
    pub content: Content,
}

/// What a paint pass looks at.
pub struct Canvas {
    pub host: HostModel,
    pub layouts: LayoutsModel,
    pub placed: Seq<Placed>,
    pub viewport: Size,
}

/// True where a row shows anything.
pub open spec fn shows(row: ViewRow) -> bool {
    Color(row.color).alpha_of() != 0 || bordered(row.border_w, row.border_color)
}

impl Canvas {
    /// The border box meets the viewport.
    pub open spec fn on_screen(self, id: NodeId) -> bool {
        let b = place_of(self.placed, id).border;
        b.x1.positive() && b.y1.positive() && b.x0.below(self.viewport.width) && b.y0.below(
            self.viewport.height,
        )
    }

    pub open spec fn background(self, id: NodeId) -> Option<ViewRow> {
        match self.host.view_of(id) {
            Some(row) => if shows(row) {
                Some(row)
            } else {
                None
            },
            None => None,
        }
    }

    pub open spec fn content(self, id: NodeId) -> Content {
        let kind = self.host.header(id).kind_index();
        if kind == NodeKind::TEXT {
            Content::Text
        } else if kind == NodeKind::INPUT {
            Content::Input
        } else if kind == NodeKind::CUSTOM {
            Content::Custom
        } else {
            Content::Nothing
        }
    }

    /// The clip that a node hands down: its padding box, where its style
    /// clips, inside the clip that it inherits.
    pub open spec fn clip_below(self, id: NodeId, clip: Option<Clip>) -> Option<Clip> {
        if self.layouts.style_of(self.host, id).clipping() {
            let pad = place_of(self.placed, id).pad;
            let radius = match self.host.view_of(id) {
                Some(row) => row.radius,
                None => Scalar(0),
            };
            Some(
                match clip {
                    Some(c) => c.cut(pad, radius),
                    None => Clip { bounds: pad, radius },
                },
            )
        } else {
            clip
        }
    }

    pub open spec fn step(self, id: NodeId, clip: Option<Clip>) -> PaintStep {
        PaintStep { id, clip, background: self.background(id), content: self.content(id) }
    }

    /// The steps of `id` and what is below it, in document order. A node
    /// off the screen paints nothing itself; what is below it still may.
    pub open spec fn steps(self, id: NodeId, clip: Option<Clip>) -> Seq<PaintStep>
        decreases self.host.height(id), 1int, 0int,
            when self.host.wf()
    {
        if self.layouts.suppressed(self.host, id) {
            Seq::empty()
        } else {
            (if self.on_screen(id) {
                seq![self.step(id, clip)]
            } else {
                Seq::empty()
            }) + self.steps_below(id, 0, self.clip_below(id, clip))
        }
    }

    /// The steps of the children of `p` from the `k`-th on.
    pub open spec fn steps_below(self, p: NodeId, k: nat, clip: Option<Clip>) -> Seq<PaintStep>
        decreases self.host.height(p), 0int, self.host.list(p).len() - k,
            when self.host.wf()
    {
        if p.0 >= self.host.nodes.len() || k >= self.host.list(p).len() {
            Seq::empty()
        } else {
            proof {
                lemma_height(self.host, p, k as int);
            }
            self.steps(self.host.list(p)[k as int], clip) + self.steps_below(p, k + 1, clip)
        }
    }

    /// The steps of a list of nodes.
    pub open spec fn steps_of(self, list: Seq<NodeId>) -> Seq<PaintStep>
        decreases list.len(),
    {
        if list.len() == 0 {
            Seq::empty()
        } else {
            self.steps(list[0], None) + self.steps_of(list.drop_first())
        }
    }

    /// The steps of the whole document.
    pub open spec fn all_steps(self) -> Seq<PaintStep> {
        self.steps_of(self.host.roots)
    }

    pub open spec fn visible(self) -> spec_fn(NodeId) -> bool {
        |id: NodeId| !self.layouts.suppressed(self.host, id)
    }

    pub open spec fn shown(self) -> spec_fn(NodeId) -> bool {
        |id: NodeId| self.on_screen(id)
    }
}

pub open spec fn canvas(host: Host, layouts: Layouts, placed: Seq<Placed>, viewport: Size) -> Canvas {
    Canvas { host: host.model(), layouts: layouts.model(), placed, viewport }
}

fn paint_node(
    host: &Host,
    layouts: &Layouts,
    placed: &Vec<Placed>,
    viewport: Size,
    id: NodeId,
    clip: Option<Clip>,
    out: &mut Vec<PaintStep>,
)
    requires
        host.model().wf(),
        layouts.wf(),
        host.model().alive(id),
    ensures
        final(out)@ == old(out)@ + canvas(*host, *layouts, placed@, viewport).steps(id, clip),
    decreases host.model().height(id),
{
    let ghost c = canvas(*host, *layouts, placed@, viewport);
    let ghost start = out@;
    if layouts.is_suppressed(host, id) {
        proof {
            assert(start + c.steps(id, clip) =~= start);
        }
        return ;
    }
    let kind: u16 = match host.node(id) {
        Some(n) => n.kind().0,
        None => NodeKind::EMPTY,
    };
    let place: Placed = placed_at(placed, id);
    let row: Option<ViewRow> = match host.view(id) {
        Some(row) => Some(*row),
        None => None,
    };
    let below: Option<Clip> = if layouts.style_of(host, id).clips() {
        let radius: Scalar = match row {
            Some(r) => r.radius,
            None => Scalar(0),
        };
        Some(
            match clip {
                Some(c) => c.intersect(place.pad, radius),
                None => Clip { bounds: place.pad, radius },
            },
        )
    } else {
        clip
    };
    let b: Edges = place.border;
    if b.x1.is_positive() && b.y1.is_positive() && b.x0.lt(viewport.width) && b.y0.lt(
        viewport.height,
    ) {
        let background: Option<ViewRow> = match row {
            Some(r) => if r.color % 256 != 0 || (r.border_w.is_positive() && r.border_color % 256
                != 0) {
                Some(r)
            } else {
                None
            },
            None => None,
        };
        let content: Content = if kind == NodeKind::TEXT {
            Content::Text
        } else if kind == NodeKind::INPUT {
            Content::Input
        } else if kind == NodeKind::CUSTOM {
            Content::Custom
        } else {
            Content::Nothing
        };
        out.push(PaintStep { id, clip, background, content });
    }
    let ghost own = out@;
    let list = host.children(id);
    let mut k: usize = 0;
    proof {
        assert(own + c.steps_below(id, 0, below) =~= start + c.steps(id, clip));
    }
    while k < list.len()
        invariant
            k <= list@.len(),
            list@ == host.model().list(id),
            host.model().wf(),
            layouts.wf(),
            host.model().alive(id),
            c == canvas(*host, *layouts, placed@, viewport),
            out@ + c.steps_below(id, k as nat, below) == start + c.steps(id, clip),
        decreases list@.len() - k,
    {
        let ghost before = out@;
        proof {
            lemma_height(host.model(), id, k as int);
        }
        paint_node(host, layouts, placed, viewport, list[k], below, out);
        proof {
            assert(out@ + c.steps_below(id, (k + 1) as nat, below) =~= before + c.steps_below(
                id,
                k as nat,
                below,
            ));
        }
        k = k + 1;
    }
    proof {
        assert(out@ + c.steps_below(id, k as nat, below) =~= out@);
    }
}

/// The steps of a paint pass: one ordered stream in document order. Hidden
/// and styled-away nodes are left out with all that is below them.
pub fn paint_plan(
    host: &Host,
    layouts: &Layouts,
    placed: &Vec<Placed>,
    viewport: Size,
) -> (out: Vec<PaintStep>)
    requires
        host.model().wf(),
        layouts.wf(),
    ensures
        out@ == canvas(*host, *layouts, placed@, viewport).all_steps(),
{
    let ghost c = canvas(*host, *layouts, placed@, viewport);
    let mut out: Vec<PaintStep> = Vec::new();
    let list = host.children(NodeId(NodeId::NIL));
    let mut k: usize = 0;
    proof {
        assert(list@.skip(0) =~= list@);
        assert(out@ + c.steps_of(list@.skip(0)) =~= c.all_steps());
    }
    while k < list.len()
        invariant
            k <= list@.len(),
            list@ == host.model().roots,
            host.model().wf(),
            layouts.wf(),
            c == canvas(*host, *layouts, placed@, viewport),
            out@ + c.steps_of(list@.skip(k as int)) == c.all_steps(),
        decreases list@.len() - k,
    {
        let ghost before = out@;
        proof {
            assert(host.model().alive(host.model().roots[k as int]));
            assert(list@.skip(k as int)[0] == list@[k as int]);
            assert(list@.skip(k as int).drop_first() =~= list@.skip(k + 1));
        }
        paint_node(host, layouts, placed, viewport, list[k], None, &mut out);
        proof {
            assert(out@ + c.steps_of(list@.skip(k + 1)) =~= before + c.steps_of(
                list@.skip(k as int),
            ));
        }
        k = k + 1;
    }
    proof {
        assert(list@.skip(k as int) =~= Seq::empty());
        assert(out@ + c.steps_of(list@.skip(k as int)) =~= out@);
    }
    out
}

// ----------------------------------------------------------------------- laws

/// The nodes of a list of steps.
pub open spec fn painted_ids(steps: Seq<PaintStep>) -> Seq<NodeId> {
    Seq::new(steps.len(), |i: int| steps[i].id)
}

proof fn lemma_ids_join(a: Seq<PaintStep>, b: Seq<PaintStep>)
    ensures
        painted_ids(a + b) == painted_ids(a) + painted_ids(b),
{
    assert(painted_ids(a + b) =~= painted_ids(a) + painted_ids(b));
}

proof fn lemma_tree_order(c: Canvas, id: NodeId, clip: Option<Clip>)
    requires
        c.host.wf(),
    ensures
        painted_ids(c.steps(id, clip)) == c.host.tree(id, c.visible()).filter(c.shown()),
    decreases c.host.height(id), 1int, 0int,
{
    let keep = c.visible();
    let on = c.shown();
    if keep(id) {
        let below = c.clip_below(id, clip);
        lemma_trees_order(c, id, 0, below);
        let own: Seq<PaintStep> = if c.on_screen(id) {
            seq![c.step(id, clip)]
        } else {
            Seq::empty()
        };
        lemma_ids_join(own, c.steps_below(id, 0, below));
        Seq::filter_distributes_over_add(seq![id], c.host.trees(id, 0, keep), on);
        assert(painted_ids(own) =~= seq![id].filter(on)) by {
            reveal(Seq::filter);
            assert(seq![id].drop_last() =~= Seq::<NodeId>::empty());
            assert(seq![id].last() == id);
            assert(Seq::<NodeId>::empty().filter(on) =~= Seq::<NodeId>::empty());
        }
        assert(c.host.tree(id, keep) == seq![id] + c.host.trees(id, 0, keep));
    } else {
        reveal(Seq::filter);
        assert(c.host.tree(id, keep) =~= Seq::<NodeId>::empty());
        assert(painted_ids(c.steps(id, clip)) =~= Seq::<NodeId>::empty());
    }
}

proof fn lemma_trees_order(c: Canvas, p: NodeId, k: nat, clip: Option<Clip>)
    requires
        c.host.wf(),
    ensures
        painted_ids(c.steps_below(p, k, clip)) == c.host.trees(p, k, c.visible()).filter(c.shown()),
    decreases c.host.height(p), 0int, c.host.list(p).len() - k,
{
    let keep = c.visible();
    let on = c.shown();
    if p.0 < c.host.nodes.len() && k < c.host.list(p).len() {
        lemma_height(c.host, p, k as int);
        let child = c.host.list(p)[k as int];
        lemma_tree_order(c, child, clip);
        lemma_trees_order(c, p, k + 1, clip);
        lemma_ids_join(c.steps(child, clip), c.steps_below(p, k + 1, clip));
        Seq::filter_distributes_over_add(
            c.host.tree(child, keep),
            c.host.trees(p, k + 1, keep),
            on,
        );
        assert(c.host.trees(p, k, keep) == c.host.tree(child, keep) + c.host.trees(
            p,
            k + 1,
            keep,
        ));
    } else {
        reveal(Seq::filter);
        assert(c.host.trees(p, k, keep) =~= Seq::<NodeId>::empty());
        assert(painted_ids(c.steps_below(p, k, clip)) =~= Seq::<NodeId>::empty());
    }
}

/// Paint order is document order: the steps of a pass are those nodes of the
/// visible document that meet the viewport, in the order of the document.
pub proof fn law_paint_order_is_document_order(c: Canvas, list: Seq<NodeId>)
    requires
        c.host.wf(),
    ensures
        painted_ids(c.steps_of(list)) == c.host.forest(list, c.visible()).filter(c.shown()),
    decreases list.len(),
{
    let keep = c.visible();
    let on = c.shown();
    if list.len() > 0 {
        lemma_tree_order(c, list[0], None);
        law_paint_order_is_document_order(c, list.drop_first());
        lemma_ids_join(c.steps(list[0], None), c.steps_of(list.drop_first()));
        Seq::filter_distributes_over_add(
            c.host.tree(list[0], keep),
            c.host.forest(list.drop_first(), keep),
            on,
        );
    } else {
        reveal(Seq::filter);
        assert(painted_ids(c.steps_of(list)) =~= Seq::<NodeId>::empty());
        assert(c.host.forest(list, keep) =~= Seq::<NodeId>::empty());
    }
}

/// A clip only shrinks on its way down.
pub proof fn law_clips_nest(c: Clip, r: Edges, radius: Scalar)
    requires
        !c.bounds.x0.nan() && !c.bounds.y0.nan() && !c.bounds.x1.nan() && !c.bounds.y1.nan(),
    ensures
        at_most(c.bounds.x0, c.cut(r, radius).bounds.x0),
        at_most(c.bounds.y0, c.cut(r, radius).bounds.y0),
        at_most(c.cut(r, radius).bounds.x1, c.bounds.x1),
        at_most(c.cut(r, radius).bounds.y1, c.bounds.y1),
{
}

/// A box that does not lie inside the clip never rounds its corners more than
/// the clip does, nor more than its own.
pub proof fn law_tighter_radius_is_kept(c: Clip, r: Edges, radius: Scalar)
    requires
        !c.encloses(r),
        !c.radius.nan(),
        !radius.nan(),
    ensures
        !c.radius.below(c.cut(r, radius).radius),
        !radius.below(c.cut(r, radius).radius),
        c.cut(r, radius).radius == c.radius || c.cut(r, radius).radius == radius,
{
}

} // verus!
