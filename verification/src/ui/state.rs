//! The interaction core.

mod a11y;
mod commit;
mod dispatch;

pub use a11y::{
    bring_into, moves_into, requested, scrolling_on, shift_of, step_of, A11yOutcome, A11yRequest, Shift,
    PAGE_STEP,
};
pub use commit::{committed, law_commits_aim_at_live_nodes, law_recycled_slot_starts_clean};
pub use dispatch::{law_events_aim_at_live_nodes, pack};

use super::hit::{hit_test, Placed};
use super::model::{
    addressed, first_scrolling, focus_ring, is_input, listeners, listens, point_of, takes_focus,
    Job, JobModel, UiModel,
};
use crate::custom::CustomData;
use crate::events::out::event_models;
use crate::events::{mask, mask_for, out_kind};
use crate::events::UiEvent;
use crate::geom::Point;
use crate::host::proofs::lemma_marked_wf;
use crate::host::{Host, NodeFlags, NodeId, NodeKind};
use crate::input::Inputs;
use crate::layout::Layouts;
use crate::scalar::Scalar;
use crate::style::{Overflow, Style};
use std::collections::HashMap;
use vstd::prelude::*;

verus! {

broadcast use vstd::std_specs::hash::group_hash_axioms;

/// The retained state that commits and events work on.
pub struct Ui {
    pub host: Host,
    pub layouts: Layouts,
    /// Editing state of input nodes.
    pub inputs: Inputs,
    /// Scroll offsets (logical points) of scrollable nodes.
    scroll: HashMap<u32, Point>,
    /// Payloads of custom nodes.
    custom: HashMap<u32, CustomData>,
    /// Accessibility names.
    labels: HashMap<u32, String>,
    /// Focused node (for key events and input editing).
    focus: Option<NodeId>,
    /// Node under the pointer: drives enter and leave.
    hover: Option<NodeId>,
    /// Node that grabbed the pointer on the last press.
    pressed: Option<NodeId>,
    /// Input of the last primary press, for double clicks.
    last_click: Option<NodeId>,
    /// Events for listeners since the last `take_events`.
    pending_events: Vec<UiEvent>,
    /// Work on editors since the last `take_jobs`.
    jobs: Vec<Job>,
    /// Set when anything that assistive technology can observe changed.
    a11y_stale: bool,
    /// Display scale factor (physical to logical).
    pub scale: Scalar,
    /// Background clear color, 0xRRGGBBAA.
    pub clear: u32,
    /// Last applied transaction, for acknowledgements.
    pub seq: u64,
}

/// What a list of jobs says.
pub open spec fn job_models(jobs: Seq<Job>) -> Seq<JobModel> {
    Seq::new(jobs.len(), |i: int| jobs[i]@)
}

impl Ui {
    pub closed spec fn model(&self) -> UiModel {
        UiModel {
            host: self.host.model(),
            layouts: self.layouts.model(),
            inputs: self.inputs.model(),
            scroll: self.scroll@,
            custom: self.custom@.map_values(|c: CustomData| c@),
            labels: self.labels@.map_values(|s: String| s@),
            focus: self.focus,
            hover: self.hover,
            pressed: self.pressed,
            last_click: self.last_click,
            events: event_models(self.pending_events@),
            jobs: job_models(self.jobs@),
            a11y_stale: self.a11y_stale,
            scale: self.scale,
            clear: self.clear,
            seq: self.seq,
        }
    }

    /// Each part keeps its own invariant.
    pub closed spec fn sound(&self) -> bool {
        self.layouts.wf() && self.model().sound()
    }

    /// Each part keeps its own invariant, and no dead node has the focus,
    /// the pointer or the capture.
    pub open spec fn wf(&self) -> bool {
        self.sound() && self.model().aimed()
    }

    pub fn new(scale: Scalar) -> (r: Ui)
        ensures
            r.wf(),
            r.model() == UiModel::fresh(scale),
    {
        let r = Ui {
            host: Host::new(),
            layouts: Layouts::new(),
            inputs: Inputs::new(),
            scroll: HashMap::new(),
            custom: HashMap::new(),
            labels: HashMap::new(),
            focus: None,
            hover: None,
            pressed: None,
            last_click: None,
            pending_events: Vec::new(),
            jobs: Vec::new(),
            a11y_stale: true,
            scale,
            clear: 0x1415_18FF,
            seq: 0,
        };
        proof {
            assert(r.model() =~= UiModel::fresh(scale));
        }
        r
    }

    // ------------------------------------------------------------- small steps

    fn push_event(&mut self, e: UiEvent)
        requires
            old(self).sound(),
        ensures
            final(self).sound(),
            final(self).model() == old(self).model().with_event(e@),
    {
        let ghost start = self.model();
        self.pending_events.push(e);
        proof {
            assert(event_models(self.pending_events@) =~= start.events.push(e@));
            assert(self.model() =~= start.with_event(e@));
        }
    }

    fn push_job(&mut self, job: Job)
        requires
            old(self).sound(),
        ensures
            final(self).sound(),
            final(self).model() == old(self).model().with_job(job@),
    {
        let ghost start = self.model();
        self.jobs.push(job);
        proof {
            assert(job_models(self.jobs@) =~= start.jobs.push(job@));
            assert(self.model() =~= start.with_job(job@));
        }
    }

    fn repaint(&mut self)
        requires
            old(self).sound(),
        ensures
            final(self).sound(),
            final(self).model() == old(self).model().repainting(),
    {
        let ghost start = self.model();
        self.host.force_paint();
        proof {
            assert(self.model() =~= start.repainting());
        }
    }

    fn relayout(&mut self, id: NodeId)
        requires
            old(self).sound(),
        ensures
            final(self).sound(),
            final(self).model() == old(self).model().relayout(id),
    {
        let ghost start = self.model();
        proof {
            lemma_marked_wf(start.host, id, NodeFlags(NodeFlags::LAYOUT));
        }
        self.host.mark_dirty(id, NodeFlags(NodeFlags::LAYOUT));
        proof {
            assert(self.model() =~= start.relayout(id));
        }
    }

    fn is_input(&self, id: NodeId) -> (r: bool)
        ensures
            r == is_input(self.model().host, id),
    {
        match self.host.node(id) {
            Some(n) => n.kind().0 == NodeKind::INPUT,
            None => false,
        }
    }

    fn takes_focus(&self, id: NodeId) -> (r: bool)
        requires
            self.sound(),
        ensures
            r == takes_focus(self.model().host, id),
    {
        self.is_input(id) || self.host.props(id).focusable
    }

    fn listens(&self, id: NodeId, bits: u32) -> (r: bool)
        requires
            self.sound(),
        ensures
            r == listens(self.model().host, id, bits),
    {
        self.host.props(id).listeners & bits != 0
    }

    /// The scroll offset of a node.
    pub fn scroll_offset(&self, id: NodeId) -> (r: Point)
        ensures
            r == self.model().offset_of(id),
    {
        match self.scroll.get(&id.0) {
            Some(p) => *p,
            None => Point::new(Scalar(0), Scalar(0)),
        }
    }

    /// The nodes of a list that listen.
    fn listeners(&self, list: &Vec<NodeId>, bits: u32) -> (r: Vec<NodeId>)
        requires
            self.sound(),
        ensures
            r@ == listeners(self.model().host, list@, bits),
    {
        let ghost m = self.model().host;
        let mut out: Vec<NodeId> = Vec::new();
        let mut i: usize = 0;
        proof {
            assert(list@.take(0) =~= Seq::empty());
            assert(listeners(m, list@.take(0), bits) =~= Seq::empty());
        }
        while i < list.len()
            invariant
                i <= list@.len(),
                self.sound(),
                m == self.model().host,
                out@ == listeners(m, list@.take(i as int), bits),
            decreases list@.len() - i,
        {
            let ghost before = out@;
            proof {
                assert(list@.take(i + 1).drop_last() =~= list@.take(i as int));
                assert(list@.take(i + 1).last() == list@[i as int]);
            }
            if self.listens(list[i], bits) {
                out.push(list[i]);
            }
            proof {
                assert(out@ =~= listeners(m, list@.take(i + 1), bits));
            }
            i = i + 1;
        }
        proof {
            assert(list@.take(i as int) =~= list@);
        }
        out
    }

    /// Sends an event to each node of a list.
    fn address(&mut self, list: &Vec<NodeId>, e: &UiEvent)
        requires
            old(self).sound(),
        ensures
            final(self).sound(),
            final(self).model() == old(self).model().with_events(addressed(list@, e@)),
    {
        let ghost start = self.model();
        let ghost all = addressed(list@, e@);
        let mut i: usize = 0;
        proof {
            assert(start.with_events(all.take(0)) =~= start);
        }
        while i < list.len()
            invariant
                i <= list@.len(),
                self.sound(),
                all == addressed(list@, e@),
                self.model() == start.with_events(all.take(i as int)),
            decreases list@.len() - i,
        {
            let ghost before = self.model();
            self.push_event(e.sent_to(list[i].0));
            proof {
                assert(all.take(i + 1) =~= all.take(i as int).push(all[i as int]));
                assert(self.model() =~= start.with_events(all.take(i + 1)));
            }
            i = i + 1;
        }
        proof {
            assert(all.take(i as int) =~= all);
        }
    }

    /// Sends an event to every node on a path that listens for it.
    fn emit_path(&mut self, path: &Vec<NodeId>, e: &UiEvent)
        requires
            old(self).sound(),
        ensures
            final(self).sound(),
            final(self).model() == old(self).model().told(path@, e@),
    {
        let heard = self.listeners(path, mask_for(e.kind));
        self.address(&heard, e);
    }

    // ------------------------------------------------------------------ getters

    /// Events queued for listeners since the last call.
    pub fn take_events(&mut self) -> (r: Vec<UiEvent>)
        requires
            old(self).sound(),
        ensures
            final(self).sound(),
            event_models(r@) == old(self).model().events,
            final(self).model() == old(self).model().without_events(),
    {
        let ghost start = self.model();
        let mut out: Vec<UiEvent> = Vec::new();
        std::mem::swap(&mut out, &mut self.pending_events);
        proof {
            assert(event_models(self.pending_events@) =~= Seq::empty());
            assert(self.model() =~= (UiModel { events: Seq::empty(), ..start }));
        }
        out
    }

    /// Work on editors queued since the last call, oldest first.
    pub fn take_jobs(&mut self) -> (r: Vec<Job>)
        requires
            old(self).sound(),
        ensures
            final(self).sound(),
            job_models(r@) == old(self).model().jobs,
            final(self).model() == old(self).model().without_jobs(),
    {
        let ghost start = self.model();
        let mut out: Vec<Job> = Vec::new();
        std::mem::swap(&mut out, &mut self.jobs);
        proof {
            assert(job_models(self.jobs@) =~= Seq::empty());
            assert(self.model() =~= (UiModel { jobs: Seq::empty(), ..start }));
        }
        out
    }

    /// A node's accessibility name, if any.
    pub fn a11y_label(&self, id: NodeId) -> (r: Option<&str>)
        ensures
            match r {
                Some(s) => self.model().labels.dom().contains(id.0) && s@
                    == self.model().labels[id.0],
                None => !self.model().labels.dom().contains(id.0),
            },
    {
        match self.labels.get(&id.0) {
            Some(s) => Some(s.as_str()),
            None => None,
        }
    }

    /// A custom node's payload, if any.
    pub fn custom_data(&self, id: NodeId) -> (r: Option<&CustomData>)
        ensures
            match r {
                Some(c) => self.model().custom.dom().contains(id.0) && c@
                    == self.model().custom[id.0],
                None => !self.model().custom.dom().contains(id.0),
            },
    {
        self.custom.get(&id.0)
    }

    /// True once after a change that assistive technology can observe.
    pub fn take_a11y_stale(&mut self) -> (r: bool)
        requires
            old(self).sound(),
        ensures
            final(self).sound(),
            r == old(self).model().a11y_stale,
            final(self).model() == old(self).model().with_fresh_a11y(),
    {
        let r: bool = self.a11y_stale;
        self.a11y_stale = false;
        r
    }

    /// The focused node, if any.
    pub fn focused(&self) -> (r: Option<NodeId>)
        ensures
            r == self.model().focus,
    {
        self.focus
    }

    /// The node that holds the pointer since the last press, if any.
    pub fn captured(&self) -> (r: Option<NodeId>)
        ensures
            r == self.model().pressed,
    {
        self.pressed
    }

    /// True when applied mutations can change pixels.
    pub fn needs_paint(&self) -> (r: bool)
        ensures
            r == self.model().host.paint_dirty,
    {
        self.host.paint_dirty()
    }

    /// Whether an input is focused, so that the platform composes text.
    pub fn ime_wanted(&self) -> (r: bool)
        ensures
            r == self.model().composing(),
    {
        match self.focus {
            Some(id) => self.is_input(id),
            None => false,
        }
    }

    /// Empties every solver cache and asks for a repaint: a resize changes
    /// wrap widths without a mutation.
    pub fn invalidate_layout(&mut self)
        requires
            old(self).sound(),
        ensures
            final(self).sound(),
            final(self).model() == old(self).model().uncached(),
    {
        let ghost start = self.model();
        self.layouts.clear_all_caches(self.host.slot_count());
        self.host.force_paint();
        proof {
            assert(self.model() =~= (UiModel {
                layouts: start.layouts.forgotten(start.host.nodes.len()),
                ..start.repainting()
            }));
        }
    }

    /// Asks for a repaint (a painter was registered).
    pub fn force_paint(&mut self)
        requires
            old(self).sound(),
        ensures
            final(self).sound(),
            final(self).model() == old(self).model().repainting(),
    {
        self.repaint();
    }

    // -------------------------------------------------------------------- focus

    /// Focusable nodes in document order, for Tab traversal.
    fn focusables(&self) -> (out: Vec<NodeId>)
        requires
            self.sound(),
        ensures
            out@ == self.model().ring(),
    {
        let ghost m = self.model().host;
        let list = self.host.document_order(true);
        let mut out: Vec<NodeId> = Vec::new();
        let mut i: usize = 0;
        proof {
            assert(list@.take(0) =~= Seq::empty());
            assert(focus_ring(m, list@.take(0)) =~= Seq::empty());
        }
        while i < list.len()
            invariant
                i <= list@.len(),
                self.sound(),
                m == self.model().host,
                out@ == focus_ring(m, list@.take(i as int)),
            decreases list@.len() - i,
        {
            proof {
                assert(list@.take(i + 1).drop_last() =~= list@.take(i as int));
                assert(list@.take(i + 1).last() == list@[i as int]);
            }
            if self.takes_focus(list[i]) {
                out.push(list[i]);
            }
            proof {
                assert(out@ =~= focus_ring(m, list@.take(i + 1)));
            }
            i = i + 1;
        }
        proof {
            assert(list@.take(i as int) =~= list@);
        }
        out
    }

    /// Moves focus: queues blur and focus events, and ends a composition in
    /// the input that loses it.
    pub fn set_focus(&mut self, next: Option<NodeId>)
        requires
            old(self).sound(),
        ensures
            final(self).sound(),
            final(self).model() == old(self).model().focused(next),
    {
        let ghost start = self.model();
        let same: bool = match (self.focus, next) {
            (Some(a), Some(b)) => a.0 == b.0,
            (None, None) => true,
            _ => false,
        };
        if same {
            return ;
        }
        if let Some(was) = self.focus {
            if self.is_input(was) {
                self.push_job(Job::FinishCompose { id: was });
            }
            if self.listens(was, mask::FOCUS) {
                self.push_event(UiEvent::new(out_kind::BLUR, was.0));
            }
        }
        let ghost left = self.model();
        proof {
            assert(left == start.blurred());
        }
        let to: Option<NodeId> = match next {
            Some(id) => if self.host.node(id).is_some() {
                Some(id)
            } else {
                None
            },
            None => None,
        };
        self.focus = to;
        proof {
            assert(self.model() =~= (UiModel { focus: to, ..left }));
        }
        if let Some(id) = to {
            if self.listens(id, mask::FOCUS) {
                self.push_event(UiEvent::new(out_kind::FOCUS, id.0));
            }
        }
        self.repaint();
        let ghost shown = self.model();
        self.a11y_stale = true;
        proof {
            assert(self.model() =~= (UiModel { a11y_stale: true, ..shown }));
        }
    }

    // ------------------------------------------------------------------- scroll

    /// Sets a scroll offset, clamped to the layout extent and to the axes
    /// that the node's style scrolls; gives the offset where it changed.
    pub fn scroll_to(&mut self, id: NodeId, x: Scalar, y: Scalar) -> (r: Option<Point>)
        requires
            old(self).sound(),
        ensures
            final(self).sound(),
            final(self).model() == old(self).model().scrolled_to(id, x, y),
            r == (if old(self).model().scroll_moves(id, x, y) {
                Some(old(self).model().scroll_goal(id, x, y))
            } else {
                None
            }),
    {
        let ghost start = self.model();
        if self.host.node(id).is_none() {
            return None;
        }
        let style: Style = *self.layouts.style_of(&self.host, id);
        let x_ok: bool = style.overflow.x == Overflow::Scroll;
        let y_ok: bool = style.overflow.y == Overflow::Scroll;
        if !x_ok && !y_ok {
            return None;
        }
        let extent: Point = self.layouts.data(id).scroll_extent;
        let cur: Point = self.scroll_offset(id);
        let zero: Scalar = Scalar(0);
        let next: Point = Point {
            x: if x_ok {
                x.clamp(zero, extent.x)
            } else {
                cur.x
            },
            y: if y_ok {
                y.clamp(zero, extent.y)
            } else {
                cur.y
            },
        };
        if cur.x.same(next.x) && cur.y.same(next.y) {
            self.scroll.insert(id.0, cur);
            proof {
                assert(self.model() =~= start.scrolled_to(id, x, y));
            }
            return None;
        }
        self.scroll.insert(id.0, next);
        self.a11y_stale = true;
        self.host.force_paint();
        proof {
            assert(self.model() =~= start.scrolled_to(id, x, y));
        }
        Some(next)
    }

    /// The first node of a path that scrolls on the wanted axis.
    fn scrollable_on(&self, path: &Vec<NodeId>, vertical: bool) -> (r: Option<NodeId>)
        requires
            self.sound(),
        ensures
            r == first_scrolling(self.model().host, self.model().layouts, path@, vertical),
    {
        let ghost m = self.model().host;
        let ghost l = self.model().layouts;
        let mut i: usize = 0;
        proof {
            assert(path@.skip(0) =~= path@);
        }
        while i < path.len()
            invariant
                i <= path@.len(),
                self.sound(),
                m == self.model().host,
                l == self.model().layouts,
                first_scrolling(m, l, path@, vertical) == first_scrolling(
                    m,
                    l,
                    path@.skip(i as int),
                    vertical,
                ),
            decreases path@.len() - i,
        {
            proof {
                assert(path@.skip(i as int)[0] == path@[i as int]);
                assert(path@.skip(i as int).drop_first() =~= path@.skip(i + 1));
            }
            let id: NodeId = path[i];
            if self.host.node(id).is_none() {
                return None;
            }
            let style = self.layouts.style_of(&self.host, id);
            let scrolls: bool = if vertical {
                style.overflow.y == Overflow::Scroll
            } else {
                style.overflow.x == Overflow::Scroll
            };
            if scrolls {
                return Some(id);
            }
            i = i + 1;
        }
        None
    }

    /// The node that a wheel over `hit` scrolls.
    pub fn wheel_target(&self, hit: NodeId) -> (r: Option<NodeId>)
        requires
            self.sound(),
        ensures
            r == self.model().wheel_target(hit),
    {
        let path = self.host.path_to(hit);
        match self.scrollable_on(&path, true) {
            Some(id) => Some(id),
            None => self.scrollable_on(&path, false),
        }
    }

    /// The deepest node that contains a point.
    pub fn hit_test(&self, x: Scalar, y: Scalar, placed: &Vec<Placed>) -> (r: Option<NodeId>)
        requires
            self.sound(),
        ensures
            r == self.model().hit(placed@, x, y),
    {
        hit_test(&self.host, &self.layouts, placed, x, y)
    }
}

/// The point that a table has for a node.
pub(crate) fn point_at(table: &Vec<Point>, id: NodeId) -> (r: Point)
    ensures
        r == point_of(table@, id),
{
    let i: usize = id.0 as usize;
    if i < table.len() {
        table[i]
    } else {
        Point::new(Scalar(0), Scalar(0))
    }
}

} // verus!
