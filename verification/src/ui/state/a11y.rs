//! The semantic tree of the core, and what assistive technology asks of it.

use super::super::hit::Edges;
use super::super::model::{is_input, listens, Job, JobModel, UiModel};
use super::Ui;
use crate::a11y::{
    a11y_models, aid, nid, nid_of, shown, A11yAction, A11yId, A11yNode, A11yRole, A11yTree,
    ROOT_AID,
};
use crate::host::model::HostModel;
use crate::host::proofs::lemma_path_up;
use crate::host::tree::lemma_height;
use crate::host::{NodeId, NodeKind};
use crate::input::opt_view;
use crate::layout::LayoutsModel;
use crate::scalar::Scalar;
use crate::style::{Overflow, Style};
use vstd::prelude::*;

verus! {

/// Bits of 48, the scroll step of a node without height.
pub const PAGE_STEP: u32 = 0x4240_0000;

/// What assistive technology asks for.
#[derive(Debug)]
pub enum A11yRequest {
    Focus,
    Blur,
    Click,
    ScrollUp,
    ScrollDown,
    ScrollLeft,
    ScrollRight,
    SetScrollOffset(Scalar, Scalar),
    ReplaceSelectedText(String),
    ScrollIntoView,
    Other,
}

/// What is left to do of a request, once coordinates are worked out.
#[derive(Clone, Copy, Debug, PartialEq, Eq)]
pub enum A11yOutcome {
    Done,
    /// Press and release at the node's center.
    Tap(NodeId),
    /// Scroll the node by an offset.
    ScrollBy(NodeId, Scalar, Scalar),
    /// Bring the node into view.
    Reveal(NodeId),
}

/// How far one scroll step goes: the node's own height, or 48.
pub open spec fn step_of(u: UiModel, id: NodeId) -> Scalar {
    let h = u.layouts.data(id).rect.size.height;
    if h.positive() {
        h
    } else {
        Scalar(PAGE_STEP)
    }
}

pub open spec fn requested(u: UiModel, target: A11yId, request: A11yRequest) -> (UiModel, A11yOutcome) {
    match nid_of(target) {
        None => (u, A11yOutcome::Done),
        Some(id) => if !u.host.alive(id) {
            (u, A11yOutcome::Done)
        } else {
            match request {
                A11yRequest::Focus => (u.focused(Some(id)), A11yOutcome::Done),
                A11yRequest::Blur => (
                    if u.focus == Some(id) {
                        u.focused(None)
                    } else {
                        u
                    },
                    A11yOutcome::Done,
                ),
                A11yRequest::Click => (u, A11yOutcome::Tap(id)),
                A11yRequest::ScrollUp => (
                    u,
                    A11yOutcome::ScrollBy(id, Scalar(0), step_of(u, id).negated()),
                ),
                A11yRequest::ScrollDown => (
                    u,
                    A11yOutcome::ScrollBy(id, Scalar(0), step_of(u, id)),
                ),
                A11yRequest::ScrollLeft => (
                    u,
                    A11yOutcome::ScrollBy(id, step_of(u, id).negated(), Scalar(0)),
                ),
                A11yRequest::ScrollRight => (
                    u,
                    A11yOutcome::ScrollBy(id, step_of(u, id), Scalar(0)),
                ),
                A11yRequest::SetScrollOffset(x, y) => (u.scrolled_to(id, x, y), A11yOutcome::Done),
                A11yRequest::ReplaceSelectedText(text) => (
                    if is_input(u.host, id) {
                        u.with_job(
                            JobModel::SetText { id, text: text@, notify: true },
                        ).relayout(id)
                    } else {
                        u
                    },
                    A11yOutcome::Done,
                ),
                A11yRequest::ScrollIntoView => (u, A11yOutcome::Reveal(id)),
                A11yRequest::Other => (u, A11yOutcome::Done),
            }
        },
    }
}

/// Which way a scrolled axis moves to bring a span into view.
#[derive(Clone, Copy, Debug, PartialEq, Eq, Structural)]
pub enum Shift {
    Stay,
    /// By as much as the span starts before the view.
    Back,
    /// By as much as the span ends behind the view.
    Forward,
}

pub open spec fn shift_of(from: Scalar, to: Scalar, start: Scalar, end: Scalar) -> Shift {
    if from.below(start) {
        Shift::Back
    } else if end.below(to) {
        Shift::Forward
    } else {
        Shift::Stay
    }
}

/// Which way a scroll view moves, per axis, to bring `r` into `view`.
pub open spec fn moves_into(r: Edges, view: Edges, scrolls_x: bool, scrolls_y: bool) -> (
    Shift,
    Shift,
) {
    (
        if scrolls_x {
            shift_of(r.x0, r.x1, view.x0, view.x1)
        } else {
            Shift::Stay
        },
        if scrolls_y {
            shift_of(r.y0, r.y1, view.y0, view.y1)
        } else {
            Shift::Stay
        },
    )
}

/// Tells which way a scroll view moves, per axis, to bring `r` into `view`.
pub fn bring_into(r: Edges, view: Edges, scrolls_x: bool, scrolls_y: bool) -> (d: (Shift, Shift))
    ensures
        d == moves_into(r, view, scrolls_x, scrolls_y),
{
    let x: Shift = if !scrolls_x {
        Shift::Stay
    } else if r.x0.lt(view.x0) {
        Shift::Back
    } else if view.x1.lt(r.x1) {
        Shift::Forward
    } else {
        Shift::Stay
    };
    let y: Shift = if !scrolls_y {
        Shift::Stay
    } else if r.y0.lt(view.y0) {
        Shift::Back
    } else if view.y1.lt(r.y1) {
        Shift::Forward
    } else {
        Shift::Stay
    };
    (x, y)
}

/// The nodes of a path that scroll, up to the first that is not live.
pub open spec fn scrolling_on(m: HostModel, l: LayoutsModel, path: Seq<NodeId>) -> Seq<NodeId>
    decreases path.len(),
{
    if path.len() == 0 || !m.alive(path[0]) {
        Seq::empty()
    } else {
        (if l.style_of(m, path[0]).scrolling() {
            seq![path[0]]
        } else {
            Seq::empty()
        }) + scrolling_on(m, l, path.drop_first())
    }
}

impl Ui {
    /// How far one scroll step goes.
    pub fn page_step(&self, id: NodeId) -> (r: Scalar)
        requires
            self.sound(),
        ensures
            r == step_of(self.model(), id),
    {
        let h: Scalar = self.layouts.data(id).rect.size.height;
        if h.is_positive() {
            h
        } else {
            Scalar(PAGE_STEP)
        }
    }

    /// Applies a request of assistive technology.
    pub fn a11y_action(&mut self, target: A11yId, request: &A11yRequest) -> (r: A11yOutcome)
        requires
            old(self).wf(),
        ensures
            final(self).wf(),
            final(self).model() == requested(old(self).model(), target, *request).0,
            r == requested(old(self).model(), target, *request).1,
    {
        let id: NodeId = match nid(target) {
            Some(id) => id,
            None => {
                return A11yOutcome::Done;
            },
        };
        if self.host.node(id).is_none() {
            return A11yOutcome::Done;
        }
        match request {
            A11yRequest::Focus => {
                self.set_focus(Some(id));
                A11yOutcome::Done
            },
            A11yRequest::Blur => {
                let focused: bool = match self.focus {
                    Some(f) => f.0 == id.0,
                    None => false,
                };
                if focused {
                    self.set_focus(None);
                }
                A11yOutcome::Done
            },
            A11yRequest::Click => A11yOutcome::Tap(id),
            A11yRequest::ScrollUp => A11yOutcome::ScrollBy(
                id,
                Scalar(0),
                self.page_step(id).neg(),
            ),
            A11yRequest::ScrollDown => A11yOutcome::ScrollBy(id, Scalar(0), self.page_step(id)),
            A11yRequest::ScrollLeft => A11yOutcome::ScrollBy(
                id,
                self.page_step(id).neg(),
                Scalar(0),
            ),
            A11yRequest::ScrollRight => A11yOutcome::ScrollBy(id, self.page_step(id), Scalar(0)),
            A11yRequest::SetScrollOffset(x, y) => {
                let _ = self.scroll_to(id, *x, *y);
                A11yOutcome::Done
            },
            A11yRequest::ReplaceSelectedText(text) => {
                if self.is_input(id) {
                    self.push_job(Job::SetText { id, text: text.clone(), notify: true });
                    self.relayout(id);
                }
                A11yOutcome::Done
            },
            A11yRequest::ScrollIntoView => A11yOutcome::Reveal(id),
            A11yRequest::Other => A11yOutcome::Done,
        }
    }

    /// The scrolling nodes above `id`, nearest first.
    pub fn scroll_ancestors(&self, id: NodeId) -> (out: Vec<NodeId>)
        requires
            self.wf(),
        ensures
            out@ == scrolling_on(
                self.model().host,
                self.model().layouts,
                self.model().host.path_up(id).drop_first(),
            ),
    {
        let ghost m = self.model().host;
        let ghost l = self.model().layouts;
        let path = self.host.path_to(id);
        proof {
            lemma_path_up(m, id);
        }
        let ghost above = path@.drop_first();
        let mut out: Vec<NodeId> = Vec::new();
        let mut i: usize = 1;
        proof {
            assert(path@.skip(1) =~= above);
            assert(out@ + scrolling_on(m, l, path@.skip(1)) =~= scrolling_on(m, l, above));
        }
        while i < path.len()
            invariant
                1 <= i <= path@.len(),
                self.wf(),
                m == self.model().host,
                l == self.model().layouts,
                above == m.path_up(id).drop_first(),
                out@ + scrolling_on(m, l, path@.skip(i as int)) == scrolling_on(m, l, above),
            decreases path@.len() - i,
        {
            let ghost before = out@;
            let cur: NodeId = path[i];
            proof {
                assert(path@.skip(i as int)[0] == cur);
                assert(path@.skip(i as int).drop_first() =~= path@.skip(i + 1));
            }
            if self.host.node(cur).is_none() {
                proof {
                    assert(scrolling_on(m, l, path@.skip(i as int)) =~= Seq::empty());
                    assert(out@ =~= scrolling_on(m, l, above));
                }
                return out;
            }
            if self.layouts.style_of(&self.host, cur).scrolls() {
                out.push(cur);
            }
            proof {
                assert(out@ + scrolling_on(m, l, path@.skip(i + 1)) =~= before + scrolling_on(
                    m,
                    l,
                    path@.skip(i as int),
                ));
            }
            i = i + 1;
        }
        proof {
            assert(scrolling_on(m, l, path@.skip(i as int)) =~= Seq::empty());
            assert(out@ =~= scrolling_on(m, l, above));
        }
        out
    }

    /// The visible nodes of a list, as accessibility ids.
    fn a11y_children(&self, list: &[NodeId]) -> (out: Vec<A11yId>)
        requires
            self.sound(),
        ensures
            out@ == shown(self.model().host, self.model().layouts, list@),
    {
        let ghost m = self.model().host;
        let ghost l = self.model().layouts;
        let mut out: Vec<A11yId> = Vec::new();
        let mut i: usize = 0;
        proof {
            assert(list@.take(0) =~= Seq::empty());
            assert(shown(m, l, list@.take(0)) =~= Seq::empty());
        }
        while i < list.len()
            invariant
                i <= list@.len(),
                self.sound(),
                m == self.model().host,
                l == self.model().layouts,
                out@ == shown(m, l, list@.take(i as int)),
            decreases list@.len() - i,
        {
            proof {
                assert(list@.take(i + 1).drop_last() =~= list@.take(i as int));
                assert(list@.take(i + 1).last() == list@[i as int]);
            }
            if !self.layouts.is_suppressed(&self.host, list[i]) {
                out.push(aid(list[i]));
            }
            proof {
                assert(out@ =~= shown(m, l, list@.take(i + 1)));
            }
            i = i + 1;
        }
        proof {
            assert(list@.take(i as int) =~= list@);
        }
        out
    }

    fn a11y_actions(&self, id: NodeId, kind: u16, style: Style) -> (out: Vec<A11yAction>)
        requires
            self.sound(),
            self.model().host.alive(id),
            kind == self.model().host.header(id).kind_index(),
            style == self.model().style_of(id),
        ensures
            out@ == self.model().a11y_actions(id),
    {
        let mut out: Vec<A11yAction> = Vec::new();
        if kind == NodeKind::TEXT {
        } else if kind == NodeKind::INPUT {
            out.push(A11yAction::Focus);
            out.push(A11yAction::Blur);
            out.push(A11yAction::ReplaceSelectedText);
        } else {
            if self.listens(id, 0x006) {
                out.push(A11yAction::Click);
            }
            if style.overflow.x == Overflow::Scroll {
                out.push(A11yAction::ScrollLeft);
                out.push(A11yAction::ScrollRight);
            }
            if style.overflow.y == Overflow::Scroll {
                out.push(A11yAction::ScrollUp);
                out.push(A11yAction::ScrollDown);
            }
        }
        if self.host.props(id).focusable && kind != NodeKind::INPUT {
            out.push(A11yAction::Focus);
        }
        proof {
            assert(out@ =~= self.model().a11y_actions(id));
        }
        out
    }

    fn a11y_role(&self, id: NodeId, kind: u16, style: Style) -> (r: A11yRole)
        requires
            self.sound(),
            self.model().host.alive(id),
            kind == self.model().host.header(id).kind_index(),
            style == self.model().style_of(id),
        ensures
            r == self.model().a11y_role(id),
    {
        if kind == NodeKind::TEXT {
            A11yRole::Label
        } else if kind == NodeKind::INPUT {
            if self.inputs.is_multiline(id.0) {
                A11yRole::MultilineTextInput
            } else {
                A11yRole::TextInput
            }
        } else if style.scrolls() {
            A11yRole::ScrollView
        } else if self.listens(id, 0x006) {
            A11yRole::Button
        } else {
            A11yRole::GenericContainer
        }
    }

    fn a11y_value(&self, id: NodeId, kind: u16, values: &Vec<Option<String>>) -> (r: Option<String>)
        requires
            self.sound(),
            self.model().host.alive(id),
            kind == self.model().host.header(id).kind_index(),
        ensures
            opt_view(r) == self.model().a11y_value(id, values@),
    {
        if kind == NodeKind::TEXT {
            match self.host.text(id) {
                Some(row) => Some(row.text.clone()),
                None => None,
            }
        } else if kind == NodeKind::INPUT {
            let i: usize = id.0 as usize;
            if i < values.len() {
                match &values[i] {
                    Some(s) => Some(s.clone()),
                    None => Some(String::new()),
                }
            } else {
                Some(String::new())
            }
        } else {
            None
        }
    }

    /// The semantic node of a visible node.
    fn describe(&self, id: NodeId, values: &Vec<Option<String>>) -> (r: A11yNode)
        requires
            self.sound(),
            self.model().host.alive(id),
        ensures
            r@ == self.model().described(id, values@),
    {
        let kind: u16 = match self.host.node(id) {
            Some(n) => n.kind().0,
            None => NodeKind::EMPTY,
        };
        let style: Style = *self.layouts.style_of(&self.host, id);
        let placeholder: Option<String> = if kind == NodeKind::INPUT {
            self.inputs.placeholder(id.0)
        } else {
            None
        };
        let label: Option<String> = match self.a11y_label(id) {
            Some(s) => Some(s.to_owned()),
            None => None,
        };
        let r = A11yNode {
            id: aid(id),
            role: self.a11y_role(id, kind, style),
            value: self.a11y_value(id, kind, values),
            placeholder,
            label,
            actions: self.a11y_actions(id, kind, style),
            clips: style.clips(),
            children: self.a11y_children(self.host.children(id)),
        };
        proof {
            assert(r@ =~= self.model().described(id, values@));
        }
        r
    }

    /// Appends the semantic nodes of `id` and what is below it, children
    /// first.
    fn a11y_node(&self, id: NodeId, values: &Vec<Option<String>>, out: &mut Vec<A11yNode>)
        requires
            self.sound(),
            self.model().host.alive(id),
        ensures
            a11y_models(final(out)@) == a11y_models(old(out)@) + self.model().a11y(id, values@),
        decreases self.model().host.height(id),
    {
        let ghost u = self.model();
        let ghost start = a11y_models(out@);
        if self.layouts.is_suppressed(&self.host, id) {
            proof {
                assert(start + u.a11y(id, values@) =~= start);
            }
            return ;
        }
        let list = self.host.children(id);
        let mut k: usize = 0;
        proof {
            assert(start + u.a11y_below(id, 0, values@) =~= start);
        }
        while k < list.len()
            invariant
                k <= list@.len(),
                list@ == u.host.list(id),
                u == self.model(),
                self.sound(),
                u.host.wf(),
                u.host.alive(id),
                a11y_models(out@) == start + u.a11y_below(id, k as nat, values@),
            decreases list@.len() - k,
        {
            proof {
                lemma_height(u.host, id, k as int);
            }
            self.a11y_node(list[k], values, out);
            proof {
                assert(a11y_models(out@) =~= start + u.a11y_below(id, (k + 1) as nat, values@));
            }
            k = k + 1;
        }
        let ghost below = a11y_models(out@);
        let node = self.describe(id, values);
        let ghost model = node@;
        out.push(node);
        proof {
            assert(a11y_models(out@) =~= below.push(model));
            assert(a11y_models(out@) =~= start + u.a11y(id, values@));
        }
    }

    /// Builds the whole semantic tree. `values` holds the committed text of
    /// each input, by node id.
    pub fn a11y_tree(&self, values: &Vec<Option<String>>) -> (r: A11yTree)
        requires
            self.wf(),
        ensures
            a11y_models(r.nodes@) == self.model().a11y_all(values@),
            r.focus == self.model().a11y_focus(),
    {
        let ghost u = self.model();
        let mut nodes: Vec<A11yNode> = Vec::new();
        let list = self.host.children(NodeId(NodeId::NIL));
        let mut k: usize = 0;
        proof {
            assert(a11y_models(nodes@) =~= u.a11y_roots(0, values@));
        }
        while k < list.len()
            invariant
                k <= list@.len(),
                list@ == u.host.roots,
                u == self.model(),
                self.sound(),
                u.host.wf(),
                a11y_models(nodes@) == u.a11y_roots(k as nat, values@),
            decreases list@.len() - k,
        {
            proof {
                assert(u.host.alive(u.host.roots[k as int]));
            }
            self.a11y_node(list[k], values, &mut nodes);
            k = k + 1;
        }
        let ghost below = a11y_models(nodes@);
        let window = A11yNode {
            id: A11yId(ROOT_AID),
            role: A11yRole::Window,
            value: None,
            placeholder: None,
            label: None,
            actions: Vec::new(),
            clips: false,
            children: self.a11y_children(list),
        };
        proof {
            assert(window@ =~= u.a11y_window());
        }
        nodes.push(window);
        proof {
            assert(a11y_models(nodes@) =~= below.push(u.a11y_window()));
        }
        let focus: A11yId = match self.focus {
            Some(id) => aid(id),
            None => A11yId(ROOT_AID),
        };
        A11yTree { nodes, focus }
    }
}

} // verus!
