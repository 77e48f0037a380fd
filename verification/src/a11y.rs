//! Accessibility: a semantic tree projected from the retained UI, and the
//! actions that assistive technology asks for.
//!
//! The tree is rebuilt whole whenever structure, content, focus or scroll
//! state changes. Node `n` has accessibility id `n + 1`; id 0 is the window
//! root.

use crate::host::model::HostModel;
use crate::host::tree::lemma_height;
use crate::host::{NodeId, NodeKind};
use crate::layout::LayoutsModel;
use crate::style::Overflow;
use crate::ui::model::{is_input, listens, UiModel};
use vstd::prelude::*;

verus! {

/// An accessibility id.
#[derive(Clone, Copy, Debug, PartialEq, Eq, Hash, Structural)]
pub struct A11yId(pub u64);

/// The window root's accessibility id.
pub const ROOT_AID: u64 = 0;

pub open spec fn aid_of(id: NodeId) -> A11yId {
    A11yId((id.0 + 1) as u64)
}

pub open spec fn nid_of(a: A11yId) -> Option<NodeId> {
    if a.0 == 0 {
        None
    } else {
        Some(NodeId(((a.0 - 1) % 0x1_0000_0000) as u32))
    }
}

/// A node's accessibility id.
pub fn aid(id: NodeId) -> (r: A11yId)
    ensures
        r == aid_of(id),
{
    A11yId(id.0 as u64 + 1)
}

/// The node of an accessibility id; `None` for the window root. Ids beyond
/// the range of nodes wrap.
pub fn nid(a: A11yId) -> (r: Option<NodeId>)
    ensures
        r == nid_of(a),
{
    if a.0 == 0 {
        None
    } else {
        Some(NodeId(((a.0 - 1) % 0x1_0000_0000) as u32))
    }
}

/// An accessibility id names its node again, is no other node's, and is not
/// the root's.
pub proof fn law_aid_round_trip(id: NodeId, other: NodeId)
    ensures
        nid_of(aid_of(id)) == Some(id),
        aid_of(id) == aid_of(other) ==> id == other,
        aid_of(id).0 != ROOT_AID,
{
}

#[derive(Clone, Copy, Debug, PartialEq, Eq, Structural)]
pub enum A11yRole {
    Window,
    Label,
    TextInput,
    MultilineTextInput,
    ScrollView,
    Button,
    GenericContainer,
}

/// Actions that a node offers.
#[derive(Clone, Copy, Debug, PartialEq, Eq, Structural)]
pub enum A11yAction {
    Focus,
    Blur,
    Click,
    ScrollLeft,
    ScrollRight,
    ScrollUp,
    ScrollDown,
    ReplaceSelectedText,
}

/// One node of the semantic tree.
#[derive(Debug)]
pub struct A11yNode {
    pub id: A11yId,
    pub role: A11yRole,
    pub value: Option<String>,
    pub placeholder: Option<String>,
    pub label: Option<String>,
    pub actions: Vec<A11yAction>,
    pub clips: bool,
    pub children: Vec<A11yId>,
}

#[verifier::ext_equal]
pub struct A11yModel {
    pub id: A11yId,
    pub role: A11yRole,
    pub value: Option<Seq<char>>,
    pub placeholder: Option<Seq<char>>,
    pub label: Option<Seq<char>>,
    pub actions: Seq<A11yAction>,
    pub clips: bool,
    pub children: Seq<A11yId>,
}

impl View for A11yNode {
    type V = A11yModel;

    open spec fn view(&self) -> A11yModel {
        A11yModel {
            id: self.id,
            role: self.role,
            value: crate::input::opt_view(self.value),
            placeholder: crate::input::opt_view(self.placeholder),
            label: crate::input::opt_view(self.label),
            actions: self.actions@,
            clips: self.clips,
            children: self.children@,
        }
    }
}

/// A semantic tree: nodes after their children, the root last, and the node
/// that has the focus.
#[derive(Debug)]
pub struct A11yTree {
    pub nodes: Vec<A11yNode>,
    pub focus: A11yId,
}

/// What the nodes of a tree say.
pub open spec fn a11y_models(nodes: Seq<A11yNode>) -> Seq<A11yModel> {
    Seq::new(nodes.len(), |i: int| nodes[i]@)
}

// --------------------------------------------------------------------- the tree

/// The committed text of an input; empty where the table has none.
pub open spec fn text_in(values: Seq<Option<String>>, id: NodeId) -> Seq<char> {
    if id.0 < values.len() {
        match values[id.0 as int] {
            Some(s) => s@,
            None => Seq::empty(),
        }
    } else {
        Seq::empty()
    }
}

/// The nodes of a list that take part, as accessibility ids, in order.
pub open spec fn shown(m: HostModel, l: LayoutsModel, list: Seq<NodeId>) -> Seq<A11yId>
    decreases list.len(),
{
    if list.len() == 0 {
        Seq::empty()
    } else {
        shown(m, l, list.drop_last()) + (if l.suppressed(m, list.last()) {
            Seq::empty()
        } else {
            seq![aid_of(list.last())]
        })
    }
}

impl UiModel {
    pub open spec fn scrolls_x(self, id: NodeId) -> bool {
        self.style_of(id).overflow.x == Overflow::Scroll
    }

    pub open spec fn scrolls_y(self, id: NodeId) -> bool {
        self.style_of(id).overflow.y == Overflow::Scroll
    }

    pub open spec fn clickable(self, id: NodeId) -> bool {
        listens(self.host, id, 0x006)
    }

    pub open spec fn a11y_role(self, id: NodeId) -> A11yRole {
        let kind = self.host.header(id).kind_index();
        if kind == NodeKind::TEXT {
            A11yRole::Label
        } else if kind == NodeKind::INPUT {
            if self.multiline(id) {
                A11yRole::MultilineTextInput
            } else {
                A11yRole::TextInput
            }
        } else if self.scrolls_x(id) || self.scrolls_y(id) {
            A11yRole::ScrollView
        } else if self.clickable(id) {
            A11yRole::Button
        } else {
            A11yRole::GenericContainer
        }
    }

    pub open spec fn a11y_actions(self, id: NodeId) -> Seq<A11yAction> {
        let kind = self.host.header(id).kind_index();
        let own: Seq<A11yAction> = if kind == NodeKind::TEXT {
            Seq::empty()
        } else if kind == NodeKind::INPUT {
            seq![A11yAction::Focus, A11yAction::Blur, A11yAction::ReplaceSelectedText]
        } else {
            (if self.clickable(id) {
                seq![A11yAction::Click]
            } else {
                Seq::empty()
            }) + (if self.scrolls_x(id) {
                seq![A11yAction::ScrollLeft, A11yAction::ScrollRight]
            } else {
                Seq::empty()
            }) + (if self.scrolls_y(id) {
                seq![A11yAction::ScrollUp, A11yAction::ScrollDown]
            } else {
                Seq::empty()
            })
        };
        if self.host.props_of(id).focusable && kind != NodeKind::INPUT {
            own.push(A11yAction::Focus)
        } else {
            own
        }
    }

    pub open spec fn a11y_value(self, id: NodeId, values: Seq<Option<String>>) -> Option<Seq<char>> {
        let kind = self.host.header(id).kind_index();
        if kind == NodeKind::TEXT {
            match self.host.text_of(id) {
                Some(row) => Some(row.text),
                None => None,
            }
        } else if kind == NodeKind::INPUT {
            Some(text_in(values, id))
        } else {
            None
        }
    }

    pub open spec fn a11y_placeholder(self, id: NodeId) -> Option<Seq<char>> {
        if is_input(self.host, id) && self.inputs.inputs.dom().contains(id.0)
            && self.inputs.inputs[id.0].placeholder.len() > 0 {
            Some(self.inputs.inputs[id.0].placeholder)
        } else {
            None
        }
    }

    /// The semantic node of a live node.
    pub open spec fn described(self, id: NodeId, values: Seq<Option<String>>) -> A11yModel {
        A11yModel {
            id: aid_of(id),
            role: self.a11y_role(id),
            value: self.a11y_value(id, values),
            placeholder: self.a11y_placeholder(id),
            label: if self.labels.dom().contains(id.0) {
                Some(self.labels[id.0])
            } else {
                None
            },
            actions: self.a11y_actions(id),
            clips: self.style_of(id).clipping(),
            children: shown(self.host, self.layouts, self.host.list(id)),
        }
    }

    /// The semantic nodes of `id` and what is below it, children first.
    pub open spec fn a11y(self, id: NodeId, values: Seq<Option<String>>) -> Seq<A11yModel>
        decreases self.host.height(id), 1int, 0int,
            when self.host.wf()
    {
        if self.layouts.suppressed(self.host, id) {
            Seq::empty()
        } else {
            self.a11y_below(id, self.host.list(id).len(), values).push(self.described(id, values))
        }
    }

    /// The semantic nodes of the first `k` children of `p`.
    pub open spec fn a11y_below(self, p: NodeId, k: nat, values: Seq<Option<String>>) -> Seq<
        A11yModel,
    >
        decreases self.host.height(p), 0int, k,
            when self.host.wf()
    {
        if k == 0 || p.0 >= self.host.nodes.len() || k > self.host.list(p).len() {
            Seq::empty()
        } else {
            proof {
                lemma_height(self.host, p, k - 1);
            }
            self.a11y_below(p, (k - 1) as nat, values) + self.a11y(
                self.host.list(p)[k - 1],
                values,
            )
        }
    }

    /// The semantic nodes of the first `k` roots.
    pub open spec fn a11y_roots(self, k: nat, values: Seq<Option<String>>) -> Seq<A11yModel>
        decreases k,
    {
        if k == 0 || k > self.host.roots.len() {
            Seq::empty()
        } else {
            self.a11y_roots((k - 1) as nat, values) + self.a11y(self.host.roots[k - 1], values)
        }
    }

    pub open spec fn a11y_window(self) -> A11yModel {
        A11yModel {
            id: A11yId(ROOT_AID),
            role: A11yRole::Window,
            value: None,
            placeholder: None,
            label: None,
            actions: Seq::empty(),
            clips: false,
            children: shown(self.host, self.layouts, self.host.roots),
        }
    }

    /// The semantic node that has the focus: the window's where none has.
    pub open spec fn a11y_focus(self) -> A11yId {
        match self.focus {
            Some(id) => aid_of(id),
            None => A11yId(ROOT_AID),
        }
    }

    /// The whole semantic tree.
    pub open spec fn a11y_all(self, values: Seq<Option<String>>) -> Seq<A11yModel> {
        self.a11y_roots(self.host.roots.len(), values).push(self.a11y_window())
    }
}

// ------------------------------------------------------------------------- laws

/// True where a list of semantic nodes holds one with this id.
pub open spec fn a11y_has(nodes: Seq<A11yModel>, id: A11yId) -> bool {
    exists|i: int| 0 <= i < nodes.len() && (#[trigger] nodes[i]).id == id
}

/// True where every child that a semantic node names is in the list.
pub open spec fn a11y_closed(nodes: Seq<A11yModel>) -> bool {
    forall|i: int, j: int|
        0 <= i < nodes.len() && 0 <= j < nodes[i].children.len() ==> a11y_has(
            nodes,
            #[trigger] nodes[i].children[j],
        )
}

proof fn lemma_has_extends(a: Seq<A11yModel>, b: Seq<A11yModel>, id: A11yId)
    ensures
        a11y_has(a, id) ==> a11y_has(a + b, id),
        a11y_has(b, id) ==> a11y_has(a + b, id),
{
    if a11y_has(a, id) {
        let i = choose|i: int| 0 <= i < a.len() && (#[trigger] a[i]).id == id;
        assert((a + b)[i].id == id);
    }
    if a11y_has(b, id) {
        let i = choose|i: int| 0 <= i < b.len() && (#[trigger] b[i]).id == id;
        assert((a + b)[a.len() + i].id == id);
    }
}

proof fn lemma_closed_join(a: Seq<A11yModel>, b: Seq<A11yModel>)
    requires
        a11y_closed(a),
        a11y_closed(b),
    ensures
        a11y_closed(a + b),
{
    let c = a + b;
    assert forall|i: int, j: int|
        0 <= i < c.len() && 0 <= j < c[i].children.len() implies a11y_has(
        c,
        #[trigger] c[i].children[j],
    ) by {
        if i < a.len() {
            assert(c[i] == a[i]);
            lemma_has_extends(a, b, a[i].children[j]);
        } else {
            assert(c[i] == b[i - a.len()]);
            lemma_has_extends(a, b, b[i - a.len()].children[j]);
        }
    }
}

proof fn lemma_closed_push(a: Seq<A11yModel>, n: A11yModel)
    requires
        a11y_closed(a),
        forall|j: int| 0 <= j < n.children.len() ==> a11y_has(a, #[trigger] n.children[j]),
    ensures
        a11y_closed(a.push(n)),
        a11y_has(a.push(n), n.id),
{
    let c = a.push(n);
    assert forall|i: int, j: int|
        0 <= i < c.len() && 0 <= j < c[i].children.len() implies a11y_has(
        c,
        #[trigger] c[i].children[j],
    ) by {
        assert(c =~= a + seq![n]);
        if i < a.len() {
            assert(c[i] == a[i]);
            lemma_has_extends(a, seq![n], a[i].children[j]);
        } else {
            lemma_has_extends(a, seq![n], n.children[j]);
        }
    }
    assert(c[a.len() as int].id == n.id);
}

proof fn lemma_a11y_closed(u: UiModel, id: NodeId, values: Seq<Option<String>>)
    requires
        u.host.wf(),
    ensures
        a11y_closed(u.a11y(id, values)),
        !u.layouts.suppressed(u.host, id) ==> a11y_has(u.a11y(id, values), aid_of(id)),
    decreases u.host.height(id), 1int, 0int,
{
    if !u.layouts.suppressed(u.host, id) {
        let n = u.host.list(id).len();
        lemma_below_closed(u, id, n, values);
        assert(u.host.list(id).take(n as int) =~= u.host.list(id));
        lemma_closed_push(u.a11y_below(id, n, values), u.described(id, values));
    }
}

proof fn lemma_below_closed(u: UiModel, p: NodeId, k: nat, values: Seq<Option<String>>)
    requires
        u.host.wf(),
        p.0 < u.host.nodes.len(),
        k <= u.host.list(p).len(),
    ensures
        a11y_closed(u.a11y_below(p, k, values)),
        forall|j: int|
            0 <= j < shown(u.host, u.layouts, u.host.list(p).take(k as int)).len() ==> a11y_has(
                u.a11y_below(p, k, values),
                #[trigger] shown(u.host, u.layouts, u.host.list(p).take(k as int))[j],
            ),
    decreases u.host.height(p), 0int, k,
{
    let list = u.host.list(p);
    if k > 0 {
        lemma_height(u.host, p, k - 1);
        let c = list[k - 1];
        let a = u.a11y_below(p, (k - 1) as nat, values);
        let b = u.a11y(c, values);
        lemma_below_closed(u, p, (k - 1) as nat, values);
        lemma_a11y_closed(u, c, values);
        lemma_closed_join(a, b);
        lemma_shown_joined(u, list, k, a, b, c);
    }
}

proof fn lemma_shown_joined(
    u: UiModel,
    list: Seq<NodeId>,
    k: nat,
    a: Seq<A11yModel>,
    b: Seq<A11yModel>,
    c: NodeId,
)
    requires
        0 < k <= list.len(),
        c == list[k - 1],
        forall|j: int|
            0 <= j < shown(u.host, u.layouts, list.take(k - 1)).len() ==> a11y_has(
                a,
                #[trigger] shown(u.host, u.layouts, list.take(k - 1))[j],
            ),
        !u.layouts.suppressed(u.host, c) ==> a11y_has(b, aid_of(c)),
    ensures
        forall|j: int|
            0 <= j < shown(u.host, u.layouts, list.take(k as int)).len() ==> a11y_has(
                a + b,
                #[trigger] shown(u.host, u.layouts, list.take(k as int))[j],
            ),
{
    let now = list.take(k as int);
    assert(now.drop_last() =~= list.take(k - 1));
    assert(now.last() == c);
    let before = shown(u.host, u.layouts, list.take(k - 1));
    let after = shown(u.host, u.layouts, now);
    assert forall|j: int| 0 <= j < after.len() implies a11y_has(a + b, #[trigger] after[j]) by {
        if j < before.len() {
            assert(after[j] == before[j]);
            lemma_has_extends(a, b, before[j]);
        } else {
            assert(after[j] == aid_of(c));
            lemma_has_extends(a, b, aid_of(c));
        }
    }
}

proof fn lemma_roots_closed(u: UiModel, k: nat, values: Seq<Option<String>>)
    requires
        u.host.wf(),
        k <= u.host.roots.len(),
    ensures
        a11y_closed(u.a11y_roots(k, values)),
        forall|j: int|
            0 <= j < shown(u.host, u.layouts, u.host.roots.take(k as int)).len() ==> a11y_has(
                u.a11y_roots(k, values),
                #[trigger] shown(u.host, u.layouts, u.host.roots.take(k as int))[j],
            ),
    decreases k,
{
    if k > 0 {
        let c = u.host.roots[k - 1];
        let a = u.a11y_roots((k - 1) as nat, values);
        let b = u.a11y(c, values);
        lemma_roots_closed(u, (k - 1) as nat, values);
        lemma_a11y_closed(u, c, values);
        lemma_closed_join(a, b);
        lemma_shown_joined(u, u.host.roots, k, a, b, c);
    }
}

/// The semantic tree is whole: every child that one of its nodes names is in
/// it, and the window root is its last node.
pub proof fn law_a11y_tree_is_whole(u: UiModel, values: Seq<Option<String>>)
    requires
        u.host.wf(),
    ensures
        a11y_closed(u.a11y_all(values)),
        u.a11y_all(values).last() == u.a11y_window(),
{
    let n = u.host.roots.len();
    lemma_roots_closed(u, n, values);
    assert(u.host.roots.take(n as int) =~= u.host.roots);
    lemma_closed_push(u.a11y_roots(n, values), u.a11y_window());
}

/// Accessibility ids count nodes from 1, and start over behind the last: ids
/// that are 2 to the 32 apart name the same node, and only 0 names none.
pub proof fn law_ids_start_over(a: u64)
    ensures
        nid_of(A11yId(a)) is None <==> a == 0,
        0 < a <= 0x1_0000_0000 ==> nid_of(A11yId(a)).unwrap().0 == a - 1,
        0 < a < 0xFFFF_FFFF_0000_0000 ==> nid_of(A11yId((a + 0x1_0000_0000) as u64)) == nid_of(
            A11yId(a),
        ),
{
}

} // verus!
