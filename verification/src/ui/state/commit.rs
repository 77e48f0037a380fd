//! What commits and commands do.

use super::super::model::{Job, UiModel};
use super::Ui;
use crate::custom::{CustomData, CustomModel};
use crate::host::model::HostModel;
use crate::host::proofs::{lemma_created_wf, lemma_placed_wf, lemma_removed_wf, lemma_unlinked_wf};
use crate::host::NodeId;
use crate::input::lemma_empty_text;
use crate::wire::apply::{
    applicable, fails_at, host_after, host_run, kind_named, law_transactions_keep_the_tree,
    layouts_run, lemma_content_op, runs,
};
use crate::wire::format::get_txn;
use crate::wire::{decode, Command, Op, OpModel, Txn, TxnModel, WireError};
use vstd::prelude::*;

verus! {

broadcast use vstd::std_specs::hash::group_hash_axioms;

/// What a transaction makes of the core.
pub open spec fn committed(u: UiModel, txn: TxnModel) -> UiModel {
    let n = txn.ops.len();
    UiModel {
        seq: txn.seq,
        a11y_stale: true,
        ..UiModel {
            host: host_run(u.host, txn.ops, n),
            layouts: layouts_run(u.layouts, u.host, txn.ops, n),
            ..u
        }.effects(txn.ops, n)
    }
}

impl Ui {
    /// Commands that arrive in a transaction.
    fn command(&mut self, id: NodeId, cmd: &Command<'_>)
        requires
            old(self).sound(),
        ensures
            final(self).sound(),
            final(self).model() == old(self).model().commanded(id, cmd@),
    {
        match cmd {
            Command::Focus => self.set_focus(Some(id)),
            Command::Blur => {
                let focused: bool = match self.focus {
                    Some(f) => f.0 == id.0,
                    None => false,
                };
                if focused {
                    self.set_focus(None);
                }
            },
            Command::SetInputText(text) => {
                self.push_job(Job::SetText { id, text: (*text).to_owned(), notify: false });
                self.relayout(id);
            },
            Command::ScrollTo(x, y) => {
                let _ = self.scroll_to(id, *x, *y);
            },
        }
    }

    /// Drops what belonged to a slot's last occupant.
    fn forget(&mut self, id: u32)
        requires
            old(self).sound(),
        ensures
            final(self).sound(),
            final(self).model() == old(self).model().forgotten(id),
    {
        let ghost start = self.model();
        self.push_job(Job::Forget { id: NodeId(id) });
        let ghost queued = self.model();
        let ghost customs = self.custom@;
        let ghost names = self.labels@;
        self.inputs.remove(id);
        let _ = self.scroll.remove(&id);
        let _ = self.custom.remove(&id);
        let _ = self.labels.remove(&id);
        proof {
            assert(customs.remove(id).map_values(|c: CustomData| c@) =~= customs.map_values(
                |c: CustomData| c@,
            ).remove(id));
            assert(names.remove(id).map_values(|s: String| s@) =~= names.map_values(
                |s: String| s@,
            ).remove(id));
            assert(self.model() =~= start.forgotten(id));
        }
    }

    /// Turns focus, pointer and capture away from a node.
    fn avert(&mut self, id: u32)
        requires
            old(self).sound(),
        ensures
            final(self).sound(),
            final(self).model() == old(self).model().averted(id),
    {
        let ghost start = self.model();
        if let Some(f) = self.focus {
            if f.0 == id {
                self.focus = None;
            }
        }
        if let Some(h) = self.hover {
            if h.0 == id {
                self.hover = None;
            }
        }
        if let Some(p) = self.pressed {
            if p.0 == id {
                self.pressed = None;
            }
        }
        proof {
            assert(self.model() =~= start.averted(id));
        }
    }

    /// What an op does beyond the tree and the styles.
    fn effect(&mut self, op: &Op<'_>)
        requires
            old(self).sound(),
        ensures
            final(self).sound(),
            final(self).model() == old(self).model().effect(op@),
    {
        let ghost start = self.model();
        match op {
            Op::Create { id, .. } => self.forget(*id),
            Op::Remove { id } => {
                self.forget(*id);
                self.avert(*id);
            },
            Op::InputProps { id, font_size, color, placeholder, multiline } => {
                let how = self.inputs.configure(*id, *font_size, *color, placeholder, *multiline);
                proof {
                    assert(self.model() =~= (UiModel {
                        inputs: start.inputs.configured(
                            *id,
                            *font_size,
                            *color,
                            placeholder@,
                            *multiline,
                        ),
                        ..start
                    }));
                }
                self.push_job(Job::Configure { id: NodeId(*id), how });
                self.relayout(NodeId(*id));
            },
            Op::Command { id, cmd } => self.command(NodeId(*id), cmd),
            Op::Custom { id, tag, data, text } => {
                let ghost customs = self.custom@;
                let row = CustomData { tag: *tag, data: *data, text: (*text).to_owned() };
                self.custom.insert(*id, row);
                proof {
                    assert(customs.insert(*id, row).map_values(|c: CustomData| c@)
                        =~= customs.map_values(|c: CustomData| c@).insert(*id, row@));
                    assert(self.model() =~= (UiModel {
                        custom: start.custom.insert(
                            *id,
                            CustomModel { tag: *tag, data: *data, text: text@ },
                        ),
                        ..start
                    }));
                }
                self.repaint();
            },
            Op::Label { id, text } => {
                let ghost names = self.labels@;
                proof {
                    lemma_empty_text(text@);
                }
                if text.as_bytes().len() == 0 {
                    let _ = self.labels.remove(id);
                    proof {
                        assert(names.remove(*id).map_values(|s: String| s@) =~= names.map_values(
                            |s: String| s@,
                        ).remove(*id));
                    }
                } else {
                    let name: String = (*text).to_owned();
                    self.labels.insert(*id, name);
                    proof {
                        assert(names.insert(*id, name).map_values(|s: String| s@)
                            =~= names.map_values(|s: String| s@).insert(*id, name@));
                    }
                }
                proof {
                    assert(self.model() =~= start.effect(op@));
                }
            },
            _ => {},
        }
    }

    /// Applies a decoded transaction. One that cannot be applied changes
    /// nothing.
    pub fn apply_txn(&mut self, txn: &Txn<'_>) -> (r: Result<(), WireError>)
        requires
            old(self).wf(),
        ensures
            final(self).wf(),
            match r {
                Ok(_) => runs(old(self).model().host, txn@.ops, txn@.ops.len())
                    && final(self).model() == committed(old(self).model(), txn@),
                Err(e) => e matches WireError::Rejected(k) && fails_at(
                    old(self).model().host,
                    txn@.ops,
                    k as nat,
                ) && final(self).model() == old(self).model(),
            },
    {
        let ghost start = self.model();
        let ghost ops = txn@.ops;
        if let Err(e) = txn.apply(&mut self.host, &mut self.layouts) {
            proof {
                assert(self.model() =~= start);
            }
            return Err(e);
        }
        let ghost base = UiModel {
            host: host_run(start.host, ops, ops.len()),
            layouts: layouts_run(start.layouts, start.host, ops, ops.len()),
            ..start
        };
        proof {
            self.layouts.lemma_wf();
            assert(self.model() =~= base);
        }
        let mut k: usize = 0;
        while k < txn.ops.len()
            invariant
                k <= txn.ops@.len(),
                ops == txn@.ops,
                self.sound(),
                self.model() == base.effects(ops, k as nat),
            decreases txn.ops@.len() - k,
        {
            let op = &txn.ops[k];
            proof {
                assert(ops[k as int] == op@);
            }
            self.effect(op);
            k = k + 1;
        }
        let ghost done = self.model();
        self.seq = txn.seq;
        self.a11y_stale = true;
        proof {
            assert(self.model() =~= (UiModel { seq: txn.seq, a11y_stale: true, ..done }));
            law_commits_aim_at_live_nodes(start, txn@);
        }
        Ok(())
    }

    /// Decodes and applies one transaction, and gives its sequence number.
    /// One that does not decode, or cannot be applied, changes nothing.
    pub fn apply(&mut self, buf: &[u8]) -> (r: Result<u64, WireError>)
        requires
            old(self).wf(),
        ensures
            final(self).wf(),
            match get_txn(buf@) {
                Err(e) => r == Err::<u64, WireError>(e) && final(self).model()
                    == old(self).model(),
                Ok(txn) => match r {
                    Ok(seq) => seq == txn.seq && runs(
                        old(self).model().host,
                        txn.ops,
                        txn.ops.len(),
                    ) && final(self).model() == committed(old(self).model(), txn),
                    Err(e) => e matches WireError::Rejected(k) && fails_at(
                        old(self).model().host,
                        txn.ops,
                        k as nat,
                    ) && final(self).model() == old(self).model(),
                },
            },
    {
        let txn = match decode(buf) {
            Ok(txn) => txn,
            Err(e) => {
                return Err(e);
            },
        };
        match self.apply_txn(&txn) {
            Ok(_) => Ok(txn.seq),
            Err(e) => Err(e),
        }
    }
}

// ----------------------------------------------------------------------- laws

/// An op other than its removal leaves a live node live.
proof fn lemma_op_keeps_alive(m: HostModel, op: OpModel, id: NodeId)
    requires
        m.wf(),
        applicable(m, op),
        m.alive(id),
        op != (OpModel::Remove { id: id.0 }),
    ensures
        host_after(m, op).alive(id),
{
    match op {
        OpModel::Create { id: made, kind } => lemma_created_wf(m, NodeId(made), kind_named(kind)),
        OpModel::Place { parent, child, before } => lemma_placed_wf(
            m,
            NodeId(parent),
            NodeId(child),
            NodeId(before),
        ),
        OpModel::Detach { id: cut } => {
            if m.alive(NodeId(cut)) {
                lemma_unlinked_wf(m, NodeId(cut));
            } else {
                assert(m.nodes[cut as int] == m.header(NodeId(cut)));
            }
        },
        OpModel::Remove { id: gone } => {
            lemma_removed_wf(m, NodeId(gone));
            assert(NodeId(gone) != id);
        },
        _ => {
            lemma_content_op(m, op);
            let n = host_after(m, op);
            assert(m.nodes[id.0 as int].vacant() == n.nodes[id.0 as int].vacant());
        },
    }
}

/// True where one of the ops from `k` on removes a node.
spec fn removal_ahead(ops: Seq<OpModel>, k: nat, id: NodeId) -> bool {
    exists|j: int| k <= j < ops.len() && #[trigger] ops[j] == (OpModel::Remove { id: id.0 })
}

/// A node that a transaction leaves dead was removed by one of its ops.
proof fn lemma_dead_was_removed(m: HostModel, ops: Seq<OpModel>, k: nat, id: NodeId)
    requires
        m.wf(),
        k <= ops.len(),
        runs(m, ops, k),
        m.alive(id),
        !host_run(m, ops, k).alive(id),
    ensures
        removal_ahead(ops, 0, id),
    decreases k,
{
    let j = (k - 1) as nat;
    let h = host_run(m, ops, j);
    assert(runs(m, ops, j));
    law_transactions_keep_the_tree(m, ops, j);
    assert(applicable(h, ops[j as int]));
    if h.alive(id) {
        if ops[j as int] != (OpModel::Remove { id: id.0 }) {
            lemma_op_keeps_alive(h, ops[j as int], id);
        }
    } else {
        lemma_dead_was_removed(m, ops, j, id);
    }
}

/// What is aimed at is live, or is about to be removed.
spec fn aimed_until(u: UiModel, ops: Seq<OpModel>, k: nat) -> bool {
    &&& u.focus matches Some(id) ==> u.host.alive(id) || removal_ahead(ops, k, id)
    &&& u.hover matches Some(id) ==> u.host.alive(id) || removal_ahead(ops, k, id)
    &&& u.pressed matches Some(id) ==> u.host.alive(id) || removal_ahead(ops, k, id)
}

proof fn lemma_removal_passed(ops: Seq<OpModel>, k: nat, id: NodeId)
    requires
        removal_ahead(ops, k, id),
        k < ops.len(),
        ops[k as int] != (OpModel::Remove { id: id.0 }),
    ensures
        removal_ahead(ops, k + 1, id),
{
}

/// Effects do not change which nodes are live.
proof fn lemma_effect_alive(u: UiModel, op: OpModel, x: NodeId)
    ensures
        u.effect(op).host.alive(x) == u.host.alive(x),
{
}

proof fn lemma_effect_aimed(u: UiModel, ops: Seq<OpModel>, k: nat)
    requires
        k < ops.len(),
        aimed_until(u, ops, k),
    ensures
        aimed_until(u.effect(ops[k as int]), ops, k + 1),
{
    let op = ops[k as int];
    let v = u.effect(op);
    assert forall|x: NodeId| v.host.alive(x) == u.host.alive(x) by {
        lemma_effect_alive(u, op, x);
    }
    if let Some(id) = u.focus {
        if !u.host.alive(id) && op != (OpModel::Remove { id: id.0 }) {
            lemma_removal_passed(ops, k, id);
        }
    }
    if let Some(id) = u.hover {
        if !u.host.alive(id) && op != (OpModel::Remove { id: id.0 }) {
            lemma_removal_passed(ops, k, id);
        }
    }
    if let Some(id) = u.pressed {
        if !u.host.alive(id) && op != (OpModel::Remove { id: id.0 }) {
            lemma_removal_passed(ops, k, id);
        }
    }
}

proof fn lemma_effects_aimed(u: UiModel, ops: Seq<OpModel>, k: nat)
    requires
        k <= ops.len(),
        aimed_until(u, ops, 0),
    ensures
        aimed_until(u.effects(ops, k), ops, k),
    decreases k,
{
    if k > 0 {
        let j = (k - 1) as nat;
        lemma_effects_aimed(u, ops, j);
        lemma_effect_aimed(u.effects(ops, j), ops, j);
    }
}

/// A commit leaves the focus, the pointer and the capture on live nodes, or
/// nowhere: a removed node loses them, even if its slot is taken again.
pub proof fn law_commits_aim_at_live_nodes(u: UiModel, txn: TxnModel)
    requires
        u.host.wf(),
        u.aimed(),
        runs(u.host, txn.ops, txn.ops.len()),
    ensures
        committed(u, txn).aimed(),
{
    let ops = txn.ops;
    let n = ops.len();
    let base = UiModel {
        host: host_run(u.host, ops, n),
        layouts: layouts_run(u.layouts, u.host, ops, n),
        ..u
    };
    if let Some(id) = u.focus {
        if !base.host.alive(id) {
            lemma_dead_was_removed(u.host, ops, n, id);
        }
    }
    if let Some(id) = u.hover {
        if !base.host.alive(id) {
            lemma_dead_was_removed(u.host, ops, n, id);
        }
    }
    if let Some(id) = u.pressed {
        if !base.host.alive(id) {
            lemma_dead_was_removed(u.host, ops, n, id);
        }
    }
    lemma_effects_aimed(base, ops, n);
}

/// A recycled slot starts clean: after a create or a remove nothing of the
/// last occupant's editing state, offset, payload or name is left.
pub proof fn law_recycled_slot_starts_clean(u: UiModel, id: u32, kind: u8)
    ensures
        ({
            let a = u.effect(OpModel::Create { id, kind });
            let b = u.effect(OpModel::Remove { id });
            &&& !a.inputs.inputs.dom().contains(id) && !b.inputs.inputs.dom().contains(id)
            &&& !a.inputs.notified.dom().contains(id) && !b.inputs.notified.dom().contains(id)
            &&& a.offset_of(NodeId(id)) == crate::geom::Point::zero()
            &&& b.offset_of(NodeId(id)) == crate::geom::Point::zero()
            &&& !a.custom.dom().contains(id) && !b.custom.dom().contains(id)
            &&& !a.labels.dom().contains(id) && !b.labels.dom().contains(id)
        }),
{
}

} // verus!
