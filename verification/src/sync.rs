//! One turn of the host loop: drained transactions become one repaint.

use crate::bridge::{byte_views, SessionModel};
use crate::ui::model::UiModel;
use crate::ui::state::committed;
use crate::ui::Ui;
use crate::wire::apply::{applicable, fails_at, host_run, runs};
use crate::wire::format::get_txn;
use crate::wire::{TxnModel, WireError};
use std::collections::VecDeque;
use vstd::prelude::*;

verus! {

/// The transaction that a buffer holds, where it decodes and can be applied.
pub open spec fn accepted(u: UiModel, buf: Seq<u8>) -> Option<TxnModel> {
    match get_txn(buf) {
        Ok(txn) => if runs(u.host, txn.ops, txn.ops.len()) {
            Some(txn)
        } else {
            None
        },
        Err(_) => None,
    }
}

/// After one buffer: applied whole, or without any effect.
pub open spec fn after(u: UiModel, buf: Seq<u8>) -> UiModel {
    match accepted(u, buf) {
        Some(txn) => committed(u, txn),
        None => u,
    }
}

/// After the first `k` buffers.
pub open spec fn after_all(u: UiModel, bufs: Seq<Seq<u8>>, k: nat) -> UiModel
    decreases k,
{
    if k == 0 {
        u
    } else {
        after(after_all(u, bufs, (k - 1) as nat), bufs[k - 1])
    }
}

/// The sequence number of buffer `k`, where it was applied.
pub open spec fn seq_at(u: UiModel, bufs: Seq<Seq<u8>>, k: nat) -> Option<u64> {
    match accepted(after_all(u, bufs, k), bufs[k as int]) {
        Some(txn) => Some(txn.seq),
        None => None,
    }
}

/// A session after the first `k` outcomes were recorded.
pub open spec fn recorded_all(
    s: SessionModel,
    outcomes: Seq<Result<u64, WireError>>,
    k: nat,
) -> SessionModel
    decreases k,
{
    if k == 0 {
        s
    } else {
        recorded_all(s, outcomes, (k - 1) as nat).recorded(outcomes[k - 1])
    }
}

/// Applies transactions in order, and tells what became of each: its sequence
/// number, or why it was left out.
pub fn apply_all(ui: &mut Ui, bufs: &VecDeque<Vec<u8>>) -> (out: Vec<Result<u64, WireError>>)
    requires
        old(ui).wf(),
    ensures
        final(ui).wf(),
        final(ui).model() == after_all(old(ui).model(), byte_views(bufs@), bufs@.len()),
        out@.len() == bufs@.len(),
        forall|k: nat|
            k < bufs@.len() ==> (match #[trigger] seq_at(old(ui).model(), byte_views(bufs@), k) {
                Some(seq) => out@[k as int] == Ok::<u64, WireError>(seq),
                None => out@[k as int] is Err,
            }),
{
    let ghost start = ui.model();
    let ghost views = byte_views(bufs@);
    let mut out: Vec<Result<u64, WireError>> = Vec::new();
    let mut i: usize = 0;
    while i < bufs.len()
        invariant
            i <= bufs@.len(),
            views == byte_views(bufs@),
            ui.wf(),
            ui.model() == after_all(start, views, i as nat),
            out@.len() == i,
            forall|k: nat|
                k < i ==> (match #[trigger] seq_at(start, views, k) {
                    Some(seq) => out@[k as int] == Ok::<u64, WireError>(seq),
                    None => out@[k as int] is Err,
                }),
        decreases bufs@.len() - i,
    {
        let ghost u = ui.model();
        let r = ui.apply(bufs[i].as_slice());
        proof {
            assert(views[i as int] == bufs@[i as int]@);
            if let Ok(txn) = get_txn(views[i as int]) {
                if let Err(WireError::Rejected(k)) = r {
                    assert(fails_at(u.host, txn.ops, k as nat));
                    assert(!runs(u.host, txn.ops, txn.ops.len()));
                }
            }
            assert(ui.model() == after(u, views[i as int]));
        }
        out.push(r);
        i = i + 1;
    }
    out
}

/// Acknowledgements tell the composing side exactly what was applied: while
/// every transaction is accepted, recording the outcomes adds one
/// acknowledgement per transaction, in order, with its sequence number.
pub proof fn law_acks_tell_what_was_applied(
    u: UiModel,
    s: SessionModel,
    bufs: Seq<Seq<u8>>,
    outcomes: Seq<Result<u64, WireError>>,
    n: nat,
)
    requires
        n <= bufs.len(),
        outcomes.len() == bufs.len(),
        forall|k: nat|
            k < bufs.len() ==> (match #[trigger] seq_at(u, bufs, k) {
                Some(seq) => outcomes[k as int] == Ok::<u64, WireError>(seq),
                None => outcomes[k as int] is Err,
            }),
        forall|k: nat| k < n ==> #[trigger] seq_at(u, bufs, k) is Some,
    ensures
        recorded_all(s, outcomes, n).closed == s.closed,
        recorded_all(s, outcomes, n).acks == s.acks + Seq::new(
            n,
            |k: int| seq_at(u, bufs, k as nat)->Some_0,
        ),
    decreases n,
{
    let seqs = Seq::new(n, |k: int| seq_at(u, bufs, k as nat)->Some_0);
    if n == 0 {
        assert(s.acks + seqs =~= s.acks);
    } else {
        let m = (n - 1) as nat;
        law_acks_tell_what_was_applied(u, s, bufs, outcomes, m);
        let prev = Seq::new(m, |k: int| seq_at(u, bufs, k as nat)->Some_0);
        assert(seq_at(u, bufs, m) is Some);
        assert((s.acks + prev).push(seq_at(u, bufs, m)->Some_0) =~= s.acks + seqs);
    }
}

/// A transaction that is left out ends the session, whatever comes after it.
pub proof fn law_refusal_ends_the_session(
    s: SessionModel,
    outcomes: Seq<Result<u64, WireError>>,
    k: nat,
    n: nat,
)
    requires
        k < n <= outcomes.len(),
        outcomes[k as int] is Err,
    ensures
        recorded_all(s, outcomes, n).closed is Some,
    decreases n,
{
    if n > k + 1 {
        law_refusal_ends_the_session(s, outcomes, k, (n - 1) as nat);
    }
}

/// What a turn asks for after it has drained the session.
#[derive(Clone, Copy, Debug, PartialEq, Eq, Structural)]
pub enum Turn {
    /// Nothing that shows has changed, or there is nowhere to show it.
    Rest,
    /// Lay out and paint once for a surface of this many physical pixels.
    Paint(u32, u32),
}

/// What a turn comes to.
pub open spec fn turn_for(dirty: bool, width: u32, height: u32) -> Turn {
    if dirty && width > 0 && height > 0 {
        Turn::Paint(width, height)
    } else {
        Turn::Rest
    }
}

/// Decides whether a turn paints: only where something can change a pixel and
/// the surface has pixels. A minimized window is painted when it comes back.
pub fn turn(ui: &Ui, width: u32, height: u32) -> (t: Turn)
    requires
        ui.wf(),
    ensures
        t == turn_for(ui.model().host.paint_dirty, width, height),
{
    if !ui.needs_paint() || width == 0 || height == 0 {
        return Turn::Rest;
    }
    Turn::Paint(width, height)
}

/// A buffer is applied whole or not at all: applied where it decodes and each
/// of its ops can be applied after those before it; else nothing changes.
pub proof fn law_buffers_apply_whole_or_not(u: UiModel, buf: Seq<u8>)
    ensures
        get_txn(buf) is Err ==> accepted(u, buf) is None && after(u, buf) == u,
        get_txn(buf) matches Ok(txn) ==> {
            let good = forall|k: nat|
                k < txn.ops.len() ==> applicable(
                    #[trigger] host_run(u.host, txn.ops, k),
                    txn.ops[k as int],
                );
            &&& good ==> accepted(u, buf) == Some(txn) && after(u, buf) == committed(u, txn)
            &&& !good ==> accepted(u, buf) is None && after(u, buf) == u
        },
{
}

/// What buffers come to in one turn and in several is the same.
pub proof fn law_turns_join(u: UiModel, a: Seq<Seq<u8>>, b: Seq<Seq<u8>>, k: nat)
    requires
        k <= b.len(),
    ensures
        after_all(u, a + b, a.len() + k) == after_all(after_all(u, a, a.len()), b, k),
        after_all(u, Seq::empty(), 0) == u,
    decreases k,
{
    if k == 0 {
        lemma_turn_prefix(u, a, b, a.len());
    } else {
        law_turns_join(u, a, b, (k - 1) as nat);
        assert((a + b)[a.len() + k - 1] == b[k - 1]);
    }
}

proof fn lemma_turn_prefix(u: UiModel, a: Seq<Seq<u8>>, b: Seq<Seq<u8>>, k: nat)
    requires
        k <= a.len(),
    ensures
        after_all(u, a + b, k) == after_all(u, a, k),
    decreases k,
{
    if k > 0 {
        lemma_turn_prefix(u, a, b, (k - 1) as nat);
        assert((a + b)[k - 1] == a[k - 1]);
    }
}

/// A turn of one buffer is that buffer, and tells its number where it was
/// applied.
pub proof fn law_one_buffer(u: UiModel, buf: Seq<u8>)
    ensures
        after_all(u, seq![buf], 1) == after(u, buf),
        accepted(u, buf) matches Some(txn) ==> seq_at(u, seq![buf], 0) == Some(txn.seq),
        accepted(u, buf) is None ==> seq_at(u, seq![buf], 0) is None,
{
    reveal_with_fuel(after_all, 2);
}

/// A turn paints exactly where something that shows has changed and there are
/// pixels to show it on, at the surface's own size.
pub proof fn law_turns_paint_when_dirty(dirty: bool, width: u32, height: u32)
    ensures
        turn_for(dirty, width, height) is Rest <==> !dirty || width == 0 || height == 0,
        turn_for(dirty, width, height) matches Turn::Paint(w, h) ==> w == width && h == height,
{
}

} // verus!
