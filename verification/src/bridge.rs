//! In-process bridge between the thread that composes the interface and the
//! thread that shows it.
//!
//! The composing side encodes one transaction per commit and submits it. The
//! showing side drains the queue, applies each transaction atomically, and
//! acknowledges its sequence number; acknowledgements gate the recycling of
//! ids, so that reuse never races an apply. A session is a state machine:
//! whoever shares one between threads holds it behind a lock, and wakes the
//! waiting side after each change.

use crate::wire::WireError;
use std::collections::{HashMap, VecDeque};
use vstd::prelude::*;

verus! {

broadcast use vstd::std_specs::hash::group_hash_axioms;

/// Transactions that may wait at a time.
pub const MAX_TRANSACTIONS: usize = 256;

/// Bytes that may wait at a time.
pub const MAX_BYTES: usize = 4194304;

/// Bytes of all items together.
pub open spec fn total(items: Seq<Seq<u8>>) -> nat
    decreases items.len(),
{
    if items.len() == 0 {
        0
    } else {
        total(items.drop_last()) + items.last().len()
    }
}

/// The bytes behind a sequence of vectors.
pub open spec fn byte_views(items: Seq<Vec<u8>>) -> Seq<Seq<u8>> {
    Seq::new(items.len(), |i: int| items[i]@)
}

/// What a session holds.
#[verifier::ext_equal]
pub struct SessionModel {
    /// Transactions that wait to be applied.
    pub commits: Seq<Seq<u8>>,
    /// Sequence numbers that were applied and wait to be delivered.
    pub acks: Seq<u64>,
    /// Encoded event frames that wait to be delivered.
    pub frames: Seq<Seq<u8>>,
    /// Why the session ended, once it has.
    pub closed: Option<Seq<char>>,
}

impl SessionModel {
    pub open spec fn fresh() -> SessionModel {
        SessionModel {
            commits: Seq::empty(),
            acks: Seq::empty(),
            frames: Seq::empty(),
            closed: None,
        }
    }

    /// There is no room for another transaction of this many bytes.
    pub open spec fn full(self, len: nat) -> bool {
        self.commits.len() >= MAX_TRANSACTIONS || total(self.commits) + len > MAX_BYTES
    }

    /// Why a transaction of this many bytes is turned away, if it is.
    pub open spec fn refusal(self, len: nat) -> Option<Seq<char>> {
        if self.closed is Some {
            self.closed
        } else if self.full(len) {
            Some("commit queue is full"@)
        } else {
            None
        }
    }

    /// The acknowledgements that a receiver gets now; none where it waits.
    pub open spec fn received(self) -> Option<Seq<u64>> {
        if self.acks.len() > 0 || self.closed is Some {
            Some(self.acks)
        } else {
            None
        }
    }

    /// After a transaction was handed in.
    pub open spec fn submitted(self, txn: Seq<u8>) -> SessionModel {
        if self.closed is Some || self.full(txn.len()) {
            self
        } else {
            SessionModel { commits: self.commits.push(txn), ..self }
        }
    }

    pub open spec fn acked(self, seq: u64) -> SessionModel {
        SessionModel { acks: self.acks.push(seq), ..self }
    }

    /// After a frame of events was posted.
    pub open spec fn posted(self, frame: Seq<u8>) -> SessionModel {
        SessionModel { frames: self.frames.push(frame), ..self }
    }

    /// After the transactions that wait were taken.
    pub open spec fn without_commits(self) -> SessionModel {
        SessionModel { commits: Seq::empty(), ..self }
    }

    /// After the acknowledgements that wait were taken.
    pub open spec fn without_acks(self) -> SessionModel {
        SessionModel { acks: Seq::empty(), ..self }
    }

    /// After the frames that wait were taken.
    pub open spec fn without_frames(self) -> SessionModel {
        SessionModel { frames: Seq::empty(), ..self }
    }

    /// After the end: the first reason stays, and what was not applied is
    /// dropped.
    pub open spec fn ended(self, reason: Seq<char>) -> SessionModel {
        SessionModel {
            commits: Seq::empty(),
            closed: if self.closed is Some {
                self.closed
            } else {
                Some(reason)
            },
            ..self
        }
    }

    /// After the outcome of one transaction was recorded.
    pub open spec fn recorded(self, outcome: Result<u64, WireError>) -> SessionModel {
        match outcome {
            Ok(seq) => self.acked(seq),
            Err(_) => self.ended("undecodable transaction"@),
        }
    }

    /// The queue keeps its bounds, and is empty after the end.
    pub open spec fn bounded(self) -> bool {
        &&& self.commits.len() <= MAX_TRANSACTIONS
        &&& total(self.commits) <= MAX_BYTES
        &&& self.closed is Some ==> self.commits.len() == 0
    }
}

/// One live connection.
pub struct Session {
    commits: VecDeque<Vec<u8>>,
    commit_bytes: usize,
    acks: VecDeque<u64>,
    frames: VecDeque<Vec<u8>>,
    closed: Option<String>,
}

impl Session {
    pub closed spec fn model(&self) -> SessionModel {
        SessionModel {
            commits: byte_views(self.commits@),
            acks: self.acks@,
            frames: byte_views(self.frames@),
            closed: match self.closed {
                Some(reason) => Some(reason@),
                None => None,
            },
        }
    }

    /// The queue keeps its bounds, and its bytes are counted.
    pub closed spec fn wf(&self) -> bool {
        &&& self.model().bounded()
        &&& self.closed is None ==> self.commit_bytes == total(byte_views(self.commits@))
    }

    pub fn new() -> (r: Session)
        ensures
            r.wf(),
            r.model() == SessionModel::fresh(),
    {
        let r = Session {
            commits: VecDeque::new(),
            commit_bytes: 0,
            acks: VecDeque::new(),
            frames: VecDeque::new(),
            closed: None,
        };
        proof {
            assert(r.model() =~= SessionModel::fresh());
        }
        r
    }

    /// Queues one encoded transaction. Refused with the reason once the
    /// session has ended, and while the queue is full.
    pub fn submit(&mut self, txn: Vec<u8>) -> (r: Result<(), String>)
        requires
            old(self).wf(),
        ensures
            final(self).wf(),
            final(self).model() == old(self).model().submitted(txn@),
            match old(self).model().refusal(txn@.len()) {
                Some(reason) => r matches Err(e) && e@ == reason,
                None => r is Ok,
            },
    {
        let ghost start = self.model();
        if let Some(reason) = &self.closed {
            return Err(reason.clone());
        }
        if self.commits.len() >= MAX_TRANSACTIONS || txn.len() > MAX_BYTES - self.commit_bytes {
            return Err("commit queue is full".to_owned());
        }
        let ghost bytes = txn@;
        self.commit_bytes = self.commit_bytes + txn.len();
        self.commits.push_back(txn);
        proof {
            assert(byte_views(self.commits@) =~= start.commits.push(bytes));
            assert(start.commits.push(bytes).drop_last() =~= start.commits);
            assert(self.model() =~= start.submitted(bytes));
        }
        Ok(())
    }

    /// Takes every queued transaction, oldest first.
    pub fn take_commits(&mut self) -> (r: VecDeque<Vec<u8>>)
        requires
            old(self).wf(),
        ensures
            final(self).wf(),
            byte_views(r@) == old(self).model().commits,
            final(self).model() == old(self).model().without_commits(),
    {
        let ghost start = self.model();
        let mut out: VecDeque<Vec<u8>> = VecDeque::new();
        std::mem::swap(&mut out, &mut self.commits);
        self.commit_bytes = 0;
        proof {
            assert(self.model() =~= (SessionModel { commits: Seq::empty(), ..start }));
        }
        out
    }

    /// Records a sequence number as applied.
    pub fn ack(&mut self, seq: u64)
        requires
            old(self).wf(),
        ensures
            final(self).wf(),
            final(self).model() == old(self).model().acked(seq),
    {
        let ghost start = self.model();
        self.acks.push_back(seq);
        proof {
            assert(self.model() =~= start.acked(seq));
        }
    }

    /// Takes the acknowledgements that wait, oldest first.
    pub fn take_acks(&mut self) -> (r: Vec<u64>)
        requires
            old(self).wf(),
        ensures
            final(self).wf(),
            r@ == old(self).model().acks,
            final(self).model() == old(self).model().without_acks(),
    {
        let ghost start = self.model();
        let mut taken: VecDeque<u64> = VecDeque::new();
        std::mem::swap(&mut taken, &mut self.acks);
        let mut out: Vec<u64> = Vec::new();
        let mut i: usize = 0;
        while i < taken.len()
            invariant
                i <= taken@.len(),
                taken@ == start.acks,
                out@ == taken@.take(i as int),
            decreases taken@.len() - i,
        {
            out.push(taken[i]);
            proof {
                assert(taken@.take(i + 1) =~= taken@.take(i as int).push(taken@[i as int]));
            }
            i = i + 1;
        }
        proof {
            assert(taken@.take(i as int) =~= taken@);
            assert(self.model() =~= (SessionModel { acks: Seq::empty(), ..start }));
        }
        out
    }

    /// What a receiver gets now: the acknowledgements that wait, nothing once
    /// the session has ended, and `None` where it has to wait for a change.
    pub fn recv_acks(&mut self) -> (r: Option<Vec<u64>>)
        requires
            old(self).wf(),
        ensures
            final(self).wf(),
            final(self).model() == old(self).model().without_acks(),
            match r {
                Some(acks) => old(self).model().received() == Some(acks@),
                None => old(self).model().received() is None,
            },
    {
        let ghost start = self.model();
        if self.acks.len() > 0 || self.closed.is_some() {
            return Some(self.take_acks());
        }
        proof {
            assert(self.model() =~= (SessionModel { acks: Seq::empty(), ..start }));
        }
        None
    }

    /// Queues one encoded frame of events for the composing side.
    pub fn post_events(&mut self, frame: Vec<u8>)
        requires
            old(self).wf(),
        ensures
            final(self).wf(),
            final(self).model() == old(self).model().posted(frame@),
    {
        let ghost start = self.model();
        let ghost bytes = frame@;
        self.frames.push_back(frame);
        proof {
            assert(self.model() =~= (SessionModel { frames: start.frames.push(bytes), ..start }));
        }
    }

    /// Takes the frames of events that wait, oldest first.
    pub fn take_frames(&mut self) -> (r: VecDeque<Vec<u8>>)
        requires
            old(self).wf(),
        ensures
            final(self).wf(),
            byte_views(r@) == old(self).model().frames,
            final(self).model() == old(self).model().without_frames(),
    {
        let ghost start = self.model();
        let mut out: VecDeque<Vec<u8>> = VecDeque::new();
        std::mem::swap(&mut out, &mut self.frames);
        proof {
            assert(self.model() =~= (SessionModel { frames: Seq::empty(), ..start }));
        }
        out
    }

    /// Ends the session. The first reason stays; transactions that wait are
    /// dropped.
    pub fn close(&mut self, reason: String)
        requires
            old(self).wf(),
        ensures
            final(self).wf(),
            final(self).model() == old(self).model().ended(reason@),
    {
        let ghost start = self.model();
        let ghost why = reason@;
        if self.closed.is_none() {
            self.closed = Some(reason);
        }
        self.commits.clear();
        proof {
            assert(self.model() =~= start.ended(why));
        }
    }

    /// Records the outcome of one transaction: applied, it is acknowledged;
    /// else the two sides have parted, and the session ends.
    pub fn record(&mut self, outcome: Result<u64, WireError>)
        requires
            old(self).wf(),
        ensures
            final(self).wf(),
            final(self).model() == old(self).model().recorded(outcome),
    {
        match outcome {
            Ok(seq) => self.ack(seq),
            Err(_) => self.close("undecodable transaction".to_owned()),
        }
    }

    pub fn closed_reason(&self) -> (r: Option<String>)
        ensures
            match r {
                Some(reason) => self.model().closed == Some(reason@),
                None => self.model().closed is None,
            },
    {
        match &self.closed {
            Some(reason) => Some(reason.clone()),
            None => None,
        }
    }

    pub fn is_closed(&self) -> (r: bool)
        ensures
            r == (self.model().closed is Some),
    {
        self.closed.is_some()
    }

    /// What holds of a session that is in order.
    pub proof fn lemma_wf(&self)
        requires
            self.wf(),
        ensures
            self.model().bounded(),
    {
    }
}

impl Default for Session {
    fn default() -> (r: Session)
        ensures
            r.wf(),
            r.model() == SessionModel::fresh(),
    {
        Session::new()
    }
}

/// Live sessions by id, so that a worker can attach to the session that its
/// host made. What stands for a session is up to the caller.
pub struct Sessions<T> {
    map: HashMap<u32, T>,
    next: u32,
}

impl<T> Sessions<T> {
    /// The sessions there are.
    pub closed spec fn live(&self) -> Map<u32, T> {
        self.map@
    }

    /// The id that was given out last; 0 before the first.
    pub closed spec fn last(&self) -> u32 {
        self.next
    }

    /// Every id was given out.
    pub open spec fn wf(&self) -> bool {
        forall|id: u32| #[trigger]
            self.live().dom().contains(id) ==> 0 < id && id <= self.last()
    }

    pub fn new() -> (r: Sessions<T>)
        ensures
            r.wf(),
            r.live() == Map::<u32, T>::empty(),
            r.last() == 0,
    {
        Sessions { map: HashMap::new(), next: 0 }
    }

    /// Registers a session under the next id.
    pub fn insert(&mut self, session: T) -> (id: u32)
        requires
            old(self).wf(),
            old(self).last() < u32::MAX,
        ensures
            final(self).wf(),
            id == old(self).last() + 1,
            !old(self).live().dom().contains(id),
            final(self).live() == old(self).live().insert(id, session),
            final(self).last() == id,
    {
        let ghost before = self.live();
        let id: u32 = self.next + 1;
        self.next = id;
        self.map.insert(id, session);
        proof {
            assert forall|k: u32| #[trigger] self.live().dom().contains(k) implies 0 < k && k
                <= self.last() by {
                assert(k == id || before.dom().contains(k));
            }
        }
        id
    }

    pub fn get(&self, id: u32) -> (r: Option<&T>)
        ensures
            r == (if self.live().dom().contains(id) {
                Some(&self.live()[id])
            } else {
                None
            }),
    {
        self.map.get(&id)
    }

    pub fn remove(&mut self, id: u32)
        requires
            old(self).wf(),
        ensures
            final(self).wf(),
            final(self).live() == old(self).live().remove(id),
            final(self).last() == old(self).last(),
    {
        let ghost before = self.live();
        let _ = self.map.remove(&id);
        proof {
            assert forall|k: u32| #[trigger] self.live().dom().contains(k) implies 0 < k && k
                <= self.last() by {
                assert(before.dom().contains(k));
            }
        }
    }
}

impl<T> Default for Sessions<T> {
    fn default() -> (r: Sessions<T>)
        ensures
            r.wf(),
            r.live() == Map::<u32, T>::empty(),
            r.last() == 0,
    {
        Sessions::new()
    }
}

// ------------------------------------------------------------------------ laws

/// Handing in never takes the queue over its bounds.
pub proof fn law_queue_is_bounded(s: SessionModel, txn: Seq<u8>)
    requires
        s.bounded(),
    ensures
        s.submitted(txn).bounded(),
{
    if s.closed is None && !s.full(txn.len()) {
        assert(s.commits.push(txn).drop_last() =~= s.commits);
    }
}

/// Transactions come out in the order in which they went in.
pub proof fn law_commits_keep_their_order(s: SessionModel, first: Seq<u8>, second: Seq<u8>)
    requires
        s.closed is None,
        !s.full(first.len()),
        !s.submitted(first).full(second.len()),
    ensures
        s.submitted(first).submitted(second).commits == s.commits.push(first).push(second),
{
}

/// Once a session has ended, nothing is queued again, the reason stays, and
/// acknowledgements that were recorded before are still delivered.
pub proof fn law_end_is_final(s: SessionModel, reason: Seq<char>, again: Seq<char>, txn: Seq<u8>)
    ensures
        s.ended(reason).closed is Some,
        s.ended(reason).submitted(txn) == s.ended(reason),
        s.ended(reason).ended(again) == s.ended(reason),
        s.ended(reason).acks == s.acks,
        s.closed is None ==> s.ended(reason).closed == Some(reason),
{
    assert(s.ended(reason).ended(again) =~= s.ended(reason));
}

/// A transaction is turned away exactly where the session has ended, 256
/// already wait, or it would take the bytes that wait over four mebibytes;
/// else it is the last in the queue, and nothing else changes.
pub proof fn law_room_in_the_queue(s: SessionModel, txn: Seq<u8>)
    ensures
        ({
            let room = s.closed is None && s.commits.len() < 256 && total(s.commits) + txn.len()
                <= 4 * 1024 * 1024;
            &&& room ==> s.submitted(txn) == (SessionModel { commits: s.commits.push(txn), ..s })
            &&& !room ==> s.submitted(txn) == s
            &&& s.closed is None ==> (s.full(txn.len()) <==> !room)
        }),
{
}

/// The bytes that wait are the bytes of all transactions that wait.
pub proof fn law_waiting_bytes(a: Seq<Seq<u8>>, txn: Seq<u8>)
    ensures
        total(Seq::empty()) == 0,
        total(a.push(txn)) == total(a) + txn.len(),
{
    assert(a.push(txn).drop_last() =~= a);
}

/// An outcome: an applied transaction adds its number to the
/// acknowledgements, behind the others; a failed one ends the session, drops
/// what waits and acknowledges nothing.
pub proof fn law_outcomes_are_recorded(s: SessionModel, seq: u64, e: WireError)
    ensures
        s.recorded(Ok(seq)) == (SessionModel { acks: s.acks.push(seq), ..s }),
        s.recorded(Err(e)) == (SessionModel {
            commits: Seq::empty(),
            closed: match s.closed {
                Some(why) => Some(why),
                None => Some("undecodable transaction"@),
            },
            ..s
        }),
{
}

/// Frames wait in the order in which they were posted, whether or not the
/// session has ended; each queue is emptied alone.
pub proof fn law_queues_are_taken_alone(s: SessionModel, first: Seq<u8>, second: Seq<u8>)
    ensures
        s.posted(first).posted(second).frames == s.frames.push(first).push(second),
        s.posted(first) == (SessionModel { frames: s.posted(first).frames, ..s }),
        s.without_commits().commits.len() == 0,
        s.without_commits() == (SessionModel { commits: s.without_commits().commits, ..s }),
        s.without_acks().acks.len() == 0,
        s.without_acks() == (SessionModel { acks: s.without_acks().acks, ..s }),
        s.without_frames().frames.len() == 0,
        s.without_frames() == (SessionModel { frames: s.without_frames().frames, ..s }),
        ({
            let f = SessionModel::fresh();
            f.commits.len() == 0 && f.acks.len() == 0 && f.frames.len() == 0 && f.closed is None
        }),
{
}

/// What a sender is told: the reason that the session ended with, or that the
/// queue is full; nothing exactly where the transaction was queued.
pub proof fn law_refusals_are_told(s: SessionModel, txn: Seq<u8>)
    ensures
        s.refusal(txn.len()) is None <==> s.submitted(txn) != s,
        s.closed is Some ==> s.refusal(txn.len()) == s.closed,
        s.closed is None && s.refusal(txn.len()) is Some ==> s.refusal(txn.len()) == Some(
            "commit queue is full"@,
        ) && (s.commits.len() >= 256 || total(s.commits) + txn.len() > 4 * 1024 * 1024),
{
    if s.refusal(txn.len()) is None {
        assert(s.submitted(txn).commits.len() != s.commits.len());
    }
}

/// A receiver waits exactly while the session lives and nothing is
/// acknowledged; else it gets all that is, in order.
pub proof fn law_receivers_wait_for_news(s: SessionModel)
    ensures
        s.received() is None <==> s.closed is None && s.acks.len() == 0,
        s.received() is Some ==> s.received() == Some(s.acks),
{
}

} // verus!
