use vstd::prelude::*;

use crate::error::ClientError;

verus! {

/// A block hash as the node reports it.
pub type Hash = [u8; 32];

/// The status of a submitted transaction, as the node announces it.
#[derive(Debug, Clone, Copy, PartialEq, Eq, Structural)]
pub enum XtStatus {
    Future,
    Ready,
    Broadcast,
    InBlock,
    Finalized,
    Dropped,
    Invalid,
    Usurped,
    FinalityTimeout,
}

/// One notification of the node on a watched transaction.
#[derive(Debug, Clone, Copy, PartialEq, Eq)]
pub struct StatusUpdate {
    pub status: XtStatus,
    pub block: Option<Hash>,
}

/// What a waiter learns from one notification.
#[derive(Debug, Clone, Copy, PartialEq, Eq)]
pub enum WaitOutcome {
    /// The milestone has not been reached yet: keep waiting.
    Pending,
    /// The milestone was reached; the hash of the block for `InBlock` and
    /// `Finalized`, nothing for `Ready` and `Broadcast`.
    Reached(Option<Hash>),
    /// The transaction ended in this failure status.
    Failed(XtStatus),
}

/// Position of a milestone in the progression; failures have none.
pub open spec fn rank(s: XtStatus) -> int {
    match s {
        XtStatus::Future => 0,
        XtStatus::Ready => 1,
        XtStatus::Broadcast => 2,
        XtStatus::InBlock => 3,
        XtStatus::Finalized => 4,
        _ => -1,
    }
}

pub open spec fn is_failure(s: XtStatus) -> bool {
    rank(s) < 0
}

/// The milestones that a caller may wait for.
pub open spec fn is_waitable(s: XtStatus) -> bool {
    rank(s) >= 1
}

/// Whether reaching this milestone hands back a block hash.
pub open spec fn carries_block(s: XtStatus) -> bool {
    s == XtStatus::InBlock || s == XtStatus::Finalized
}

/// What a waiter on `target` makes of the notification `u`.
pub open spec fn outcome_of(target: XtStatus, u: StatusUpdate) -> WaitOutcome {
    if is_failure(u.status) {
        WaitOutcome::Failed(u.status)
    } else if rank(u.status) >= rank(target) {
        WaitOutcome::Reached(if carries_block(target) { u.block } else { None })
    } else {
        WaitOutcome::Pending
    }
}

/// How many of the notifications `s[i..]` a waiter on `target` reads
/// (counting from the start of `s`) before it stops.
pub open spec fn stop_index(target: XtStatus, s: Seq<StatusUpdate>, i: int) -> int
    decreases s.len() - i,
{
    if i < 0 || i >= s.len() {
        s.len() as int
    } else if outcome_of(target, s[i]) != WaitOutcome::Pending {
        i + 1
    } else {
        stop_index(target, s, i + 1)
    }
}

pub fn rank_of(s: XtStatus) -> (r: i8)
    ensures
        r as int == rank(s),
{
    match s {
        XtStatus::Future => 0,
        XtStatus::Ready => 1,
        XtStatus::Broadcast => 2,
        XtStatus::InBlock => 3,
        XtStatus::Finalized => 4,
        _ => -1,
    }
}

/// The decision of a waiter on `target` for one notification.
pub fn outcome(target: XtStatus, u: StatusUpdate) -> (r: WaitOutcome)
    ensures
        r == outcome_of(target, u),
{
    let rs = rank_of(u.status);
    if rs < 0 {
        WaitOutcome::Failed(u.status)
    } else if rs >= rank_of(target) {
        let carries = match target {
            XtStatus::InBlock | XtStatus::Finalized => true,
            _ => false,
        };
        WaitOutcome::Reached(if carries { u.block } else { None })
    } else {
        WaitOutcome::Pending
    }
}

/// Follows the notifications of one submitted transaction and decides when a
/// waiter on its milestone may go on.
pub struct StatusTracker {
    target: XtStatus,
    current: Option<XtStatus>,
}

impl StatusTracker {
    pub closed spec fn target_spec(&self) -> XtStatus {
        self.target
    }

    pub closed spec fn current_spec(&self) -> Option<XtStatus> {
        self.current
    }

    /// A tracker for a waiter on `target`; `Future` and the failures cannot
    /// be waited for.
    pub fn new(target: XtStatus) -> (r: Result<StatusTracker, ClientError>)
        ensures
            is_waitable(target) ==> (r matches Ok(t) && t.target_spec() == target
                && t.current_spec().is_none()),
            !is_waitable(target) ==> r == Err::<StatusTracker, _>(ClientError::ConfigurationError),
    {
        if rank_of(target) >= 1 {
            Ok(StatusTracker { target, current: None })
        } else {
            Err(ClientError::ConfigurationError)
        }
    }

    pub fn target(&self) -> (r: XtStatus)
        ensures
            r == self.target_spec(),
    {
        self.target
    }

    pub fn current(&self) -> (r: Option<XtStatus>)
        ensures
            r == self.current_spec(),
    {
        self.current
    }

    /// Takes in one notification: the current status becomes the announced
    /// one, whatever it was before, and the waiter's decision is returned.
    pub fn observe(&mut self, u: StatusUpdate) -> (r: WaitOutcome)
        ensures
            final(self).current_spec() == Some(u.status),
            final(self).target_spec() == old(self).target_spec(),
            r == outcome_of(old(self).target_spec(), u),
    {
        self.current = Some(u.status);
        outcome(self.target, u)
    }

    /// Reads the notifications in order until the waiter may go on, and
    /// returns how many were read and the last decision (`Pending` where
    /// none decided).
    pub fn drive(&mut self, updates: &Vec<StatusUpdate>) -> (r: (usize, WaitOutcome))
        ensures
            r.0 as int == stop_index(old(self).target_spec(), updates@, 0),
            r.0 == 0 ==> r.1 == WaitOutcome::Pending,
            r.0 > 0 ==> r.1 == outcome_of(old(self).target_spec(), updates@[r.0 - 1]),
            final(self).target_spec() == old(self).target_spec(),
            r.0 > 0 ==> final(self).current_spec() == Some(updates@[r.0 - 1].status),
            r.0 == 0 ==> final(self).current_spec() == old(self).current_spec(),
    {
        let mut i: usize = 0;
        let mut last = WaitOutcome::Pending;
        while i < updates.len()
            invariant
                0 <= i <= updates.len(),
                self.target_spec() == old(self).target_spec(),
                stop_index(self.target, updates@, 0) == stop_index(self.target, updates@, i as int),
                i == 0 ==> last == WaitOutcome::Pending && self.current == old(self).current,
                i > 0 ==> last == WaitOutcome::Pending && last == outcome_of(self.target, updates@[i - 1])
                    && self.current == Some(updates@[i - 1].status),
            decreases updates.len() - i,
        {
            let o = self.observe(updates[i]);
            i = i + 1;
            match o {
                WaitOutcome::Pending => {},
                _ => {
                    return (i, o);
                },
            }
            last = o;
        }
        (i, last)
    }
}

/// A waiter on any milestone that meets a failure status stops at that
/// notification at the latest, whatever came before.
pub proof fn lemma_failure_ends_wait(target: XtStatus, s: Seq<StatusUpdate>, i: int)
    requires
        0 <= i < s.len(),
        is_failure(s[i].status),
    ensures
        stop_index(target, s, 0) <= i + 1,
        stop_index(target, s, 0) == i + 1 ==> outcome_of(target, s[i]) == WaitOutcome::Failed(
            s[i].status,
        ),
    decreases i,
{
    lemma_stop_bound(target, s, 0, i);
}

proof fn lemma_stop_bound(target: XtStatus, s: Seq<StatusUpdate>, k: int, i: int)
    requires
        0 <= k <= i < s.len(),
        is_failure(s[i].status),
    ensures
        k + 1 <= stop_index(target, s, k) <= i + 1,
    decreases i - k,
{
    if k < i && outcome_of(target, s[k]) == WaitOutcome::Pending {
        lemma_stop_bound(target, s, k + 1, i);
    }
}

/// A failure status ends the wait on every milestone at once.
pub proof fn lemma_failure_unblocks(target: XtStatus, u: StatusUpdate)
    requires
        is_failure(u.status),
    ensures
        outcome_of(target, u) == WaitOutcome::Failed(u.status),
{
}

/// A waiter stops exactly at the first notification whose status reaches
/// its milestone or is a failure, and never before.
pub proof fn lemma_stops_at_first_decision(target: XtStatus, s: Seq<StatusUpdate>, i: int)
    requires
        0 <= i < s.len(),
        rank(s[i].status) >= rank(target) || is_failure(s[i].status),
        forall|j: int| 0 <= j < i ==> rank(#[trigger] s[j].status) >= 0 && rank(s[j].status) < rank(
            target,
        ),
    ensures
        stop_index(target, s, 0) == i + 1,
{
    lemma_stop_exact(target, s, 0, i);
}

proof fn lemma_stop_exact(target: XtStatus, s: Seq<StatusUpdate>, k: int, i: int)
    requires
        0 <= k <= i < s.len(),
        rank(s[i].status) >= rank(target) || is_failure(s[i].status),
        forall|j: int| 0 <= j < i ==> rank(#[trigger] s[j].status) >= 0 && rank(s[j].status) < rank(
            target,
        ),
    ensures
        stop_index(target, s, k) == i + 1,
    decreases i - k,
{
    if k < i {
        assert(rank(s[k].status) >= 0);
        lemma_stop_exact(target, s, k + 1, i);
    }
}

} // verus!
