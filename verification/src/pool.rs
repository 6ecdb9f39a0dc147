//! The accounting a worker pool's submission and shutdown path runs on.
//! The pool itself is threads, a queue and a join — outside work — but
//! every decision it takes (admit a job, refuse one after closing, report
//! the drain that lets shutdown return) is made here, against counters a
//! caller keeps under its lock.

use vstd::prelude::*;

verus! {

/// The pool's ledger: how many jobs were accepted, how many have run to
/// completion, and whether the submission path is closed.
#[derive(Clone, Copy, PartialEq, Eq, Structural, Debug)]
pub struct PoolLedger {
    pub submitted: u64,
    pub completed: u64,
    pub closed: bool,
}

/// Completions never outrun submissions.
pub open spec fn ledger_wf(p: PoolLedger) -> bool {
    p.completed <= p.submitted
}

/// What submitting does: an open ledger admits the job and counts it, a
/// closed one refuses it and stays as it is.
pub open spec fn spec_submit(p: PoolLedger) -> (PoolLedger, bool) {
    if p.closed {
        (p, false)
    } else {
        (PoolLedger { submitted: (p.submitted + 1) as u64, ..p }, true)
    }
}

/// What finishing one job does.
pub open spec fn spec_complete(p: PoolLedger) -> PoolLedger {
    PoolLedger { completed: (p.completed + 1) as u64, ..p }
}

/// Shutdown may return exactly when every accepted job has completed.
pub open spec fn spec_drained(p: PoolLedger) -> bool {
    p.completed == p.submitted
}

impl PoolLedger {
    /// A fresh, open ledger with nothing accepted.
    pub fn new() -> (p: PoolLedger)
        ensures
            p == (PoolLedger { submitted: 0, completed: 0, closed: false }),
            ledger_wf(p),
    {
        PoolLedger { submitted: 0, completed: 0, closed: false }
    }

    /// Asks to admit one job. After the pool closed, nothing is admitted
    /// and the ledger does not move.
    pub fn try_submit(&mut self) -> (accepted: bool)
        requires
            ledger_wf(*old(self)),
            old(self).submitted < u64::MAX,
        ensures
            ledger_wf(*final(self)),
            (*final(self), accepted) == spec_submit(*old(self)),
    {
        if self.closed {
            false
        } else {
            self.submitted = self.submitted + 1;
            true
        }
    }

    /// Records that one admitted job ran to completion.
    pub fn complete(&mut self)
        requires
            ledger_wf(*old(self)),
            old(self).completed < old(self).submitted,
        ensures
            ledger_wf(*final(self)),
            *final(self) == spec_complete(*old(self)),
    {
        self.completed = self.completed + 1;
    }

    /// Closes the submission path; jobs already admitted keep running.
    pub fn close(&mut self)
        ensures
            *final(self) == (PoolLedger { closed: true, ..*old(self) }),
    {
        self.closed = true;
    }

    /// Whether shutdown may return: every admitted job has completed.
    pub fn drained(&self) -> (r: bool)
        ensures
            r == spec_drained(*self),
    {
        self.completed == self.submitted
    }
}

/// After shutdown is invoked no new job is ever admitted: submitting to a
/// closed ledger refuses the job and leaves the ledger unchanged, however
/// often it is tried.
pub proof fn lemma_closed_pool_admits_nothing(p: PoolLedger)
    requires
        p.closed,
    ensures
        spec_submit(p) == (p, false),
{
}

/// One event in the pool's lifecycle.
#[derive(Clone, Copy, PartialEq, Eq, Structural, Debug)]
pub enum PoolEvent {
    Submit,
    Complete,
    Close,
}

/// How one event moves the ledger: a completion only counts while a job is
/// outstanding, and submissions go through `spec_submit`'s admission check.
pub open spec fn spec_step(p: PoolLedger, ev: PoolEvent) -> PoolLedger {
    match ev {
        PoolEvent::Submit => spec_submit(p).0,
        PoolEvent::Complete => if p.completed < p.submitted {
            spec_complete(p)
        } else {
            p
        },
        PoolEvent::Close => PoolLedger { closed: true, ..p },
    }
}

/// The ledger after a whole sequence of events, first event first.
pub open spec fn spec_run(p: PoolLedger, evs: Seq<PoolEvent>) -> PoolLedger
    decreases evs.len(),
{
    if evs.len() == 0 {
        p
    } else {
        spec_run(spec_step(p, evs[0]), evs.subrange(1, evs.len() as int))
    }
}

/// Closing is permanent: whatever happens after a close, the pool stays
/// closed and the number of admitted jobs never grows again — no event
/// sequence sneaks a new job past shutdown.
pub proof fn lemma_close_is_permanent(p: PoolLedger, evs: Seq<PoolEvent>)
    requires
        p.closed,
    ensures
        spec_run(p, evs).closed,
        spec_run(p, evs).submitted == p.submitted,
    decreases evs.len(),
{
    if evs.len() > 0 {
        lemma_close_is_permanent(spec_step(p, evs[0]), evs.subrange(1, evs.len() as int));
    }
}

/// Shutdown returns only once every job admitted before the close has run:
/// while any accepted job is unfinished the drain check holds it back.
pub proof fn lemma_shutdown_waits_for_jobs(p: PoolLedger)
    requires
        ledger_wf(p),
    ensures
        spec_drained(p) <==> p.completed == p.submitted,
        !spec_drained(p) ==> p.completed < p.submitted,
{
}

} // verus!
