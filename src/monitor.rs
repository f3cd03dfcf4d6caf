//! The tally that the status monitor shows: how many records are in each
//! status, and whether any job is still outstanding.

use vstd::prelude::*;
use crate::status::{Status, is_terminal};

verus! {

/// How many of the jobs are in status `st`.
pub open spec fn count_status(s: Seq<(usize, Status)>, st: Status) -> nat
    decreases s.len(),
{
    if s.len() == 0 {
        0
    } else {
        count_status(s.drop_last(), st) + if s.last().1 == st {
            1nat
        } else {
            0nat
        }
    }
}

/// How many of the jobs have not reached a terminal status.
pub open spec fn count_outstanding(s: Seq<(usize, Status)>) -> nat
    decreases s.len(),
{
    if s.len() == 0 {
        0
    } else {
        count_outstanding(s.drop_last()) + if is_terminal(s.last().1) {
            0nat
        } else {
            1nat
        }
    }
}

/// Number of records in each status.
#[derive(Clone, Copy, Debug, PartialEq, Eq, Structural)]
pub struct Tally {
    pub waiting: usize,
    pub running: usize,
    pub finished: usize,
    pub failed: usize,
    pub crashed: usize,
}

impl Tally {
    /// The count of status `st`.
    pub open spec fn get(self, st: Status) -> nat {
        match st {
            Status::Waiting => self.waiting as nat,
            Status::Running => self.running as nat,
            Status::Finished => self.finished as nat,
            Status::Failed => self.failed as nat,
            Status::Crashed => self.crashed as nat,
        }
    }

    /// The tally of a listing of the queue.
    pub fn of_jobs(jobs: &Vec<(usize, Status)>) -> (r: Tally)
        ensures
            forall|st: Status| #[trigger] r.get(st) == count_status(jobs@, st),
    {
        let mut t = Tally { waiting: 0, running: 0, finished: 0, failed: 0, crashed: 0 };
        let mut i: usize = 0;
        while i < jobs.len()
            invariant
                i <= jobs.len(),
                forall|st: Status| #[trigger] t.get(st) == count_status(jobs@.take(i as int), st),
                forall|st: Status| #[trigger] t.get(st) <= i,
            decreases jobs.len() - i,
        {
            assert(jobs@.take(i + 1).drop_last() =~= jobs@.take(i as int));
            assert(t.get(Status::Waiting) <= i && t.get(Status::Running) <= i && t.get(
                Status::Finished,
            ) <= i && t.get(Status::Failed) <= i && t.get(Status::Crashed) <= i);
            let ghost t0 = t;
            let ghost j = jobs@[i as int];
            match jobs[i].1 {
                Status::Waiting => t.waiting = t.waiting + 1,
                Status::Running => t.running = t.running + 1,
                Status::Finished => t.finished = t.finished + 1,
                Status::Failed => t.failed = t.failed + 1,
                Status::Crashed => t.crashed = t.crashed + 1,
            }
            assert forall|st: Status| #[trigger] t.get(st) == count_status(
                jobs@.take(i + 1),
                st,
            ) by {
                assert(jobs@.take(i + 1).last() == j);
                assert(t.get(st) == t0.get(st) + if j.1 == st {
                    1nat
                } else {
                    0nat
                });
            }
            i = i + 1;
        }
        assert(jobs@.take(jobs.len() as int) =~= jobs@);
        t
    }

    /// The count of one status.
    pub fn count(&self, st: Status) -> (r: usize)
        ensures
            r == self.get(st),
    {
        match st {
            Status::Waiting => self.waiting,
            Status::Running => self.running,
            Status::Finished => self.finished,
            Status::Failed => self.failed,
            Status::Crashed => self.crashed,
        }
    }

    /// Each status with its count, in the order waiting, running, finished,
    /// failed, crashed.
    pub fn entries(&self) -> (r: Vec<(Status, usize)>)
        ensures
            r@ == seq![
                (Status::Waiting, self.waiting),
                (Status::Running, self.running),
                (Status::Finished, self.finished),
                (Status::Failed, self.failed),
                (Status::Crashed, self.crashed),
            ],
    {
        vec![
            (Status::Waiting, self.waiting),
            (Status::Running, self.running),
            (Status::Finished, self.finished),
            (Status::Failed, self.failed),
            (Status::Crashed, self.crashed),
        ]
    }
}

proof fn lemma_outstanding_split(s: Seq<(usize, Status)>)
    ensures
        count_outstanding(s) == count_status(s, Status::Waiting) + count_status(s, Status::Running),
    decreases s.len(),
{
    if s.len() > 0 {
        lemma_outstanding_split(s.drop_last());
    }
}

/// How many of the listed jobs are still outstanding (waiting or running).
pub fn outstanding(jobs: &Vec<(usize, Status)>) -> (r: usize)
    ensures
        r == count_outstanding(jobs@),
{
    let mut n: usize = 0;
    let mut i: usize = 0;
    while i < jobs.len()
        invariant
            i <= jobs.len(),
            n == count_outstanding(jobs@.take(i as int)),
            n <= i,
        decreases jobs.len() - i,
    {
        assert(jobs@.take(i + 1).drop_last() =~= jobs@.take(i as int));
        if !jobs[i].1.is_finished() {
            n = n + 1;
        }
        i = i + 1;
    }
    assert(jobs@.take(jobs.len() as int) =~= jobs@);
    n
}

/// The monitor stops once no listed job is outstanding.
pub fn monitor_done(jobs: &Vec<(usize, Status)>) -> (r: bool)
    ensures
        r <==> count_outstanding(jobs@) == 0,
        r <==> count_status(jobs@, Status::Waiting) == 0 && count_status(jobs@, Status::Running) == 0,
{
    proof {
        lemma_outstanding_split(jobs@);
    }
    outstanding(jobs) == 0
}

} // verus!
