//! The queue directory as a list of jobs: reading a listing, choosing the
//! identifier of a new job, and the state a job keeps of its own record.

use vstd::prelude::*;
use crate::record::{parse_name, parse_record_name, record_name, record_text};
use crate::status::{Status, is_terminal};

verus! {

broadcast use vstd::seq_lib::group_to_multiset_ensures;

/// The jobs that a directory listing names, in listing order; names that are
/// not records are skipped.
pub open spec fn parsed_names(ns: Seq<String>) -> Seq<(usize, Status)>
    decreases ns.len(),
{
    if ns.len() == 0 {
        Seq::empty()
    } else {
        let r = parsed_names(ns.drop_last());
        match parse_name(ns.last()@) {
            Some(j) => r.push(j),
            None => r,
        }
    }
}

/// The jobs are in order of identifier.
pub open spec fn sorted_by_id(s: Seq<(usize, Status)>) -> bool {
    forall|i: int, j: int| 0 <= i < j < s.len() ==> s[i].0 <= s[j].0
}

/// One more than the largest identifier among the jobs, or zero when there
/// are none: the identifier a new job claims.
pub open spec fn next_id(s: Seq<(usize, Status)>) -> nat
    decreases s.len(),
{
    if s.len() == 0 {
        0
    } else {
        let m = next_id(s.drop_last());
        if m > s.last().0 + 1 {
            m
        } else {
            (s.last().0 + 1) as nat
        }
    }
}

/// The jobs that have not reached a terminal status, in order.
pub open spec fn active_jobs(s: Seq<(usize, Status)>) -> Seq<(usize, Status)>
    decreases s.len(),
{
    if s.len() == 0 {
        Seq::empty()
    } else {
        let r = active_jobs(s.drop_last());
        if is_terminal(s.last().1) {
            r
        } else {
            r.push(s.last())
        }
    }
}

proof fn lemma_insert_to_multiset<A>(s: Seq<A>, i: int, x: A)
    requires
        0 <= i <= s.len(),
    ensures
        s.insert(i, x).to_multiset() =~= s.to_multiset().insert(x),
{
    let t = s.insert(i, x);
    assert(t.remove(i) =~= s);
    assert(t[i] == x);
    assert(t.contains(x));
}

/// The jobs named by a directory listing, in order of identifier. Names that
/// are not records are skipped.
pub fn list_jobs(names: &Vec<String>) -> (r: Vec<(usize, Status)>)
    ensures
        sorted_by_id(r@),
        r@.to_multiset() == parsed_names(names@).to_multiset(),
{
    let mut r: Vec<(usize, Status)> = Vec::new();
    let mut i: usize = 0;
    while i < names.len()
        invariant
            i <= names.len(),
            sorted_by_id(r@),
            r@.to_multiset() == parsed_names(names@.take(i as int)).to_multiset(),
        decreases names.len() - i,
    {
        let ghost before = r@;
        assert(names@.take(i + 1).drop_last() =~= names@.take(i as int));
        match parse_record_name(names[i].as_str()) {
            None => {},
            Some(job) => {
                let mut k: usize = 0;
                while k < r.len() && r[k].0 <= job.0
                    invariant
                        k <= r.len(),
                        r@ == before,
                        forall|j: int| 0 <= j < k ==> r[j].0 <= job.0,
                    decreases r.len() - k,
                {
                    k = k + 1;
                }
                r.insert(k, job);
                proof {
                    lemma_insert_to_multiset(before, k as int, job);
                    assert(parsed_names(names@.take(i + 1)) == parsed_names(names@.take(
                        i as int,
                    )).push(job));
                    assert forall|a: int, b: int| 0 <= a < b < r@.len() implies r@[a].0
                        <= r@[b].0 by {
                        if b < k {
                        } else if b == k {
                        } else if a < k {
                            assert(before[k as int].0 > job.0);
                        } else if a == k {
                            assert(before[k as int].0 > job.0);
                            assert(before[k as int].0 <= before[b - 1].0);
                        } else {
                        }
                    }
                }
            },
        }
        i = i + 1;
    }
    assert(names@.take(names.len() as int) =~= names@);
    r
}

/// From a listing of the queue: the identifier a new job claims (one more
/// than every identifier present, whatever its status) and the jobs it comes
/// after, those not yet terminal. `None` when no larger identifier fits.
pub fn get_precusors(jobs: &Vec<(usize, Status)>) -> (r: Option<(usize, Vec<(usize, Status)>)>)
    ensures
        r is None <==> next_id(jobs@) > usize::MAX,
        r matches Some((id, p)) ==> id == next_id(jobs@) && p@ == active_jobs(jobs@),
{
    let mut next: usize = 0;
    let mut active: Vec<(usize, Status)> = Vec::new();
    let mut i: usize = 0;
    while i < jobs.len()
        invariant
            i <= jobs.len(),
            next == next_id(jobs@.take(i as int)),
            active@ == active_jobs(jobs@.take(i as int)),
        decreases jobs.len() - i,
    {
        let job = jobs[i];
        assert(jobs@.take(i + 1).drop_last() =~= jobs@.take(i as int));
        if job.0 == usize::MAX {
            proof {
                lemma_next_id_grows(jobs@, i + 1);
            }
            return None;
        }
        if job.0 + 1 > next {
            next = job.0 + 1;
        }
        if !job.1.is_finished() {
            active.push(job);
        }
        i = i + 1;
    }
    assert(jobs@.take(jobs.len() as int) =~= jobs@);
    Some((next, active))
}

proof fn lemma_next_id_grows(s: Seq<(usize, Status)>, i: int)
    requires
        0 <= i <= s.len(),
    ensures
        next_id(s) >= next_id(s.take(i)),
    decreases s.len() - i,
{
    if i < s.len() {
        lemma_next_id_grows(s, i + 1);
        assert(s.take(i + 1).drop_last() =~= s.take(i));
    } else {
        assert(s.take(i) =~= s);
    }
}

/// Every job in a listing has an identifier below the one a new job claims.
pub proof fn lemma_next_id_above(s: Seq<(usize, Status)>)
    ensures
        forall|i: int| 0 <= i < s.len() ==> s[i].0 < next_id(s),
        s.len() > 0 ==> exists|i: int| 0 <= i < s.len() && s[i].0 + 1 == next_id(s),
    decreases s.len(),
{
    if s.len() > 0 {
        let r = s.drop_last();
        lemma_next_id_above(r);
        assert forall|i: int| 0 <= i < s.len() implies s[i].0 < next_id(s) by {
            if i < s.len() - 1 {
                assert(s[i] == r[i]);
            }
        }
        if next_id(r) > s.last().0 + 1 {
            let w = choose|i: int| 0 <= i < r.len() && r[i].0 + 1 == next_id(r);
            assert(s[w] == r[w]);
        } else {
            assert(s[s.len() - 1].0 + 1 == next_id(s));
        }
    }
}

/// A job that has claimed its identifier: its own status, and the jobs that
/// were not yet terminal when it claimed.
pub struct State {
    pub id: usize,
    pub status: Status,
    /// Reflects the queue at the time of the claim; may be stale.
    pub precursors: Vec<(usize, Status)>,
}

/// The transitions a job makes on its own record.
pub open spec fn can_transition(from: Status, to: Status) -> bool {
    match (from, to) {
        (Status::Waiting, Status::Running) => true,
        (Status::Running, Status::Finished) => true,
        (Status::Running, Status::Failed) => true,
        (Status::Waiting, Status::Crashed) => true,
        (Status::Running, Status::Crashed) => true,
        _ => false,
    }
}

impl State {
    /// The state of a job that has just created its record under `id`.
    pub fn new(id: usize, precursors: Vec<(usize, Status)>) -> (r: State)
        ensures
            r.id == id,
            r.status == Status::Waiting,
            r.precursors@ == precursors@,
    {
        State { id, status: Status::Waiting, precursors }
    }

    /// The name of this job's record in the queue directory.
    pub fn qfile(&self) -> (r: String)
        ensures
            r@ == record_text(self.id, self.status),
    {
        record_name(self.id, self.status)
    }

    /// The record's name before and after a move to status `to`.
    pub fn rename_for(&self, to: Status) -> (r: (String, String))
        ensures
            r.0@ == record_text(self.id, self.status),
            r.1@ == record_text(self.id, to),
    {
        (record_name(self.id, self.status), record_name(self.id, to))
    }

    /// The status a job ends in once its command has exited: finished when
    /// the command succeeded, failed otherwise.
    pub fn status_after_exit(success: bool) -> (r: Status)
        ensures
            r == (if success {
                Status::Finished
            } else {
                Status::Failed
            }),
            can_transition(Status::Running, r),
    {
        if success {
            Status::Finished
        } else {
            Status::Failed
        }
    }

    /// Whether the job may move from its status to `to`.
    pub fn may_change_to(&self, to: Status) -> (r: bool)
        ensures
            r == can_transition(self.status, to),
    {
        match (self.status, to) {
            (Status::Waiting, Status::Running) => true,
            (Status::Running, Status::Finished) => true,
            (Status::Running, Status::Failed) => true,
            (Status::Waiting, Status::Crashed) => true,
            (Status::Running, Status::Crashed) => true,
            _ => false,
        }
    }

    /// Records that the job's record has moved to status `to`.
    pub fn change_status(&mut self, to: Status)
        requires
            can_transition(old(self).status, to),
        ensures
            final(self).status == to,
            final(self).id == old(self).id,
            final(self).precursors@ == old(self).precursors@,
    {
        self.status = to;
    }
}

} // verus!
