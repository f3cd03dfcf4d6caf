//! The wait of a job for the jobs before it: a state machine that the caller
//! drives with the outcome of each watch it installs and each notification
//! it reads.

use vstd::prelude::*;
use crate::status::{Status, is_terminal};

verus! {

/// What the caller does next while a job waits.
#[derive(Clone, Copy, Debug, PartialEq, Eq, Structural)]
pub enum WaitStep {
    /// Install a watch on the record of this precursor. If the record is
    /// already gone (or terminal), nothing is to be reported back.
    Watch(usize),
    /// Block until the notification facility reports an event.
    Block,
    /// The job is admitted and may run.
    Admit,
}

/// The kind of a notification on a watched record.
#[derive(Clone, Copy, Debug, PartialEq, Eq, Structural)]
pub enum WatchEvent {
    /// The watch was removed.
    Ignored,
    /// The record was deleted.
    DeleteSelf,
    /// The record was renamed.
    MoveSelf,
    /// Any other event, or several at once.
    Other,
}

/// How the waiter takes a notification.
#[derive(Clone, Copy, Debug, PartialEq, Eq, Structural)]
pub enum EventOutcome {
    /// The job's own record is gone: it is cancelled and must not run.
    Cancelled,
    /// The watch is no longer held: it was dropped now, or before (an event
    /// that arrives late or twice).
    Dropped,
    /// The record of this precursor was renamed: the caller reports which of
    /// its records now exist.
    Probe(usize),
    /// An event the waiter does not expect.
    UnexpectedEvent,
}

/// What a rename of a watched record means.
#[derive(Clone, Copy, Debug, PartialEq, Eq, Structural)]
pub enum MoveOutcome {
    /// The precursor started running: keep watching it.
    KeepWatching,
    /// The precursor ended, or its record is gone: the watch was dropped and
    /// the caller removes it.
    DropWatch,
    /// The record was renamed and still says waiting.
    StillWaiting,
}

/// The state of a wait as a mathematical value.
pub struct WaitView {
    pub limit: nat,
    pub own: i32,
    pub pending: Seq<usize>,
    pub watched: Seq<(i32, usize)>,
}

/// The waiter of one job: the precursors it has not looked at yet, and the
/// watches it holds, each with the precursor it is on.
pub struct Waiter {
    limit: usize,
    own: i32,
    pending: Vec<usize>,
    watched: Vec<(i32, usize)>,
}

impl View for Waiter {
    type V = WaitView;

    closed spec fn view(&self) -> WaitView {
        WaitView {
            limit: self.limit as nat,
            own: self.own,
            pending: self.pending@,
            watched: self.watched@,
        }
    }
}

/// The identifiers of the jobs, in order.
pub open spec fn ids_of(s: Seq<(usize, Status)>) -> Seq<usize> {
    s.map_values(|j: (usize, Status)| j.0)
}

/// The next step of the wait: watch the last pending precursor while fewer
/// than `limit` watches are held; admit when none is pending; otherwise block.
pub open spec fn step_spec(v: WaitView) -> (WaitStep, WaitView) {
    if v.watched.len() < v.limit {
        if v.pending.len() > 0 {
            (WaitStep::Watch(v.pending.last()), WaitView { pending: v.pending.drop_last(), ..v })
        } else {
            (WaitStep::Admit, v)
        }
    } else {
        (WaitStep::Block, v)
    }
}

/// The position of the first watch with `key`, or the length when none has it.
pub open spec fn key_pos(w: Seq<(i32, usize)>, key: i32) -> int
    decreases w.len(),
{
    if w.len() == 0 {
        0
    } else if w[0].0 == key {
        0
    } else {
        1 + key_pos(w.drop_first(), key)
    }
}

/// The wait without the first watch that has `key`.
pub open spec fn without_watch(v: WaitView, key: i32) -> WaitView {
    let p = key_pos(v.watched, key);
    if p < v.watched.len() {
        WaitView { watched: v.watched.remove(p), ..v }
    } else {
        v
    }
}

/// How a notification on watch `key` is taken.
pub open spec fn event_spec(v: WaitView, key: i32, ev: WatchEvent) -> (EventOutcome, WaitView) {
    if key == v.own {
        (EventOutcome::Cancelled, v)
    } else {
        match ev {
            WatchEvent::Ignored | WatchEvent::DeleteSelf => (
                EventOutcome::Dropped,
                without_watch(v, key),
            ),
            WatchEvent::MoveSelf => {
                let p = key_pos(v.watched, key);
                if p < v.watched.len() {
                    (EventOutcome::Probe(v.watched[p].1), v)
                } else {
                    (EventOutcome::Dropped, v)
                }
            },
            WatchEvent::Other => (EventOutcome::UnexpectedEvent, v),
        }
    }
}

/// What a rename means, given the statuses under which a record of the
/// precursor now exists.
pub open spec fn move_outcome(present: Seq<Status>) -> MoveOutcome {
    if present.contains(Status::Running) {
        MoveOutcome::KeepWatching
    } else if exists|i: int| 0 <= i < present.len() && is_terminal(#[trigger] present[i]) {
        MoveOutcome::DropWatch
    } else if present.contains(Status::Waiting) {
        MoveOutcome::StillWaiting
    } else {
        MoveOutcome::DropWatch
    }
}

/// How the answer to a probe of watch `key` is taken.
pub open spec fn probe_spec(v: WaitView, key: i32, present: Seq<Status>) -> (MoveOutcome, WaitView) {
    let o = move_outcome(present);
    if o == MoveOutcome::DropWatch {
        (o, without_watch(v, key))
    } else {
        (o, v)
    }
}

/// The wait driven in a queue where every precursor has reached a terminal
/// status: a watch step installs nothing, since the precursor's waiting and
/// running records are gone, and each block ends with an event that reports a
/// held watch's record gone. `picks` chooses, event by event, which held watch
/// the event is on.
pub open spec fn settle(v: WaitView, picks: Seq<nat>) -> WaitView
    decreases picks.len(), v.pending.len(),
{
    let (st, v2) = step_spec(v);
    match st {
        WaitStep::Admit => v,
        WaitStep::Watch(_) => settle(v2, picks),
        WaitStep::Block => {
            if picks.len() > 0 && v.watched.len() > 0 {
                let k = v.watched[(picks[0] % v.watched.len()) as int].0;
                settle(event_spec(v, k, WatchEvent::DeleteSelf).1, picks.drop_first())
            } else {
                v
            }
        },
    }
}

/// No watch of a precursor has the key of the job's own watch.
pub open spec fn wait_wf(v: WaitView) -> bool {
    forall|i: int| 0 <= i < v.watched.len() ==> v.watched[i].0 != v.own
}

/// A job with fewer than `limit` precursors is admitted without waiting.
pub fn admitted_at_once(precursors: &Vec<(usize, Status)>, limit: usize) -> (r: bool)
    ensures
        r == (precursors.len() < limit),
{
    precursors.len() < limit
}

proof fn lemma_key_pos(w: Seq<(i32, usize)>, key: i32, i: int)
    requires
        0 <= i <= w.len(),
        forall|j: int| 0 <= j < i ==> w[j].0 != key,
        i < w.len() ==> w[i].0 == key,
    ensures
        key_pos(w, key) == i,
    decreases i,
{
    if w.len() > 0 && i > 0 {
        lemma_key_pos(w.drop_first(), key, i - 1);
    }
}

proof fn lemma_key_pos_at_most(w: Seq<(i32, usize)>, i: int)
    requires
        0 <= i < w.len(),
    ensures
        key_pos(w, w[i].0) <= i,
    decreases i,
{
    if i > 0 && w[0].0 != w[i].0 {
        lemma_key_pos_at_most(w.drop_first(), i - 1);
    }
}

proof fn lemma_without_watch(v: WaitView, i: int)
    requires
        0 <= i < v.watched.len(),
        wait_wf(v),
    ensures
        without_watch(v, v.watched[i].0).watched.len() == v.watched.len() - 1,
        wait_wf(without_watch(v, v.watched[i].0)),
        without_watch(v, v.watched[i].0).pending == v.pending,
        without_watch(v, v.watched[i].0).limit == v.limit,
{
    let k = v.watched[i].0;
    lemma_key_pos_at_most(v.watched, i);
    let p = key_pos(v.watched, k);
    assert(p >= 0) by {
        lemma_key_pos_nonneg(v.watched, k);
    }
    let w2 = v.watched.remove(p);
    assert forall|j: int| 0 <= j < w2.len() implies w2[j].0 != v.own by {
        if j < p {
            assert(w2[j] == v.watched[j]);
        } else {
            assert(w2[j] == v.watched[j + 1]);
        }
    }
}

proof fn lemma_key_pos_nonneg(w: Seq<(i32, usize)>, key: i32)
    ensures
        0 <= key_pos(w, key) <= w.len(),
    decreases w.len(),
{
    if w.len() > 0 && w[0].0 != key {
        lemma_key_pos_nonneg(w.drop_first(), key);
    }
}

/// Once every precursor has reached a terminal status, the wait admits the
/// job whatever the order in which notifications arrive: after at most one
/// event per watch it holds, it reaches the admission step. Events that
/// arrive in another form, a discarded watch or a rename to a terminal
/// status, act as a deletion does.
pub proof fn lemma_no_missed_admission(v: WaitView, picks: Seq<nat>)
    requires
        v.limit >= 1,
        wait_wf(v),
        picks.len() >= v.watched.len(),
    ensures
        step_spec(settle(v, picks)).0 == WaitStep::Admit,
        forall|k: i32|
            k != v.own ==> #[trigger] event_spec(v, k, WatchEvent::Ignored) == event_spec(
                v,
                k,
                WatchEvent::DeleteSelf,
            ),
        forall|k: i32, present: Seq<Status>|
            k != v.own && (forall|i: int| 0 <= i < present.len() ==> is_terminal(present[i]))
                ==> #[trigger] probe_spec(v, k, present) == (
                MoveOutcome::DropWatch,
                event_spec(v, k, WatchEvent::DeleteSelf).1,
            ),
    decreases picks.len(), v.pending.len(),
{
    assert forall|k: i32, present: Seq<Status>|
        k != v.own && (forall|i: int| 0 <= i < present.len() ==> is_terminal(present[i]))
            implies #[trigger] probe_spec(v, k, present) == (
            MoveOutcome::DropWatch,
            event_spec(v, k, WatchEvent::DeleteSelf).1,
        ) by {
        if present.contains(Status::Running) {
            let j = choose|j: int| 0 <= j < present.len() && present[j] == Status::Running;
            assert(is_terminal(present[j]));
        }
        if present.len() > 0 {
            assert(is_terminal(present[0]));
        } else {
            assert(!present.contains(Status::Waiting));
        }
    }
    let (st, v2) = step_spec(v);
    match st {
        WaitStep::Admit => {},
        WaitStep::Watch(_) => {
            lemma_no_missed_admission(v2, picks);
        },
        WaitStep::Block => {
            let i = (picks[0] % v.watched.len()) as int;
            lemma_without_watch(v, i);
            let k = v.watched[i].0;
            lemma_no_missed_admission(event_spec(v, k, WatchEvent::DeleteSelf).1, picks.drop_first());
        },
    }
}

impl Waiter {
    /// A wait on the precursors of a job, with at most `limit` watches held at
    /// once; `own` is the key of the watch on the job's own record.
    pub fn new(precursors: &Vec<(usize, Status)>, limit: usize, own: i32) -> (r: Waiter)
        ensures
            r@.limit == limit,
            r@.own == own,
            r@.pending == ids_of(precursors@),
            r@.watched.len() == 0,
            wait_wf(r@),
    {
        let mut pending: Vec<usize> = Vec::new();
        let mut i: usize = 0;
        while i < precursors.len()
            invariant
                i <= precursors.len(),
                pending@ == ids_of(precursors@.take(i as int)),
            decreases precursors.len() - i,
        {
            pending.push(precursors[i].0);
            i = i + 1;
            assert(pending@ =~= ids_of(precursors@.take(i as int)));
        }
        assert(precursors@.take(precursors.len() as int) =~= precursors@);
        Waiter { limit, own, pending, watched: Vec::new() }
    }

    /// The next step of the wait.
    pub fn next_step(&mut self) -> (r: WaitStep)
        ensures
            (r, final(self)@) == step_spec(old(self)@),
            wait_wf(old(self)@) ==> wait_wf(final(self)@),
    {
        if self.watched.len() < self.limit {
            match self.pending.pop() {
                Some(id) => WaitStep::Watch(id),
                None => WaitStep::Admit,
            }
        } else {
            WaitStep::Block
        }
    }

    /// Records that the watch `key` was installed on the record of `id`.
    pub fn watch_installed(&mut self, id: usize, key: i32)
        requires
            key != old(self)@.own,
        ensures
            final(self)@ == (WaitView { watched: old(self)@.watched.push((key, id)), ..old(self)@ }),
            wait_wf(old(self)@) ==> wait_wf(final(self)@),
    {
        self.watched.push((key, id));
    }

    fn find_watch(&self, key: i32) -> (r: usize)
        ensures
            r == key_pos(self.watched@, key),
            r <= self.watched.len(),
    {
        let mut i: usize = 0;
        while i < self.watched.len() && self.watched[i].0 != key
            invariant
                i <= self.watched.len(),
                forall|j: int| 0 <= j < i ==> self.watched@[j].0 != key,
            decreases self.watched.len() - i,
        {
            i = i + 1;
        }
        proof {
            lemma_key_pos(self.watched@, key, i as int);
        }
        i
    }

    fn drop_watch(&mut self, key: i32)
        ensures
            final(self)@ == without_watch(old(self)@, key),
            wait_wf(old(self)@) ==> wait_wf(final(self)@),
    {
        let p = self.find_watch(key);
        if p < self.watched.len() {
            let ghost w = self.watched@;
            self.watched.remove(p);
            proof {
                assert(w == old(self)@.watched);
                assert(self@.watched == self.watched@);
                assert(self@.own == old(self)@.own);
                if forall|i: int| 0 <= i < w.len() ==> w[i].0 != self.own {
                    assert forall|i: int| 0 <= i < self.watched@.len() implies self.watched@[i].0
                        != self.own by {
                        if i < p {
                            assert(self.watched@[i] == w[i]);
                        } else {
                            assert(self.watched@[i] == w[i + 1]);
                        }
                    }
                    assert(wait_wf(self@));
                }
            }
        }
    }

    /// Takes a notification on watch `key`. An event on the job's own record
    /// cancels the job, whatever its kind.
    pub fn on_event(&mut self, key: i32, ev: WatchEvent) -> (r: EventOutcome)
        ensures
            (r, final(self)@) == event_spec(old(self)@, key, ev),
            key == old(self)@.own ==> r == EventOutcome::Cancelled && final(self)@ == old(self)@,
            wait_wf(old(self)@) ==> wait_wf(final(self)@),
    {
        if key == self.own {
            return EventOutcome::Cancelled;
        }
        match ev {
            WatchEvent::Ignored | WatchEvent::DeleteSelf => {
                self.drop_watch(key);
                EventOutcome::Dropped
            },
            WatchEvent::MoveSelf => {
                let p = self.find_watch(key);
                if p < self.watched.len() {
                    EventOutcome::Probe(self.watched[p].1)
                } else {
                    EventOutcome::Dropped
                }
            },
            WatchEvent::Other => EventOutcome::UnexpectedEvent,
        }
    }

    /// Takes the answer to a probe of watch `key`: the statuses under which a
    /// record of its precursor now exists.
    pub fn on_probe(&mut self, key: i32, present: &Vec<Status>) -> (r: MoveOutcome)
        ensures
            (r, final(self)@) == probe_spec(old(self)@, key, present@),
            wait_wf(old(self)@) ==> wait_wf(final(self)@),
    {
        let mut running = false;
        let mut terminal = false;
        let mut waiting = false;
        let mut i: usize = 0;
        while i < present.len()
            invariant
                i <= present.len(),
                running == present@.take(i as int).contains(Status::Running),
                waiting == present@.take(i as int).contains(Status::Waiting),
                terminal == exists|j: int| 0 <= j < i && is_terminal(#[trigger] present@[j]),
            decreases present.len() - i,
        {
            let s = present[i];
            let ghost before = present@.take(i as int);
            assert(present@.take(i + 1) =~= before.push(s));
            if s == Status::Running {
                running = true;
            }
            if s == Status::Waiting {
                waiting = true;
            }
            if s.is_finished() {
                terminal = true;
            }
            i = i + 1;
            proof {
                assert(present@.take(i as int).last() == s);
                if !running {
                    assert(!before.contains(Status::Running));
                    assert(s != Status::Running);
                    assert(!present@.take(i as int).contains(Status::Running)) by {
                        if present@.take(i as int).contains(Status::Running) {
                            let j = choose|j: int| 0 <= j < i && present@.take(i as int)[j] == Status::Running;
                            if j < i - 1 {
                                assert(before[j] == Status::Running);
                            }
                        }
                    }
                }
                if !waiting {
                    assert(!present@.take(i as int).contains(Status::Waiting)) by {
                        if present@.take(i as int).contains(Status::Waiting) {
                            let j = choose|j: int| 0 <= j < i && present@.take(i as int)[j] == Status::Waiting;
                            if j < i - 1 {
                                assert(before[j] == Status::Waiting);
                            }
                        }
                    }
                }
            }
        }
        assert(present@.take(present.len() as int) =~= present@);
        if running {
            MoveOutcome::KeepWatching
        } else if terminal || !waiting {
            self.drop_watch(key);
            MoveOutcome::DropWatch
        } else {
            MoveOutcome::StillWaiting
        }
    }
}

} // verus!
