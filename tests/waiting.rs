use patiently::status::Status;
use patiently::waiter::{admitted_at_once, EventOutcome, MoveOutcome, WaitStep, WatchEvent, Waiter};

#[test]
fn serial_queue_admits_in_order() {
    // Limit one: A runs at once, B waits for A, C waits for both.
    assert!(admitted_at_once(&vec![], 1));
    assert!(!admitted_at_once(&vec![(0, Status::Running)], 1));

    let pre_c = vec![(0, Status::Running), (1, Status::Waiting)];
    let mut c = Waiter::new(&pre_c, 1, 100);
    assert_eq!(c.next_step(), WaitStep::Watch(1));
    c.watch_installed(1, 11);
    assert_eq!(c.next_step(), WaitStep::Block);
    // B starts running: keep watching it.
    assert_eq!(c.on_event(11, WatchEvent::MoveSelf), EventOutcome::Probe(1));
    assert_eq!(c.on_probe(11, &vec![Status::Running]), MoveOutcome::KeepWatching);
    assert_eq!(c.next_step(), WaitStep::Block);
    // B finishes.
    assert_eq!(c.on_event(11, WatchEvent::MoveSelf), EventOutcome::Probe(1));
    assert_eq!(c.on_probe(11, &vec![Status::Finished]), MoveOutcome::DropWatch);
    // A is already finished: its watch cannot be installed.
    assert_eq!(c.next_step(), WaitStep::Watch(0));
    assert_eq!(c.next_step(), WaitStep::Admit);
}

#[test]
fn at_most_limit_run_together() {
    let pre = vec![(0, Status::Running), (1, Status::Running), (2, Status::Running)];
    assert!(!admitted_at_once(&pre, 3));
    let mut w = Waiter::new(&pre, 3, 9);
    assert_eq!(w.next_step(), WaitStep::Watch(2));
    w.watch_installed(2, 3);
    assert_eq!(w.next_step(), WaitStep::Watch(1));
    w.watch_installed(1, 2);
    assert_eq!(w.next_step(), WaitStep::Watch(0));
    w.watch_installed(0, 1);
    assert_eq!(w.next_step(), WaitStep::Block);
    assert_eq!(w.next_step(), WaitStep::Block);
    // One of the three fails.
    assert_eq!(w.on_event(2, WatchEvent::MoveSelf), EventOutcome::Probe(1));
    assert_eq!(w.on_probe(2, &vec![Status::Failed]), MoveOutcome::DropWatch);
    assert_eq!(w.next_step(), WaitStep::Admit);
}

#[test]
fn fewer_precursors_than_limit_admit_at_once() {
    let pre = vec![(0, Status::Running), (1, Status::Waiting)];
    assert!(admitted_at_once(&pre, 3));
    let mut w = Waiter::new(&pre, 3, 9);
    assert_eq!(w.next_step(), WaitStep::Watch(1));
    w.watch_installed(1, 2);
    assert_eq!(w.next_step(), WaitStep::Watch(0));
    w.watch_installed(0, 1);
    assert_eq!(w.next_step(), WaitStep::Admit);
}

#[test]
fn deleted_own_record_cancels() {
    let pre = vec![(0, Status::Running)];
    let mut b = Waiter::new(&pre, 1, 50);
    assert_eq!(b.next_step(), WaitStep::Watch(0));
    b.watch_installed(0, 7);
    assert_eq!(b.next_step(), WaitStep::Block);
    assert_eq!(b.on_event(50, WatchEvent::DeleteSelf), EventOutcome::Cancelled);
    assert_eq!(b.on_event(50, WatchEvent::Ignored), EventOutcome::Cancelled);
    assert_eq!(b.on_event(50, WatchEvent::Other), EventOutcome::Cancelled);
}

#[test]
fn deleted_precursor_releases_later_job() {
    // C waits on B; B's record is deleted while it waits.
    let pre = vec![(0, Status::Running), (1, Status::Waiting)];
    let mut c = Waiter::new(&pre, 2, 60);
    assert_eq!(c.next_step(), WaitStep::Watch(1));
    c.watch_installed(1, 21);
    assert_eq!(c.next_step(), WaitStep::Watch(0));
    c.watch_installed(0, 20);
    assert_eq!(c.next_step(), WaitStep::Block);
    assert_eq!(c.on_event(21, WatchEvent::DeleteSelf), EventOutcome::Dropped);
    assert_eq!(c.next_step(), WaitStep::Admit);
}

#[test]
fn late_and_repeated_events_are_harmless() {
    let pre = vec![(4, Status::Running)];
    let mut w = Waiter::new(&pre, 1, 1);
    assert_eq!(w.next_step(), WaitStep::Watch(4));
    w.watch_installed(4, 2);
    assert_eq!(w.on_event(2, WatchEvent::MoveSelf), EventOutcome::Probe(4));
    assert_eq!(w.on_probe(2, &vec![Status::Crashed]), MoveOutcome::DropWatch);
    assert_eq!(w.on_event(2, WatchEvent::MoveSelf), EventOutcome::Dropped);
    assert_eq!(w.on_event(2, WatchEvent::Ignored), EventOutcome::Dropped);
    assert_eq!(w.next_step(), WaitStep::Admit);
}

#[test]
fn rename_outcomes() {
    let pre = vec![(4, Status::Running), (5, Status::Running)];
    let mut w = Waiter::new(&pre, 1, 1);
    assert_eq!(w.next_step(), WaitStep::Watch(5));
    w.watch_installed(5, 2);
    assert_eq!(w.on_probe(2, &vec![Status::Waiting]), MoveOutcome::StillWaiting);
    assert_eq!(w.on_probe(2, &vec![Status::Waiting, Status::Running]), MoveOutcome::KeepWatching);
    assert_eq!(w.next_step(), WaitStep::Block);
    assert_eq!(w.on_event(2, WatchEvent::Other), EventOutcome::UnexpectedEvent);
    // Renamed to something unknown: nothing of it exists any more.
    assert_eq!(w.on_probe(2, &vec![]), MoveOutcome::DropWatch);
    assert_eq!(w.next_step(), WaitStep::Watch(4));
}
