use patiently::monitor::{monitor_done, outstanding, Tally};
use patiently::queue::{get_precusors, list_jobs, State};
use patiently::record::{parse_id, parse_record_name, record_name};
use patiently::status::Status;

const ALL: [Status; 5] = [
    Status::Waiting,
    Status::Running,
    Status::Finished,
    Status::Failed,
    Status::Crashed,
];

fn names(v: &[&str]) -> Vec<String> {
    v.iter().map(|s| s.to_string()).collect()
}

#[test]
fn status_text_round_trips() {
    for s in ALL {
        assert_eq!(Status::parse(s.as_str()), Some(s));
        assert_eq!(s.to_string(), s.as_str());
    }
    assert_eq!(Status::Waiting.as_str(), "waiting");
    assert_eq!(Status::Crashed.as_str(), "crashed");
    assert_eq!(Status::parse("Waiting"), None);
    assert_eq!(Status::parse(""), None);
    assert_eq!(Status::parse("finishe"), None);
}

#[test]
fn terminal_statuses() {
    assert!(!Status::Waiting.is_finished());
    assert!(!Status::Running.is_finished());
    assert!(Status::Finished.is_finished());
    assert!(Status::Failed.is_finished());
    assert!(Status::Crashed.is_finished());
}

#[test]
fn record_names() {
    assert_eq!(record_name(0, Status::Waiting), "patiently.0.waiting");
    assert_eq!(record_name(42, Status::Running), "patiently.42.running");
    assert_eq!(
        record_name(usize::MAX, Status::Failed),
        format!("patiently.{}.failed", usize::MAX)
    );
}

#[test]
fn record_names_read_back() {
    for s in ALL {
        for id in [0usize, 7, 10, 99, 1234567, usize::MAX] {
            assert_eq!(parse_record_name(&record_name(id, s)), Some((id, s)));
        }
    }
}

#[test]
fn foreign_names_are_skipped() {
    assert_eq!(parse_record_name("patiently.3"), None);
    assert_eq!(parse_record_name("patiently.3."), None);
    assert_eq!(parse_record_name("other.3.waiting"), None);
    assert_eq!(parse_record_name("patiently.x.waiting"), None);
    assert_eq!(parse_record_name("patiently.-1.waiting"), None);
    assert_eq!(parse_record_name("patiently..waiting"), None);
    assert_eq!(parse_record_name("patiently.3.done"), None);
    assert_eq!(parse_record_name(""), None);
    assert_eq!(parse_record_name("patiently.99999999999999999999999.waiting"), None);
}

#[test]
fn names_with_more_components_are_read() {
    assert_eq!(parse_record_name("patiently.3.waiting.tmp"), Some((3, Status::Waiting)));
    assert_eq!(parse_record_name("patiently.+5.running"), Some((5, Status::Running)));
    assert_eq!(parse_record_name("patiently.007.failed"), Some((7, Status::Failed)));
}

#[test]
fn identifiers() {
    let p = |s: &str| parse_id(&s.chars().collect());
    assert_eq!(p("0"), Some(0));
    assert_eq!(p("123"), Some(123));
    assert_eq!(p("+9"), Some(9));
    assert_eq!(p("+"), None);
    assert_eq!(p(""), None);
    assert_eq!(p("1a"), None);
    assert_eq!(p("++1"), None);
    assert_eq!(p(&usize::MAX.to_string()), Some(usize::MAX));
    assert_eq!(p("18446744073709551616"), None);
}

#[test]
fn listing_is_sorted_and_skips_foreign_names() {
    let jobs = list_jobs(&names(&[
        "patiently.10.running",
        "README",
        "patiently.2.finished",
        "patiently.7.waiting",
        "patiently.x.waiting",
        "patiently.0.crashed",
    ]));
    assert_eq!(
        jobs,
        vec![
            (0, Status::Crashed),
            (2, Status::Finished),
            (7, Status::Waiting),
            (10, Status::Running),
        ]
    );
    assert_eq!(list_jobs(&Vec::new()), vec![]);
}

#[test]
fn next_identifier_and_precursors() {
    let jobs = vec![
        (0, Status::Finished),
        (1, Status::Running),
        (4, Status::Failed),
        (5, Status::Waiting),
    ];
    let (id, pre) = get_precusors(&jobs).unwrap();
    assert_eq!(id, 6);
    assert_eq!(pre, vec![(1, Status::Running), (5, Status::Waiting)]);
}

#[test]
fn next_identifier_counts_terminal_jobs() {
    let jobs = vec![(3, Status::Finished), (9, Status::Crashed)];
    let (id, pre) = get_precusors(&jobs).unwrap();
    assert_eq!(id, 10);
    assert!(pre.is_empty());
}

#[test]
fn first_identifier_is_zero() {
    assert_eq!(get_precusors(&vec![]), Some((0, vec![])));
}

#[test]
fn identifier_space_exhausted() {
    assert_eq!(get_precusors(&vec![(usize::MAX, Status::Finished)]), None);
    assert_eq!(
        get_precusors(&vec![(usize::MAX - 1, Status::Running)]),
        Some((usize::MAX, vec![(usize::MAX - 1, Status::Running)]))
    );
}

#[test]
fn successive_claims_increase() {
    let mut listing: Vec<(usize, Status)> = Vec::new();
    let mut ids = Vec::new();
    for _ in 0..4 {
        let (id, _) = get_precusors(&listing).unwrap();
        listing.push((id, Status::Waiting));
        ids.push(id);
    }
    assert_eq!(ids, vec![0, 1, 2, 3]);
}

#[test]
fn job_state_names_and_transitions() {
    let mut st = State::new(4, vec![(1, Status::Running)]);
    assert_eq!(st.qfile(), "patiently.4.waiting");
    let (from, to) = st.rename_for(Status::Running);
    assert_eq!(from, "patiently.4.waiting");
    assert_eq!(to, "patiently.4.running");
    st.change_status(Status::Running);
    assert_eq!(st.status, Status::Running);
    assert_eq!(st.qfile(), "patiently.4.running");
    assert_eq!(State::status_after_exit(true), Status::Finished);
    assert_eq!(State::status_after_exit(false), Status::Failed);
}

#[test]
fn tally_of_serial_run() {
    let jobs = list_jobs(&names(&[
        "patiently.0.finished",
        "patiently.1.finished",
        "patiently.2.failed",
    ]));
    let t = Tally::of_jobs(&jobs);
    assert_eq!(t.count(Status::Finished), 2);
    assert_eq!(t.count(Status::Failed), 1);
    assert_eq!(t.count(Status::Waiting), 0);
    assert_eq!(t.count(Status::Running), 0);
    assert_eq!(t.count(Status::Crashed), 0);
    assert!(monitor_done(&jobs));
    assert_eq!(
        t.entries(),
        vec![
            (Status::Waiting, 0),
            (Status::Running, 0),
            (Status::Finished, 2),
            (Status::Failed, 1),
            (Status::Crashed, 0),
        ]
    );
}

#[test]
fn monitor_keeps_going_while_jobs_are_outstanding() {
    let jobs = vec![(0, Status::Finished), (1, Status::Running), (2, Status::Waiting)];
    assert_eq!(outstanding(&jobs), 2);
    assert!(!monitor_done(&jobs));
    assert!(monitor_done(&vec![]));
    let t = Tally::of_jobs(&jobs);
    assert_eq!((t.waiting, t.running, t.finished), (1, 1, 1));
}
