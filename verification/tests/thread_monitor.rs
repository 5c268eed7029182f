use thread_monitor::run::thread_label;
use thread_monitor::{SharedState, State, ThreadMonitor, ThreadRun, ThreadStatus};
use time::OffsetDateTime;

fn started(status: &ThreadStatus) -> (usize, &str, OffsetDateTime, bool) {
    match status {
        ThreadStatus::Started { n, name, tm, state } => (*n, name.as_str(), *tm, state.is_some()),
        ThreadStatus::Finished { .. } => panic!("a finish in place of a start"),
    }
}

fn finished(status: &ThreadStatus) -> (usize, &str, OffsetDateTime) {
    match status {
        ThreadStatus::Finished { n, name, tm } => (*n, name.as_str(), *tm),
        ThreadStatus::Started { .. } => panic!("a start in place of a finish"),
    }
}

#[test]
fn a_new_monitor_is_off() {
    let mut m = ThreadMonitor::new();
    assert!(m.process().is_none());
}

#[test]
fn numbers_run_on_while_the_monitor_is_off() {
    let mut m = ThreadMonitor::new();
    assert_eq!(m.started("a".to_string(), None), 0);
    assert_eq!(m.started("b".to_string(), None), 1);
    m.turn_on();
    assert_eq!(m.started("c".to_string(), None), 2);
    assert_eq!(m.started_at("d".to_string(), None, OffsetDateTime::UNIX_EPOCH), 3);
    let v = m.process().unwrap();
    assert_eq!(v.len(), 2);
    assert_eq!(started(&v[0]).0, 2);
    assert_eq!(started(&v[1]).0, 3);
}

#[test]
fn messages_come_in_the_order_they_were_told() {
    let mut m = ThreadMonitor::new();
    m.turn_on();
    let tm = OffsetDateTime::UNIX_EPOCH;
    let n = m.started_at("first".to_string(), Some(SharedState::new()), tm);
    let k = m.started_at("second".to_string(), None, tm);
    m.finished_at(n, "first".to_string(), tm);
    m.finished_at(k, "second".to_string(), tm);
    let v = m.process().unwrap();
    assert_eq!(v.len(), 4);
    assert_eq!(started(&v[0]), (0, "first", tm, true));
    assert_eq!(started(&v[1]), (1, "second", tm, false));
    assert_eq!(finished(&v[2]), (0, "first", tm));
    assert_eq!(finished(&v[3]), (1, "second", tm));
}

#[test]
fn messages_are_taken_once() {
    let mut m = ThreadMonitor::new();
    m.turn_on();
    m.started("a".to_string(), None);
    assert_eq!(m.process().unwrap().len(), 1);
    assert_eq!(m.process().unwrap().len(), 0);
}

#[test]
fn many_messages_stay_in_order() {
    let mut m = ThreadMonitor::new();
    m.turn_on();
    for _ in 0..200 {
        m.started("t".to_string(), None);
    }
    let v = m.process().unwrap();
    assert_eq!(v.len(), 200);
    for i in 0..200 {
        assert_eq!(started(&v[i]).0, i);
    }
}

#[test]
fn a_monitor_that_is_off_keeps_what_it_has() {
    let mut m = ThreadMonitor::new();
    m.turn_on();
    m.started("kept".to_string(), None);
    m.turn_off();
    m.started("lost".to_string(), None);
    m.finished(1, "lost".to_string());
    assert!(m.process().is_none());
    m.turn_on();
    let v = m.process().unwrap();
    assert_eq!(v.len(), 1);
    assert_eq!(started(&v[0]).1, "kept");
}

#[test]
fn the_clock_gives_the_time_of_a_message() {
    let mut m = ThreadMonitor::new();
    m.turn_on();
    m.started("a".to_string(), None);
    m.finished(0, "a".to_string());
    let v = m.process().unwrap();
    let start = started(&v[0]).2;
    assert!(start > OffsetDateTime::UNIX_EPOCH);
    assert!(finished(&v[1]).2 > OffsetDateTime::UNIX_EPOCH);
}

#[test]
fn a_run_ends_under_the_number_and_name_of_its_start() {
    let mut m = ThreadMonitor::new();
    m.turn_on();
    m.started("other".to_string(), None);
    let run = ThreadRun::begin(&mut m, "worker".to_string(), None);
    assert_eq!(run.n, 1);
    assert_eq!(run.name, "worker");
    run.end(&mut m);
    let v = m.process().unwrap();
    assert_eq!(v.len(), 3);
    assert_eq!(started(&v[1]).0, 1);
    assert_eq!(started(&v[1]).1, "worker");
    assert_eq!(finished(&v[2]).0, 1);
    assert_eq!(finished(&v[2]).1, "worker");
}

#[test]
fn a_watched_run_ends_done() {
    let mut m = ThreadMonitor::new();
    m.turn_on();
    let shared = SharedState::new();
    let run = ThreadRun::begin(&mut m, "worker".to_string(), Some(shared.clone()));
    shared.cell.lock().unwrap().payload();
    run.end_watched(&mut shared.cell.lock().unwrap(), &mut m);
    assert_eq!(shared.cell.lock().unwrap().get(), Some(State::Done));
    let v = m.process().unwrap();
    assert_eq!(v.len(), 2);
    match &v[0] {
        ThreadStatus::Started { state: Some(state), .. } => {
            assert_eq!(state.cell.lock().unwrap().get(), Some(State::Done))
        }
        _ => panic!("the start comes first, with its state"),
    }
    assert_eq!(finished(&v[1]).1, "worker");
}

#[test]
fn a_thread_without_a_name_goes_by_its_id() {
    assert_eq!(thread_label(Some("worker"), "ThreadId(7)".to_string()), "worker");
    assert_eq!(thread_label(Some(""), "ThreadId(7)".to_string()), "");
    assert_eq!(thread_label(None, "ThreadId(7)".to_string()), "ThreadId(7)");
}
