use std::sync::Arc;
use std::time::Instant;

use thread_monitor::monitor::table::{AskPoll, MonitorAction, StatTable, PAUSE_NANOS};
use thread_monitor::{Counts, SharedState, ThreadStatus};
use time::OffsetDateTime;

fn start(n: usize, name: &str, state: Option<&SharedState>) -> ThreadStatus {
    ThreadStatus::Started {
        n,
        name: name.to_string(),
        tm: OffsetDateTime::UNIX_EPOCH,
        state: state.cloned(),
    }
}

fn finish(n: usize) -> ThreadStatus {
    ThreadStatus::Finished { n, name: "f".to_string(), tm: OffsetDateTime::UNIX_EPOCH }
}

/// The action hands on a watcher of `state`, which samples into the counters of the last entry.
fn is_send(table: &StatTable, action: MonitorAction, state: &SharedState) -> bool {
    match action {
        MonitorAction::Send(w) => {
            Arc::ptr_eq(&w.state.cell, &state.cell)
                && Arc::ptr_eq(&w.counts, table.counts(table.len() - 1))
                && *w.counts.lock().unwrap() == Counts::new()
        }
        _ => false,
    }
}

/// Enters `batch`, handing every watcher on, and says how many there were.
fn enter(table: &mut StatTable, batch: Vec<ThreadStatus>) -> usize {
    let mut handed_on = 0;
    let mut action = table.begin(Some(batch));
    while let MonitorAction::Send(_) = action {
        handed_on += 1;
        action = table.sent(true);
    }
    assert!(matches!(action, MonitorAction::Poll));
    handed_on
}

fn report(table: &mut StatTable, seen: Vec<Counts>) -> Vec<(String, usize, usize)> {
    let (mut iter, next) = table.answer(&seen);
    assert!(matches!(next, MonitorAction::Sleep));
    let mut v = Vec::new();
    while let Some(item) = iter.next() {
        v.push((item.name().to_string(), item.info().payload, item.info().measures));
    }
    v
}

fn names(table: &mut StatTable) -> Vec<String> {
    let mut v = Vec::new();
    let seen = vec![Counts::new(); table.len()];
    for (name, _, _) in report(table, seen) {
        v.push(name);
    }
    v.reverse();
    v
}

#[test]
fn without_messages_from_the_monitor_it_stops() {
    let mut table = StatTable::new();
    assert!(matches!(table.begin(None), MonitorAction::Stop));
}

#[test]
fn an_empty_batch_leads_to_the_questions() {
    let mut table = StatTable::new();
    assert!(matches!(table.begin(Some(vec![])), MonitorAction::Poll));
    assert_eq!(table.len(), 0);
}

#[test]
fn a_thread_without_a_state_is_not_watched() {
    let mut table = StatTable::new();
    assert_eq!(enter(&mut table, vec![start(0, "a", None), start(1, "b", None)]), 0);
    assert_eq!(table.len(), 0);
}

#[test]
fn watchers_are_handed_on_one_by_one() {
    let (a, b) = (SharedState::new(), SharedState::new());
    let mut table = StatTable::new();
    let batch = vec![start(0, "x", None), start(1, "a", Some(&a)), start(2, "b", Some(&b))];
    let action = table.begin(Some(batch));
    assert_eq!(table.len(), 1);
    assert!(is_send(&table, action, &a));
    let action = table.sent(true);
    assert_eq!(table.len(), 2);
    assert!(is_send(&table, action, &b));
    assert!(!Arc::ptr_eq(table.counts(0), table.counts(1)));
    assert!(matches!(table.sent(true), MonitorAction::Poll));
}

#[test]
fn what_follows_a_failed_send_is_dropped() {
    let (a, b) = (SharedState::new(), SharedState::new());
    let mut table = StatTable::new();
    let batch = vec![start(1, "a", Some(&a)), finish(1), start(2, "b", Some(&b))];
    let action = table.begin(Some(batch));
    assert!(is_send(&table, action, &a));
    assert!(matches!(table.sent(false), MonitorAction::Poll));
    assert_eq!(names(&mut table), vec!["a"]);
    assert!(matches!(table.begin(Some(vec![])), MonitorAction::Poll));
    assert_eq!(names(&mut table), vec!["a"]);
}

#[test]
fn a_finished_thread_leaves_its_place_to_the_last() {
    let w = SharedState::new();
    let mut table = StatTable::new();
    let batch = vec![
        start(0, "a", Some(&w)),
        start(1, "b", Some(&w)),
        start(2, "c", Some(&w)),
        start(3, "d", Some(&w)),
    ];
    assert_eq!(enter(&mut table, batch), 4);
    assert_eq!(names(&mut table), vec!["a", "b", "c", "d"]);
    enter(&mut table, vec![finish(1)]);
    assert_eq!(names(&mut table), vec!["a", "d", "c"]);
    enter(&mut table, vec![finish(9)]);
    assert_eq!(names(&mut table), vec!["a", "d", "c"]);
    enter(&mut table, vec![finish(2)]);
    assert_eq!(names(&mut table), vec!["a", "d"]);
}

#[test]
fn of_two_entries_under_one_number_the_last_goes() {
    let w = SharedState::new();
    let mut table = StatTable::new();
    let batch = vec![
        start(7, "old", Some(&w)),
        start(7, "new", Some(&w)),
        start(8, "other", Some(&w)),
        finish(7),
    ];
    enter(&mut table, batch);
    assert_eq!(names(&mut table), vec!["old", "other"]);
}

#[test]
fn a_thread_that_came_and_went_leaves_no_trace() {
    let w = SharedState::new();
    let mut table = StatTable::new();
    let batch = vec![
        start(0, "stays", Some(&w)),
        start(1, "goes", Some(&w)),
        start(2, "stays too", Some(&w)),
        finish(1),
    ];
    assert_eq!(enter(&mut table, batch), 3);
    assert_eq!(names(&mut table), vec!["stays", "stays too"]);
}

#[test]
fn questions_decide_what_comes_next() {
    let table = StatTable::new();
    assert!(matches!(table.asked(AskPoll::Asked), MonitorAction::Collect));
    assert!(matches!(table.asked(AskPoll::Empty), MonitorAction::Sleep));
    assert!(matches!(table.asked(AskPoll::Disconnected), MonitorAction::Stop));
    assert_eq!(PAUSE_NANOS, 300_000_000);
}

#[test]
fn reports_tell_what_was_sampled_since_the_last() {
    let w = SharedState::new();
    let mut table = StatTable::new();
    enter(&mut table, vec![start(0, "a", Some(&w)), start(1, "b", Some(&w))]);
    let one = Counts { payload: 2, idle: 1, wait: 0, unknown: 0, measures: 3 };
    let two = Counts { payload: 9, idle: 1, wait: 0, unknown: 1, measures: 11 };
    assert_eq!(
        report(&mut table, vec![one, two]),
        vec![("b".to_string(), 9, 11), ("a".to_string(), 2, 3)]
    );
    assert_eq!(
        report(&mut table, vec![two, two]),
        vec![("b".to_string(), 0, 0), ("a".to_string(), 7, 8)]
    );
}

#[test]
fn reports_on_many_threads_come_in_reverse() {
    let w = SharedState::new();
    let mut table = StatTable::new();
    for n in 0..40 {
        enter(&mut table, vec![start(n, &format!("t{}", n), Some(&w))]);
    }
    let v = report(&mut table, vec![Counts::new(); 40]);
    assert_eq!(v.len(), 40);
    for i in 0..40 {
        assert_eq!(v[i].0, format!("t{}", 39 - i));
    }
}

#[test]
fn two_entries_of_one_state_have_their_own_counters() {
    let w = SharedState::new();
    let mut table = StatTable::new();
    enter(&mut table, vec![start(0, "a", Some(&w)), start(1, "b", Some(&w))]);
    assert!(!Arc::ptr_eq(table.counts(0), table.counts(1)));
}

#[test]
fn the_table_holds_the_threads_that_run() {
    let w = SharedState::new();
    let mut table = StatTable::new();
    let batch = vec![
        finish(4),
        start(0, "a", Some(&w)),
        start(1, "b", None),
        start(2, "c", Some(&w)),
        finish(0),
        start(3, "d", Some(&w)),
        start(4, "e", Some(&w)),
        finish(1),
        finish(3),
        finish(0),
    ];
    assert_eq!(enter(&mut table, batch), 4);
    assert_eq!(names(&mut table), vec!["c", "e"]);
}

#[test]
fn an_answer_starts_the_next_one() {
    let w = SharedState::new();
    let mut table = StatTable::new();
    enter(&mut table, vec![start(0, "a", Some(&w)), start(1, "b", Some(&w))]);
    let one = Counts { payload: 2, idle: 0, wait: 0, unknown: 0, measures: 2 };
    let two = Counts { payload: 5, idle: 0, wait: 0, unknown: 0, measures: 5 };
    let began = Instant::now();
    let (mut first, _) = table.answer(&vec![one, one]);
    enter(&mut table, vec![start(2, "stateless", None), finish(2)]);
    let (mut second, _) = table.answer(&vec![two, two]);
    let passed = began.elapsed();
    loop {
        match (first.next(), second.next()) {
            (Some(a), Some(b)) => {
                assert_eq!(a.name(), b.name());
                assert_eq!((a.info().payload, b.info().payload), (2, 3));
                assert_eq!((a.info().measures, b.info().measures), (2, 3));
                assert!(b.info().interval <= passed);
            }
            (None, None) => break,
            _ => panic!("one answer is on more threads than the other"),
        }
    }
}
