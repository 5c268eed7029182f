use std::sync::Arc;
use std::time::{Duration, Instant};

use thread_monitor::monitor::statistics::watcher;
use thread_monitor::{Counts, SharedState, StateWatcher, ThreadState};

fn counts(payload: usize, idle: usize, wait: usize, unknown: usize, measures: usize) -> Counts {
    Counts { payload, idle, wait, unknown, measures }
}

fn sample(w: &StateWatcher) -> bool {
    StateWatcher::process(&w.state.cell.lock().unwrap(), &mut w.counts.lock().unwrap())
}

#[test]
fn a_sample_is_counted_under_the_state_it_finds() {
    let mut s = ThreadState::new();
    let mut c = Counts::new();
    assert_eq!(c, counts(0, 0, 0, 0, 0));
    assert!(StateWatcher::process(&s, &mut c));
    assert_eq!(c, counts(0, 0, 0, 1, 1));
    s.payload();
    assert!(StateWatcher::process(&s, &mut c));
    assert!(StateWatcher::process(&s, &mut c));
    assert_eq!(c, counts(2, 0, 0, 1, 3));
    s.idle();
    assert!(StateWatcher::process(&s, &mut c));
    assert_eq!(c, counts(2, 1, 0, 1, 4));
    s.wait();
    assert!(StateWatcher::process(&s, &mut c));
    assert_eq!(c, counts(2, 1, 1, 1, 5));
}

#[test]
fn a_thread_that_is_done_is_not_counted() {
    let mut s = ThreadState::new();
    let mut c = Counts::new();
    s.done();
    assert!(!StateWatcher::process(&s, &mut c));
    assert!(!StateWatcher::process(&s, &mut c));
    assert_eq!(c, Counts::new());
}

#[test]
fn counters_wrap_around() {
    let mut s = ThreadState::new();
    let mut c = counts(usize::MAX, usize::MAX, usize::MAX, usize::MAX, usize::MAX);
    s.payload();
    assert!(StateWatcher::process(&s, &mut c));
    assert_eq!(c, counts(0, usize::MAX, usize::MAX, usize::MAX, 0));
    s.idle();
    assert!(StateWatcher::process(&s, &mut c));
    s.wait();
    assert!(StateWatcher::process(&s, &mut c));
    assert_eq!(c, counts(0, 0, 0, usize::MAX, 2));
}

#[test]
fn samples_balance() {
    let mut s = ThreadState::new();
    let mut c = Counts::new();
    for i in 0..100 {
        match i % 3 {
            0 => s.payload(),
            1 => s.idle(),
            _ => s.wait(),
        }
        StateWatcher::process(&s, &mut c);
    }
    assert_eq!(c.payload + c.idle + c.wait + c.unknown, c.measures);
    assert_eq!(c.measures, 100);
}

#[test]
fn both_halves_speak_of_the_same_new_counters() {
    let state = SharedState::new();
    let (w, stats) = watcher(state.clone());
    assert!(Arc::ptr_eq(&w.state.cell, &state.cell));
    assert!(Arc::ptr_eq(&w.counts, stats.counts()));
    assert_eq!(*w.counts.lock().unwrap(), counts(0, 0, 0, 0, 0));
}

#[test]
fn two_pairs_share_only_the_state() {
    let state = SharedState::new();
    let (w1, mut t1) = watcher(state.clone());
    let (w2, mut t2) = watcher(state.clone());
    assert!(Arc::ptr_eq(&w1.state.cell, &w2.state.cell));
    assert!(!Arc::ptr_eq(&w1.counts, &w2.counts));
    state.cell.lock().unwrap().payload();
    for _ in 0..3 {
        assert!(sample(&w1));
    }
    assert!(sample(&w2));
    let seen = *t2.counts().lock().unwrap();
    let info = t2.get(seen);
    assert_eq!((info.payload, info.idle, info.wait, info.measures), (1, 0, 0, 1));
    let seen = *t1.counts().lock().unwrap();
    let info = t1.get(seen);
    assert_eq!((info.payload, info.idle, info.wait, info.measures), (3, 0, 0, 3));
}

#[test]
fn the_first_report_counts_from_the_watcher_on() {
    let state = SharedState::new();
    let (old, _) = watcher(state.clone());
    state.cell.lock().unwrap().wait();
    assert!(sample(&old));
    let (w, mut stats) = watcher(state.clone());
    assert!(sample(&w));
    assert!(sample(&w));
    state.cell.lock().unwrap().done();
    assert!(!sample(&w));
    let seen = *stats.counts().lock().unwrap();
    let info = stats.get(seen);
    assert_eq!((info.payload, info.idle, info.wait, info.measures), (0, 0, 2, 2));
}

#[test]
fn a_report_tells_what_was_sampled_since_the_last_one() {
    let (_, mut stats) = watcher(SharedState::new());
    let start = Instant::now();
    let info = stats.get_at(counts(5, 4, 3, 2, 14), start, start);
    assert_eq!((info.payload, info.idle, info.wait, info.measures), (5, 4, 3, 14));
    let later = start + Duration::from_millis(250);
    let info = stats.get_at(counts(6, 4, 10, 2, 22), later, later);
    assert_eq!((info.payload, info.idle, info.wait, info.measures), (1, 0, 7, 8));
}

#[test]
fn the_interval_runs_from_report_to_report() {
    let (_, mut stats) = watcher(SharedState::new());
    let start = Instant::now();
    let after = |millis| start + Duration::from_millis(millis);
    stats.get_at(Counts::new(), start, after(10));
    let info = stats.get_at(Counts::new(), after(1000), after(1020));
    assert_eq!(info.interval, Duration::from_millis(990));
    let info = stats.get_at(Counts::new(), after(1250), after(1251));
    assert_eq!(info.interval, Duration::from_millis(230));
    let info = stats.get_at(Counts::new(), start, start);
    assert_eq!(info.interval, Duration::ZERO);
}

#[test]
fn without_samples_there_is_nothing_to_report() {
    let (_, mut stats) = watcher(SharedState::new());
    let seen = counts(7, 8, 9, 10, 34);
    stats.get(seen);
    let info = stats.get(seen);
    assert_eq!((info.payload, info.idle, info.wait, info.measures), (0, 0, 0, 0));
}

#[test]
fn a_report_goes_on_where_a_counter_wrapped() {
    let (_, mut stats) = watcher(SharedState::new());
    stats.get(counts(usize::MAX - 1, usize::MAX, 0, 0, usize::MAX));
    let info = stats.get(counts(2, 0, 1, 0, 5));
    assert_eq!((info.payload, info.idle, info.wait, info.measures), (4, 1, 1, 6));
}

#[test]
fn successive_reports_add_up() {
    let (_, mut one) = watcher(SharedState::new());
    let (_, mut two) = watcher(SharedState::new());
    let a = one.get(counts(3, 1, 4, 1, 9));
    let b = one.get(counts(8, 2, 6, 3, 19));
    let both = two.get(counts(8, 2, 6, 3, 19));
    assert_eq!(a.payload + b.payload, both.payload);
    assert_eq!(a.idle + b.idle, both.idle);
    assert_eq!(a.wait + b.wait, both.wait);
    assert_eq!(a.measures + b.measures, both.measures);
}

#[test]
fn the_clock_gives_the_length_of_the_span() {
    let before = Instant::now();
    let (_, mut stats) = watcher(SharedState::new());
    let info = stats.get(Counts::new());
    assert!(info.interval <= before.elapsed());
    let span = Duration::from_millis(2);
    let begun = Instant::now();
    while begun.elapsed() < span {}
    let again = Instant::now();
    let info = stats.get(Counts::new());
    assert!(info.interval >= span);
    let info = stats.get(Counts::new());
    assert!(info.interval <= again.elapsed());
}
