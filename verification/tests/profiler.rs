use std::sync::{Arc, Mutex};

use thread_monitor::monitor::profiler::{
    Profiler, ProfilerAction, WatcherPoll, DEFAULT_SAMPLES_PER_SEC,
};
use thread_monitor::{Counts, SharedState, StateWatcher};

fn watcher() -> StateWatcher {
    StateWatcher {
        state: SharedState::new(),
        counts: Arc::new(Mutex::new(Counts::new())),
    }
}

fn twin(w: &StateWatcher) -> StateWatcher {
    StateWatcher { state: w.state.clone(), counts: w.counts.clone() }
}

fn is_at(profiler: &Profiler, i: usize, w: &StateWatcher) -> bool {
    Arc::ptr_eq(&profiler.watcher(i).state.cell, &w.state.cell)
        && Arc::ptr_eq(&profiler.watcher(i).counts, &w.counts)
}

fn round(profiler: &mut Profiler) {
    let mut watching = Vec::new();
    for i in 0..profiler.len() {
        let w = profiler.watcher(i);
        let state = w.state.cell.lock().unwrap();
        watching.push(StateWatcher::process(&state, &mut w.counts.lock().unwrap()));
    }
    profiler.sampled(&watching);
}

#[test]
fn the_pause_follows_from_the_rate() {
    assert_eq!(Profiler::new(DEFAULT_SAMPLES_PER_SEC).pause_nanos(), 9_900_990);
    assert_eq!(Profiler::new(0).pause_nanos(), 1_000_000_000);
    assert_eq!(Profiler::new(9).pause_nanos(), 100_000_000);
    assert_eq!(Profiler::new(u16::MAX).pause_nanos(), 15_258);
}

#[test]
fn a_fast_profiler_takes_in_one_watcher_per_round() {
    let mut p = Profiler::new(10);
    assert_eq!(p.received(WatcherPoll::Received(watcher())), ProfilerAction::Sample);
    assert_eq!(p.len(), 1);
    round(&mut p);
    assert_eq!(p.received(WatcherPoll::Empty), ProfilerAction::Sample);
    round(&mut p);
    assert_eq!(p.received(WatcherPoll::Disconnected), ProfilerAction::Stop);
}

#[test]
fn a_slow_profiler_takes_in_all_watchers() {
    let mut p = Profiler::new(9);
    assert_eq!(p.received(WatcherPoll::Received(watcher())), ProfilerAction::Poll);
    assert_eq!(p.received(WatcherPoll::Received(watcher())), ProfilerAction::Poll);
    assert_eq!(p.received(WatcherPoll::Empty), ProfilerAction::Sample);
    assert_eq!(p.len(), 2);
    round(&mut p);
    assert_eq!(p.received(WatcherPoll::Received(watcher())), ProfilerAction::Poll);
    assert_eq!(p.received(WatcherPoll::Disconnected), ProfilerAction::Sample);
    round(&mut p);
    assert_eq!(p.received(WatcherPoll::Disconnected), ProfilerAction::Stop);
}

#[test]
fn the_last_watcher_to_retire_leaves_first() {
    let cells = vec![watcher(), watcher(), watcher(), watcher()];
    let mut p = Profiler::new(100);
    for cell in &cells {
        p.received(WatcherPoll::Received(twin(cell)));
    }
    p.sampled(&vec![false, true, false, true]);
    assert_eq!(p.len(), 3);
    assert!(is_at(&p, 0, &cells[0]));
    assert!(is_at(&p, 1, &cells[1]));
    assert!(is_at(&p, 2, &cells[3]));
    p.sampled(&vec![false, true, true]);
    assert_eq!(p.len(), 2);
    assert!(is_at(&p, 0, &cells[3]));
    assert!(is_at(&p, 1, &cells[1]));
    p.sampled(&vec![true, true]);
    assert_eq!(p.len(), 2);
}

#[test]
fn a_round_retires_one_watcher() {
    let cells = vec![watcher(), watcher(), watcher()];
    let mut p = Profiler::new(100);
    for cell in &cells {
        p.received(WatcherPoll::Received(twin(cell)));
    }
    round(&mut p);
    assert_eq!(p.len(), 3);
    for cell in &cells {
        cell.state.cell.lock().unwrap().done();
    }
    for left in vec![2usize, 1, 0, 0] {
        round(&mut p);
        assert_eq!(p.len(), left);
    }
    for cell in &cells {
        assert_eq!(cell.counts.lock().unwrap().measures, 1);
    }
}
