use std::sync::Arc;
use std::time::Duration;

use thread_monitor::monitor::info::ThreadInfoIteratorInner;
use thread_monitor::monitor::{ThreadInfo, ThreadInfoIterator};

fn info(payload: usize) -> ThreadInfo {
    ThreadInfo { payload, idle: 1, wait: 2, measures: 3, interval: Duration::from_secs(4) }
}

fn filled(sz: usize, items: usize) -> ThreadInfoIterator {
    let mut inner = ThreadInfoIteratorInner::new(sz);
    for i in 0..items {
        inner.push(Arc::new(format!("t{}", i)), info(i));
    }
    ThreadInfoIterator::new(inner)
}

fn names(mut iter: ThreadInfoIterator) -> Vec<String> {
    let mut v = Vec::new();
    while let Some(item) = iter.next() {
        v.push(item.name().to_string());
    }
    assert!(iter.next().is_none());
    v
}

#[test]
fn room_is_slots_or_a_vector() {
    assert!(matches!(ThreadInfoIteratorInner::new(0), ThreadInfoIteratorInner::Vec(_)));
    assert!(matches!(ThreadInfoIteratorInner::new(16), ThreadInfoIteratorInner::Vec(_)));
    assert!(matches!(ThreadInfoIteratorInner::new(17), ThreadInfoIteratorInner::Static(_)));
}

#[test]
fn items_come_out_last_first() {
    assert_eq!(names(filled(3, 3)), vec!["t2", "t1", "t0"]);
}

#[test]
fn items_come_out_last_first_whatever_the_room() {
    for sz in vec![0usize, 1, 16, 17, 100] {
        let v = names(filled(sz, 20));
        assert_eq!(v.len(), 20);
        for i in 0..20 {
            assert_eq!(v[i], format!("t{}", 19 - i));
        }
    }
}

#[test]
fn without_items_nothing_comes_out() {
    assert!(names(filled(0, 0)).is_empty());
    assert!(names(filled(17, 0)).is_empty());
}

#[test]
fn an_item_says_what_was_filed() {
    let mut iter = filled(1, 1);
    let item = iter.next().unwrap();
    assert_eq!(item.name(), "t0");
    let seen = item.info();
    assert_eq!(seen.payload, 0);
    assert_eq!(seen.idle, 1);
    assert_eq!(seen.wait, 2);
    assert_eq!(seen.measures, 3);
    assert_eq!(seen.interval, Duration::from_secs(4));
    let copy = item.clone();
    assert_eq!(copy.name(), "t0");
}

fn in_slots(items: usize) -> ThreadInfoIteratorInner {
    let mut source = filled(items, items);
    let mut slots = ThreadInfoIteratorInner::new(17);
    if let ThreadInfoIteratorInner::Static(ar) = &mut slots {
        for i in 0..items {
            ar[3 * i] = source.next();
        }
    }
    slots
}

#[test]
fn slots_come_out_first_first() {
    assert_eq!(names(ThreadInfoIterator::new(in_slots(4))), vec!["t3", "t2", "t1", "t0"]);
}

#[test]
fn slots_move_to_a_vector() {
    let mut inner = in_slots(2);
    inner.push(Arc::new("new".to_string()), info(9));
    assert!(matches!(inner, ThreadInfoIteratorInner::Vec(_)));
    assert_eq!(names(ThreadInfoIterator::new(inner)), vec!["new", "t0", "t1"]);
}
