//! Reports on one thread, each on what was sampled since the one before.

use std::sync::Arc;
use std::time::{Duration, Instant};

use vstd::prelude::*;

use super::info::ThreadInfo;
use crate::cell::{self, SharedCounts, SharedState};
use crate::clock;
use crate::count;
use crate::state::State;
use crate::watcher::{self, Counts, StateWatcher};

verus! {

/// What was sampled between two readings of the counters, over a span of `interval`.
pub open spec fn report(seen: Counts, prev: Counts, interval: Duration) -> ThreadInfo {
    ThreadInfo {
        payload: count::difference(seen.payload, prev.payload),
        idle: count::difference(seen.idle, prev.idle),
        wait: count::difference(seen.wait, prev.wait),
        measures: count::difference(seen.measures, prev.measures),
        interval,
    }
}

/// How many of the samples found the thread in `state`.
pub open spec fn sightings(states: Seq<State>, state: State) -> nat
    decreases states.len(),
{
    if states.len() == 0 {
        0
    } else if states.last() == state {
        sightings(states.drop_last(), state) + 1
    } else {
        sightings(states.drop_last(), state)
    }
}

/// The report tells how often `states` were found: each state as often as it was seen, and as
/// `measures` all samples but those of a thread that was done. Whole turns of a counter do not
/// show.
pub open spec fn tells_of(info: ThreadInfo, states: Seq<State>) -> bool {
    &&& info.payload == sightings(states, State::Payload) as int % count::turn()
    &&& info.idle == sightings(states, State::Idle) as int % count::turn()
    &&& info.wait == sightings(states, State::Wait) as int % count::turn()
    &&& info.measures == (states.len() - sightings(states, State::Done)) % count::turn()
}

/// The counters of a watched thread, and how they stood at the last report on it.
pub struct ThreadStatistics {
    counts: SharedCounts,
    prev: Counts,
    prev_tm: Instant,
}

/// The counters that the reports are on, how they stood at the last report, and when it was made.
pub struct StatisticsModel {
    pub counts: SharedCounts,
    pub prev: Counts,
    pub prev_tm: Instant,
}

impl View for ThreadStatistics {
    type V = StatisticsModel;

    closed spec fn view(&self) -> StatisticsModel {
        StatisticsModel { counts: self.counts, prev: self.prev, prev_tm: self.prev_tm }
    }
}

impl ThreadStatistics {
    /// The counters that the reports are made from.
    pub fn counts(&self) -> (counts: &SharedCounts)
        ensures
            *counts == self@.counts,
    {
        &self.counts
    }

    /// Reports on the time since the last report, from the counters as they are now.
    ///
    /// The clock is read twice: the first reading ends the time that the report is on, the second
    /// one begins the time for the next report.
    pub fn get(&mut self, seen: Counts) -> (info: ThreadInfo)
        ensures
            exists|at: Instant| #[trigger]
                clock::in_order(at, final(self)@.prev_tm) && info == report(
                    seen,
                    old(self)@.prev,
                    clock::time_between(at, old(self)@.prev_tm),
                ),
            final(self)@.counts == old(self)@.counts,
            final(self)@.prev == seen,
            info.payload == (seen.payload - old(self)@.prev.payload) % (usize::MAX + 1),
            info.idle == (seen.idle - old(self)@.prev.idle) % (usize::MAX + 1),
            info.wait == (seen.wait - old(self)@.prev.wait) % (usize::MAX + 1),
            info.measures == (seen.measures - old(self)@.prev.measures) % (usize::MAX + 1),
            exists|at: Instant| #[trigger]
                clock::in_order(at, final(self)@.prev_tm) && info.interval == clock::time_between(
                    at,
                    old(self)@.prev_tm,
                ),
    {
        let (at, now) = clock::readings();
        let info = self.get_at(seen, at, now);
        assert(clock::in_order(at, self@.prev_tm));
        info
    }

    /// Reports on the time from the last report to `at`, from the counters as they are then. The
    /// next report is on the time from `now`.
    pub fn get_at(&mut self, seen: Counts, at: Instant, now: Instant) -> (info: ThreadInfo)
        ensures
            info == report(seen, old(self)@.prev, clock::time_between(at, old(self)@.prev_tm)),
            final(self)@ == (StatisticsModel {
                counts: old(self)@.counts,
                prev: seen,
                prev_tm: now,
            }),
            info.payload == (seen.payload - old(self)@.prev.payload) % (usize::MAX + 1),
            info.idle == (seen.idle - old(self)@.prev.idle) % (usize::MAX + 1),
            info.wait == (seen.wait - old(self)@.prev.wait) % (usize::MAX + 1),
            info.measures == (seen.measures - old(self)@.prev.measures) % (usize::MAX + 1),
            info.interval == clock::time_between(at, old(self)@.prev_tm),
    {
        let prev = self.prev;
        let interval = clock::duration_since(at, self.prev_tm);
        self.prev = seen;
        self.prev_tm = now;
        proof {
            count::lemma_difference(seen.payload, prev.payload);
            count::lemma_difference(seen.idle, prev.idle);
            count::lemma_difference(seen.wait, prev.wait);
            count::lemma_difference(seen.measures, prev.measures);
        }
        ThreadInfo {
            payload: seen.payload.wrapping_sub(prev.payload),
            idle: seen.idle.wrapping_sub(prev.idle),
            wait: seen.wait.wrapping_sub(prev.wait),
            measures: seen.measures.wrapping_sub(prev.measures),
            interval,
        }
    }
}

/// Begins to watch the thread whose state is `state`: makes counters for it, and gives out the
/// watcher, for whoever samples, and the statistics, for whoever reports. Both speak of the new
/// counters, which stand at zero, and on which nothing has been reported.
///
/// The time from which the first report counts is what the clock gives.
pub fn watcher(state: SharedState) -> (r: (StateWatcher, ThreadStatistics))
    ensures
        r.0.state == state,
        r.0.counts == r.1@.counts,
        cell::first_counts(*r.0.counts) == Counts::zero(),
        r.1@.prev == Counts::zero(),
        cell::first_counts(*r.0.counts) == (Counts {
            payload: 0,
            idle: 0,
            wait: 0,
            unknown: 0,
            measures: 0,
        }),
        r.1@.prev == (Counts { payload: 0, idle: 0, wait: 0, unknown: 0, measures: 0 }),
        exists|at: Instant| clock::in_order(at, r.1@.prev_tm),
{
    let counts = Arc::new(cell::counts_cell(Counts::new()));
    let (at, prev_tm) = clock::readings();
    let stats = ThreadStatistics { counts: counts.clone(), prev: Counts::new(), prev_tm };
    assert(clock::in_order(at, stats@.prev_tm));
    (StateWatcher { state, counts }, stats)
}

/// Each count in a report is what was added to its own counter since the last one, short of whole
/// turns, and the interval is the one that is given.
pub proof fn law_report_is_what_was_added(seen: Counts, prev: Counts, interval: Duration)
    ensures
        ({
            let info = report(seen, prev, interval);
            &&& info.payload == (seen.payload - prev.payload) % (usize::MAX + 1)
            &&& info.idle == (seen.idle - prev.idle) % (usize::MAX + 1)
            &&& info.wait == (seen.wait - prev.wait) % (usize::MAX + 1)
            &&& info.measures == (seen.measures - prev.measures) % (usize::MAX + 1)
            &&& info.interval == interval
        }),
{
    count::lemma_difference(seen.payload, prev.payload);
    count::lemma_difference(seen.idle, prev.idle);
    count::lemma_difference(seen.wait, prev.wait);
    count::lemma_difference(seen.measures, prev.measures);
}

/// A report tells of the samples taken since the last report, and of no others. `first` is what
/// the counters stood at when they were made, `before` are the samples up to the last report
/// (none, if this is the first one) and `since` those after it.
pub proof fn law_report_counts_the_samples(
    first: Counts,
    before: Seq<State>,
    since: Seq<State>,
    interval: Duration,
)
    ensures
        tells_of(
            report(first.sampled_all(before + since), first.sampled_all(before), interval),
            since,
        ),
{
    let prev = first.sampled_all(before);
    watcher::lemma_sampled_concat(first, before, since);
    lemma_moves(prev, since);
    lemma_sightings(since);
    let seen = prev.sampled_all(since);
    count::lemma_difference_of_moves(seen.payload, prev.payload, sightings(since, State::Payload));
    count::lemma_difference_of_moves(seen.idle, prev.idle, sightings(since, State::Idle));
    count::lemma_difference_of_moves(seen.wait, prev.wait, sightings(since, State::Wait));
    count::lemma_difference_of_moves(
        seen.measures,
        prev.measures,
        (since.len() - sightings(since, State::Done)) as nat,
    );
}

/// Each sample moves the counters on by one.
proof fn lemma_moves(prev: Counts, states: Seq<State>)
    ensures
        ({
            let seen = prev.sampled_all(states);
            &&& seen.payload == (prev.payload + sightings(states, State::Payload)) % count::turn()
            &&& seen.idle == (prev.idle + sightings(states, State::Idle)) % count::turn()
            &&& seen.wait == (prev.wait + sightings(states, State::Wait)) % count::turn()
            &&& seen.measures == (prev.measures + states.len() - sightings(states, State::Done))
                % count::turn()
        }),
    decreases states.len(),
{
    if states.len() == 0 {
        count::lemma_successor(prev.payload as int, prev.payload);
        count::lemma_successor(prev.idle as int, prev.idle);
        count::lemma_successor(prev.wait as int, prev.wait);
        count::lemma_successor(prev.measures as int, prev.measures);
    } else {
        let before = states.drop_last();
        let seen = prev.sampled_all(before);
        lemma_moves(prev, before);
        count::lemma_successor(prev.payload + sightings(before, State::Payload), seen.payload);
        count::lemma_successor(prev.idle + sightings(before, State::Idle), seen.idle);
        count::lemma_successor(prev.wait + sightings(before, State::Wait), seen.wait);
        count::lemma_successor(
            prev.measures + before.len() - sightings(before, State::Done),
            seen.measures,
        );
    }
}

/// The samples that two successive reports tell of are those that one report would have told of,
/// up to whole turns.
pub proof fn law_reports_chain(
    seen: Counts,
    between: Counts,
    prev: Counts,
    first: Duration,
    second: Duration,
    both: Duration,
)
    ensures
        ({
            let a = report(between, prev, first);
            let b = report(seen, between, second);
            let info = report(seen, prev, both);
            &&& info.payload == (a.payload + b.payload) % count::turn()
            &&& info.idle == (a.idle + b.idle) % count::turn()
            &&& info.wait == (a.wait + b.wait) % count::turn()
            &&& info.measures == (a.measures + b.measures) % count::turn()
        }),
{
    count::law_differences_chain(seen.payload, between.payload, prev.payload);
    count::law_differences_chain(seen.idle, between.idle, prev.idle);
    count::law_differences_chain(seen.wait, between.wait, prev.wait);
    count::law_differences_chain(seen.measures, between.measures, prev.measures);
}

/// A state is not seen more often than there are samples, and no two states in one sample.
proof fn lemma_sightings(states: Seq<State>)
    ensures
        sightings(states, State::Payload) + sightings(states, State::Idle) + sightings(
            states,
            State::Wait,
        ) + sightings(states, State::Done) <= states.len(),
    decreases states.len(),
{
    if states.len() > 0 {
        lemma_sightings(states.drop_last());
    }
}

/// Where nothing was sampled since the last report, there is nothing to report.
pub proof fn law_report_without_samples(seen: Counts, interval: Duration)
    ensures
        report(seen, seen, interval) == (ThreadInfo {
            payload: 0,
            idle: 0,
            wait: 0,
            measures: 0,
            interval,
        }),
{
    count::lemma_difference(seen.payload, seen.payload);
    count::lemma_difference(seen.idle, seen.idle);
    count::lemma_difference(seen.wait, seen.wait);
    count::lemma_difference(seen.measures, seen.measures);
}

/// Every sample of the span is reported under one state: up to whole turns, the reported states
/// and the samples that found no state add up to `measures`.
pub proof fn law_report_balances(seen: Counts, prev: Counts, interval: Duration)
    requires
        seen.balanced(),
        prev.balanced(),
    ensures
        ({
            let info = report(seen, prev, interval);
            (info.payload + info.idle + info.wait + count::difference(seen.unknown, prev.unknown)
                - info.measures) % count::turn() == 0
        }),
{
    let info = report(seen, prev, interval);
    let unknown = count::difference(seen.unknown, prev.unknown);
    let sum = info.payload + info.idle + info.wait + unknown - info.measures;
    count::lemma_difference(seen.payload, prev.payload);
    count::lemma_difference(seen.idle, prev.idle);
    count::lemma_difference(seen.wait, prev.wait);
    count::lemma_difference(seen.unknown, prev.unknown);
    count::lemma_difference(seen.measures, prev.measures);
    let turns = (if seen.payload < prev.payload { 1int } else { 0 }) + (if seen.idle < prev.idle {
        1int
    } else {
        0
    }) + (if seen.wait < prev.wait { 1int } else { 0 }) + (if seen.unknown < prev.unknown {
        1int
    } else {
        0
    }) - (if seen.measures < prev.measures { 1int } else { 0 });
    let gained = seen.excess() - prev.excess();
    count::lemma_turns(sum, gained, turns);
    vstd::arithmetic::div_mod::lemma_sub_mod_noop(seen.excess(), prev.excess(), count::turn());
    vstd::arithmetic::div_mod::lemma_small_mod(0, count::turn() as nat);
}

} // verus!
