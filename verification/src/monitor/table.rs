//! The table of watched threads, and the steps of the thread that keeps it.

use std::sync::Arc;
use std::time::Instant;

use time::OffsetDateTime;
use vstd::prelude::*;

use super::info::{self, ItemModel, ThreadInfoIterator, ThreadInfoIteratorInner};
use super::statistics::{self, watcher, ThreadStatistics};
use super::swap;
use crate::cell::{self, SharedCounts, SharedState};
use crate::clock;
use crate::state::State;
use crate::thread_monitor::ThreadStatus;
use crate::watcher::{Counts, StateWatcher};

verus! {

/// A watched thread: its number and name, when it started, and the statistics on it.
struct StatEntry {
    n: usize,
    name: Arc<String>,
    tm: OffsetDateTime,
    stats: ThreadStatistics,
}

/// A watched thread: its counters, how they stood at the last report on it, and when that was.
pub struct EntryModel {
    pub n: usize,
    pub name: Seq<char>,
    pub tm: OffsetDateTime,
    pub counts: SharedCounts,
    pub prev: Counts,
    pub prev_tm: Instant,
}

impl View for StatEntry {
    type V = EntryModel;

    closed spec fn view(&self) -> EntryModel {
        EntryModel {
            n: self.n,
            name: self.name@,
            tm: self.tm,
            counts: self.stats@.counts,
            prev: self.stats@.prev,
            prev_tm: self.stats@.prev_tm,
        }
    }
}

/// The numbers of the threads in a table.
pub open spec fn numbers(entries: Seq<EntryModel>) -> Seq<usize> {
    entries.map_values(|entry: EntryModel| entry.n)
}

/// How many entries of the table are under the number `n`.
pub open spec fn entries_under(entries: Seq<EntryModel>, n: usize) -> nat {
    numbers(entries).to_multiset().count(n)
}

/// The number of the thread that a message is on.
pub open spec fn number_of(status: ThreadStatus) -> usize {
    match status {
        ThreadStatus::Started { n, .. } => n,
        ThreadStatus::Finished { n, .. } => n,
    }
}

/// What is made for a thread that comes into the table: its counters, and the time from which the
/// first report on it counts.
pub struct Fresh {
    pub counts: SharedCounts,
    pub now: Instant,
}

/// The name of the thread that a message is on, and the time that it gives.
pub open spec fn name_and_time(status: ThreadStatus) -> (Seq<char>, OffsetDateTime) {
    match status {
        ThreadStatus::Started { name, tm, .. } => (name@, tm),
        ThreadStatus::Finished { name, tm, .. } => (name@, tm),
    }
}

/// The entry of a thread that comes into the table by the message `status`.
pub open spec fn entry_for(status: ThreadStatus, fresh: Fresh) -> EntryModel {
    EntryModel {
        n: number_of(status),
        name: name_and_time(status).0,
        tm: name_and_time(status).1,
        counts: fresh.counts,
        prev: Counts::zero(),
        prev_tm: fresh.now,
    }
}

/// The table after one message. A thread that started with a state comes in last, with `fresh`; of
/// a thread that finished, the last entry under its number goes.
pub open spec fn entered(entries: Seq<EntryModel>, status: ThreadStatus, fresh: Fresh) -> Seq<
    EntryModel,
> {
    match status {
        ThreadStatus::Started { state: Some(_), .. } => entries.push(entry_for(status, fresh)),
        ThreadStatus::Started { .. } => entries,
        ThreadStatus::Finished { n, .. } => match numbers(entries).index_of_last(n) {
            Some(i) => swap::swap_removed(entries, i),
            None => entries,
        },
    }
}

/// The state by which a message asks to have its thread watched.
pub open spec fn to_watch(status: ThreadStatus) -> Option<SharedState> {
    match status {
        ThreadStatus::Started { state, .. } => state,
        ThreadStatus::Finished { .. } => None,
    }
}

/// The table after each of `messages`, in their order. `fresh` has what is made for each of them,
/// which matters for those that ask to have a thread watched.
pub open spec fn entered_all(
    entries: Seq<EntryModel>,
    messages: Seq<ThreadStatus>,
    fresh: Seq<Fresh>,
) -> Seq<EntryModel>
    decreases messages.len(),
{
    if messages.len() == 0 {
        entries
    } else {
        entered_all(
            entered(entries, messages.first(), fresh.first()),
            messages.drop_first(),
            fresh.drop_first(),
        )
    }
}

/// Message `i` asks to have its thread watched, and no later one says that the thread has finished.
pub open spec fn is_running(messages: Seq<ThreadStatus>, i: int) -> bool {
    &&& to_watch(messages[i]) is Some
    &&& forall|j: int|
        i < j < messages.len() && (#[trigger] messages[j]) is Finished ==> number_of(messages[j])
            != number_of(messages[i])
}

/// How many of `messages` are taken before there is a watcher to hand on: all, if none asks for
/// one, else those up to the first that does.
pub open spec fn taken(messages: Seq<ThreadStatus>) -> nat
    decreases messages.len(),
{
    if messages.len() == 0 {
        0
    } else if to_watch(messages.first()) is Some {
        1
    } else {
        1 + taken(messages.drop_first())
    }
}

/// `fresh`, `n` times.
pub open spec fn repeated(fresh: Fresh, n: nat) -> Seq<Fresh> {
    Seq::new(n, |i: int| fresh)
}

/// A table of watched threads, with the messages still to be entered in it.
pub struct TableModel {
    pub entries: Seq<EntryModel>,
    pub pending: Seq<ThreadStatus>,
}

impl TableModel {
    /// The table after the messages up to the first watcher to hand on, which is made with
    /// `fresh`.
    pub open spec fn advanced(self, fresh: Fresh) -> TableModel {
        let k = taken(self.pending);
        TableModel {
            entries: entered_all(self.entries, self.pending.take(k as int), repeated(fresh, k)),
            pending: self.pending.skip(k as int),
        }
    }

    /// What comes next when the table is advanced.
    pub open spec fn next_action(self, fresh: Fresh) -> MonitorAction {
        let k = taken(self.pending) as int;
        if k == 0 {
            MonitorAction::Poll
        } else {
            match to_watch(self.pending[k - 1]) {
                Some(state) => MonitorAction::Send(StateWatcher { state, counts: fresh.counts }),
                None => MonitorAction::Poll,
            }
        }
    }

    /// The table was advanced to `after`, and `action` comes next. The counters of a watcher that
    /// is to be handed on were made with zeros, and the first report on its thread counts from a
    /// reading of the clock.
    pub open spec fn steps_to(self, after: TableModel, action: MonitorAction, fresh: Fresh) -> bool {
        &&& after == self.advanced(fresh)
        &&& action == self.next_action(fresh)
        &&& action is Send ==> cell::first_counts(*fresh.counts) == Counts::zero()
        &&& action is Send ==> exists|at: Instant| clock::in_order(at, fresh.now)
    }
}

/// The report says what was sampled of the thread since the last report on it, over the time from
/// then until some reading of the clock. The next report is on the time from the reading after it.
pub open spec fn is_report_on(
    item: ItemModel,
    before: EntryModel,
    seen: Counts,
    after: EntryModel,
) -> bool {
    &&& item.name == before.name
    &&& exists|at: Instant| #[trigger]
        clock::in_order(at, after.prev_tm) && item.info == statistics::report(
            seen,
            before.prev,
            clock::time_between(at, before.prev_tm),
        )
    &&& after == (EntryModel { prev: seen, prev_tm: after.prev_tm, ..before })
}

/// Each of `items` is the report on the thread at its place of the table, whose counters were
/// seen at its place of `seen`.
pub open spec fn are_reports_on(
    items: Seq<ItemModel>,
    before: Seq<EntryModel>,
    seen: Seq<Counts>,
    after: Seq<EntryModel>,
) -> bool {
    &&& items.len() == before.len()
    &&& seen.len() == before.len()
    &&& after.len() == before.len()
    &&& forall|i: int|
        #![trigger items[i]]
        #![trigger after[i]]
        0 <= i < before.len() ==> is_report_on(items[i], before[i], seen[i], after[i])
}

/// The message is on a thread that is not in the table, and does not bring one into it.
pub open spec fn passes_by(entries: Seq<EntryModel>, status: ThreadStatus) -> bool {
    &&& to_watch(status) is None
    &&& status is Finished ==> !numbers(entries).contains(number_of(status))
}

/// What is to be done next.
pub enum MonitorAction {
    /// Hand the watcher on to be sampled, and come back with [`StatTable::sent`].
    Send(StateWatcher),
    /// See whether anybody asks for reports, and come back with [`StatTable::asked`].
    Poll,
    /// Read the counters of all threads in the table, and come back with [`StatTable::answer`].
    Collect,
    /// Sleep, and begin again.
    Sleep,
    /// Stop for good.
    Stop,
}

/// What came of a look at the questions.
#[derive(Debug, Clone, Copy, PartialEq, Eq, Structural)]
pub enum AskPoll {
    Asked,
    Empty,
    Disconnected,
}

/// How long to sleep before the table is brought up to date again, in nanoseconds.
pub const PAUSE_NANOS: u32 = 300_000_000;

/// The threads that are watched, in the order of the table.
pub struct StatTable {
    entries: Vec<StatEntry>,
    /// The messages still to be entered, the oldest last.
    pending: Vec<ThreadStatus>,
}

/// The message leads from `before` to `after`, and `r` is the watcher that it asks for.
spec fn enters(
    before: Seq<EntryModel>,
    status: ThreadStatus,
    fresh: Fresh,
    after: Seq<EntryModel>,
    r: Option<StateWatcher>,
) -> bool {
    &&& after == entered(before, status, fresh)
    &&& match to_watch(status) {
        Some(state) => r == Some(StateWatcher { state, counts: fresh.counts })
            && cell::first_counts(*fresh.counts) == Counts::zero() && exists|at: Instant|
            clock::in_order(at, fresh.now),
        None => r is None,
    }
}

/// What the entries of a table say, in the order of the table.
spec fn models(entries: Seq<StatEntry>) -> Seq<EntryModel> {
    entries.map_values(|entry: StatEntry| entry@)
}

impl View for StatTable {
    type V = TableModel;

    closed spec fn view(&self) -> TableModel {
        TableModel { entries: models(self.entries@), pending: self.pending@.reverse() }
    }
}

impl StatTable {
    /// A table without threads and without messages.
    pub fn new() -> (table: StatTable)
        ensures
            table@ == (TableModel { entries: Seq::empty(), pending: Seq::empty() }),
    {
        let table = StatTable { entries: Vec::new(), pending: Vec::new() };
        assert(table@.entries =~= Seq::empty());
        table
    }

    /// The number of watched threads.
    pub fn len(&self) -> (len: usize)
        ensures
            len == self@.entries.len(),
    {
        self.entries.len()
    }

    /// The counters of the thread at place `i` of the table.
    pub fn counts(&self, i: usize) -> (counts: &SharedCounts)
        requires
            i < self@.entries.len(),
        ensures
            *counts == self@.entries[i as int].counts,
    {
        self.entries[i].stats.counts()
    }

    /// Takes in what the thread monitor gave. Without it there is nothing left to do; what is
    /// there is entered up to the first watcher to hand on.
    pub fn begin(&mut self, processed: Option<Vec<ThreadStatus>>) -> (action: MonitorAction)
        ensures
            match processed {
                None => action == MonitorAction::Stop && final(self)@ == old(self)@,
                Some(v) => {
                    let begun = TableModel { entries: old(self)@.entries, pending: v@ };
                    exists|fresh: Fresh| #[trigger]
                        begun.steps_to(final(self)@, action, fresh)
                },
            },
    {
        match processed {
            None => MonitorAction::Stop,
            Some(v) => {
                let mut v = v;
                let ghost batch = v@;
                let mut pending: Vec<ThreadStatus> = Vec::with_capacity(v.len());
                loop
                    invariant
                        v@ + pending@.reverse() == batch,
                    ensures
                        pending@.reverse() == batch,
                    decreases v@.len(),
                {
                    match v.pop() {
                        Some(st) => {
                            pending.push(st);
                        },
                        None => {
                            break;
                        },
                    }
                }
                self.pending = pending;
                self.advance()
            },
        }
    }

    /// Goes on after a watcher was handed on. If that failed, the messages that are left are
    /// dropped.
    pub fn sent(&mut self, ok: bool) -> (action: MonitorAction)
        ensures
            ok ==> exists|fresh: Fresh| #[trigger]
                old(self)@.steps_to(final(self)@, action, fresh),
            !ok ==> action == MonitorAction::Poll && final(self)@ == (TableModel {
                entries: old(self)@.entries,
                pending: Seq::empty(),
            }),
    {
        if ok {
            self.advance()
        } else {
            self.pending = Vec::new();
            MonitorAction::Poll
        }
    }

    /// Goes on after a look at the questions.
    pub fn asked(&self, poll: AskPoll) -> (action: MonitorAction)
        ensures
            action == match poll {
                AskPoll::Asked => MonitorAction::Collect,
                AskPoll::Empty => MonitorAction::Sleep,
                AskPoll::Disconnected => MonitorAction::Stop,
            },
    {
        match poll {
            AskPoll::Asked => MonitorAction::Collect,
            AskPoll::Empty => MonitorAction::Sleep,
            AskPoll::Disconnected => MonitorAction::Stop,
        }
    }

    /// Reports on every thread in the table, from its counters as they are now. The reports come
    /// in the reverse order of the table. After them there is time to sleep.
    ///
    /// What time it is at each report is what the clock gives.
    pub fn answer(&mut self, seen: &Vec<Counts>) -> (r: (ThreadInfoIterator, MonitorAction))
        requires
            seen@.len() == old(self)@.entries.len(),
        ensures
            are_reports_on(
                r.0@.reverse(),
                old(self)@.entries,
                seen@,
                final(self)@.entries,
            ),
            final(self)@.pending == old(self)@.pending,
            r.1 == MonitorAction::Sleep,
    {
        let ghost before = self@.entries;
        let mut inner = ThreadInfoIteratorInner::new(self.entries.len());
        let mut i: usize = 0;
        while i < self.entries.len()
            invariant
                i <= self.entries@.len(),
                seen@.len() == before.len(),
                self.entries@.len() == before.len(),
                self.pending@ == old(self).pending@,
                inner is Vec || inner.filed().len() == 0,
                inner.filed().len() == i,
                forall|j: int|
                    #![trigger inner.filed()[j]]
                    #![trigger self.entries@[j]]
                    0 <= j < i ==> is_report_on(
                        inner.filed()[j],
                        before[j],
                        seen@[j],
                        self.entries@[j]@,
                    ),
                forall|j: int|
                    i <= j < before.len() ==> (#[trigger] self.entries@[j])@ == before[j],
            decreases self.entries@.len() - i,
        {
            let info = self.entries[i].stats.get(seen[i]);
            inner.push(self.entries[i].name.clone(), info);
            i += 1;
        }
        proof {
            info::law_last_filed_comes_first(inner);
        }
        (ThreadInfoIterator::new(inner), MonitorAction::Sleep)
    }

    fn advance(&mut self) -> (action: MonitorAction)
        ensures
            exists|fresh: Fresh| #[trigger] old(self)@.steps_to(final(self)@, action, fresh),
    {
        let ghost start = self@;
        let ghost mut done: nat = 0;
        loop
            invariant
                start == old(self)@,
                done <= start.pending.len(),
                self@.pending == start.pending.skip(done as int),
                forall|fresh: Fresh|
                    self@.entries == #[trigger] entered_all(
                        start.entries,
                        start.pending.take(done as int),
                        repeated(fresh, done),
                    ),
                forall|j: int| 0 <= j < done ==> #[trigger] to_watch(start.pending[j]) is None,
            decreases self@.pending.len(),
        {
            let ghost before = self@;
            match self.pending.pop() {
                None => {
                    proof {
                        lemma_taken_all(start.pending);
                        let fresh: Fresh = arbitrary();
                        assert(start.steps_to(self@, MonitorAction::Poll, fresh));
                    }
                    return MonitorAction::Poll;
                },
                Some(st) => {
                    proof {
                        assert(st == before.pending[0]);
                        assert(self@.pending =~= before.pending.drop_first());
                        assert(self@.pending =~= start.pending.skip(done as int + 1));
                        let earlier = start.pending.take(done as int);
                        assert(start.pending.take(done as int + 1) =~= earlier.push(st));
                        assert forall|fresh: Fresh|
                            #![trigger repeated(fresh, done + 1)]
                            entered(before.entries, st, fresh) == entered_all(
                                start.entries,
                                start.pending.take(done as int + 1),
                                repeated(fresh, done + 1),
                            ) by {
                            assert(repeated(fresh, done + 1) =~= repeated(fresh, done).push(fresh));
                            lemma_entered_push(
                                start.entries,
                                earlier,
                                repeated(fresh, done),
                                st,
                                fresh,
                            );
                        }
                        done = done + 1;
                    }
                    if let Some(watcher) = self.enter(st) {
                        proof {
                            lemma_taken_until(start.pending, done - 1);
                            let fresh = choose|fresh: Fresh| #[trigger]
                                enters(before.entries, st, fresh, self@.entries, Some(watcher));
                            assert(start.steps_to(self@, MonitorAction::Send(watcher), fresh));
                        }
                        return MonitorAction::Send(watcher);
                    }
                },
            }
        }
    }

    fn enter(&mut self, status: ThreadStatus) -> (r: Option<StateWatcher>)
        ensures
            exists|fresh: Fresh| #[trigger]
                enters(old(self)@.entries, status, fresh, final(self)@.entries, r),
            final(self)@.pending == old(self)@.pending,
    {
        match status {
            ThreadStatus::Started { state: None, .. } => {
                assert(enters(old(self)@.entries, status, arbitrary(), self@.entries, None));
                None
            },
            ThreadStatus::Started { n, name, tm, state: Some(state) } => {
                let (watcher, stats) = watcher(state);
                let ghost fresh = Fresh { counts: watcher.counts, now: stats@.prev_tm };
                let entry = StatEntry { n, name: Arc::new(name), tm, stats };
                assert(models(self.entries@.push(entry)) =~= models(self.entries@).push(entry@));
                self.entries.push(entry);
                assert(enters(old(self)@.entries, status, fresh, self@.entries, Some(watcher)));
                Some(watcher)
            },
            ThreadStatus::Finished { n, .. } => {
                let mut to_remove: Option<usize> = None;
                let mut i: usize = 0;
                while i < self.entries.len()
                    invariant
                        i <= self.entries@.len(),
                        match to_remove {
                            Some(k) => k < i && self.entries@[k as int].n == n && forall|j: int|
                                k < j < i ==> self.entries@[j].n != n,
                            None => forall|j: int| 0 <= j < i ==> self.entries@[j].n != n,
                        },
                    decreases self.entries@.len() - i,
                {
                    if self.entries[i].n == n {
                        to_remove = Some(i);
                    }
                    i += 1;
                }
                let ghost before = self@.entries;
                proof {
                    numbers(before).index_of_last_ensures(n);
                }
                if let Some(idx) = to_remove {
                    assert(numbers(before)[idx as int] == n);
                    self.entries.swap_remove(idx);
                    assert(self@.entries =~= swap::swap_removed(before, idx as int));
                }
                assert(enters(before, status, arbitrary(), self@.entries, None));
                None
            },
        }
    }
}

/// What one message does to the table. A thread that started with a state comes in last, under the
/// number and the whole name of the message and with its time, with the counters and from the time
/// that were made for it; nothing has been reported on it. One that started without a state changes
/// nothing. Of a thread that finished, the last entry under its number goes, the last of all takes
/// its place, and all others stay where they are.
pub proof fn law_message_is_entered(entries: Seq<EntryModel>, status: ThreadStatus, fresh: Fresh)
    ensures
        ({
            let after = entered(entries, status, fresh);
            match status {
                ThreadStatus::Started { n, name, tm, state } => if state is Some {
                    after == entries.push(
                        EntryModel {
                            n,
                            name: name@,
                            tm,
                            counts: fresh.counts,
                            prev: Counts { payload: 0, idle: 0, wait: 0, unknown: 0, measures: 0 },
                            prev_tm: fresh.now,
                        },
                    )
                } else {
                    after == entries
                },
                ThreadStatus::Finished { n, .. } => {
                    &&& (forall|i: int| 0 <= i < entries.len() ==> (#[trigger] entries[i]).n != n)
                        ==> after == entries
                    &&& forall|i: int|
                        0 <= i < entries.len() && (#[trigger] entries[i]).n == n && (forall|j: int|
                            i < j < entries.len() ==> (#[trigger] entries[j]).n != n) ==> {
                            &&& after.len() == entries.len() - 1
                            &&& i < after.len() ==> after[i] == entries[entries.len() - 1]
                            &&& forall|j: int|
                                0 <= j < after.len() && j != i ==> #[trigger] after[j]
                                    == entries[j]
                        }
                },
            }
        }),
{
    if let ThreadStatus::Finished { n, .. } = status {
        numbers(entries).index_of_last_ensures(n);
        match numbers(entries).index_of_last(n) {
            Some(i) => {
                swap::law_swap_removed_puts_the_last_in_place(entries, i);
                assert forall|k: int|
                    0 <= k < entries.len() && (#[trigger] entries[k]).n == n && (forall|j: int|
                        k < j < entries.len() ==> (#[trigger] entries[j]).n != n) implies k == i by {
                    assert(numbers(entries)[k] == n);
                }
            },
            None => {
                assert forall|i: int| 0 <= i < entries.len() implies (#[trigger] entries[i]).n
                    != n by {
                    assert(numbers(entries)[i] == entries[i].n);
                }
            },
        }
    }
}

/// Messages are entered one by one, in the order in which they come, each with what was made for
/// it.
pub proof fn law_messages_are_entered_in_order(
    entries: Seq<EntryModel>,
    messages: Seq<ThreadStatus>,
    fresh: Seq<Fresh>,
)
    requires
        fresh.len() == messages.len(),
    ensures
        messages.len() == 0 ==> entered_all(entries, messages, fresh) == entries,
        messages.len() > 0 ==> entered_all(entries, messages, fresh) == entered(
            entered_all(entries, messages.drop_last(), fresh.drop_last()),
            messages.last(),
            fresh.last(),
        ),
{
    if messages.len() > 0 {
        assert(messages.drop_last().push(messages.last()) =~= messages);
        assert(fresh.drop_last().push(fresh.last()) =~= fresh);
        lemma_entered_push(
            entries,
            messages.drop_last(),
            fresh.drop_last(),
            messages.last(),
            fresh.last(),
        );
    }
}

/// A step of the table hands on a watcher exactly if a message asks for one: that of the first
/// message that does, with the very state of that message and with counters that the new entry
/// shares and that were made with zeros. The messages up to that one are entered, those behind it
/// are left. If no message asks for a watcher, all are entered, and it is time to look at the
/// questions.
pub proof fn law_step_hands_on_the_first_watcher(
    table: TableModel,
    after: TableModel,
    action: MonitorAction,
    fresh: Fresh,
)
    requires
        table.steps_to(after, action, fresh),
    ensures
        action is Send <==> exists|k: int|
            0 <= k < table.pending.len() && (#[trigger] table.pending[k]) is Started
                && table.pending[k]->state is Some,
        action is Send || action is Poll,
        action is Poll ==> {
            &&& after.pending.len() == 0
            &&& after.entries == entered_all(
                table.entries,
                table.pending,
                Seq::new(table.pending.len(), |i: int| fresh),
            )
        },
        forall|k: int|
            0 <= k < table.pending.len() && (#[trigger] table.pending[k]) is Started
                && table.pending[k]->state is Some && (forall|j: int|
                0 <= j < k ==> !((#[trigger] table.pending[j]) is Started
                    && table.pending[j]->state is Some)) ==> {
                &&& action == MonitorAction::Send(
                    StateWatcher { state: table.pending[k]->state->0, counts: fresh.counts },
                )
                &&& after.pending == table.pending.skip(k + 1)
                &&& after.entries == entered_all(
                    table.entries,
                    table.pending.take(k + 1),
                    Seq::new((k + 1) as nat, |i: int| fresh),
                )
                &&& after.entries.len() > 0
                &&& after.entries.last() == (EntryModel {
                    n: table.pending[k]->Started_n,
                    name: table.pending[k]->Started_name@,
                    tm: table.pending[k]->Started_tm,
                    counts: fresh.counts,
                    prev: Counts { payload: 0, idle: 0, wait: 0, unknown: 0, measures: 0 },
                    prev_tm: fresh.now,
                })
            },
        action is Send ==> {
            &&& cell::first_counts(*fresh.counts) == (Counts {
                payload: 0,
                idle: 0,
                wait: 0,
                unknown: 0,
                measures: 0,
            })
            &&& exists|at: Instant| clock::in_order(at, fresh.now)
        },
{
    let pending = table.pending;
    if exists|k: int|
        0 <= k < pending.len() && (#[trigger] pending[k]) is Started && pending[k]->state is Some {
        let k = lemma_first_to_watch(pending);
        lemma_taken_until(pending, k);
        law_messages_are_entered_in_order(
            table.entries,
            pending.take(k + 1),
            repeated(fresh, (k + 1) as nat),
        );
        law_message_is_entered(
            entered_all(
                table.entries,
                pending.take(k + 1).drop_last(),
                repeated(fresh, (k + 1) as nat).drop_last(),
            ),
            pending[k],
            fresh,
        );
        assert forall|i: int|
            0 <= i < pending.len() && (#[trigger] pending[i]) is Started && pending[i]->state is Some
                && (forall|j: int|
                0 <= j < i ==> !((#[trigger] pending[j]) is Started
                    && pending[j]->state is Some)) implies i == k by {
            if i < k {
                assert(to_watch(pending[i]) is None);
            }
        }
    } else {
        assert forall|j: int| 0 <= j < pending.len() implies #[trigger] to_watch(
            pending[j],
        ) is None by {
            assert(!(pending[j] is Started && pending[j]->state is Some));
        }
        lemma_taken_all(pending);
        lemma_taken(pending);
        assert(pending.take(pending.len() as int) =~= pending);
    }
}

/// The first message that asks for a watcher.
proof fn lemma_first_to_watch(messages: Seq<ThreadStatus>) -> (k: int)
    requires
        exists|k: int|
            0 <= k < messages.len() && (#[trigger] messages[k]) is Started
                && messages[k]->state is Some,
    ensures
        0 <= k < messages.len(),
        to_watch(messages[k]) is Some,
        forall|j: int| 0 <= j < k ==> #[trigger] to_watch(messages[j]) is None,
    decreases messages.len(),
{
    if to_watch(messages[0]) is Some {
        0
    } else {
        let k = choose|k: int|
            0 <= k < messages.len() && (#[trigger] messages[k]) is Started
                && messages[k]->state is Some;
        let rest = messages.drop_first();
        assert(rest[k - 1] == messages[k]);
        let first = lemma_first_to_watch(rest);
        assert forall|j: int| 0 <= j < first + 1 implies #[trigger] to_watch(
            messages[j],
        ) is None by {
            if j > 0 {
                assert(to_watch(rest[j - 1]) is None);
            }
        }
        first + 1
    }
}

/// As long as handing on succeeds, a batch of messages yields one watcher for each message that
/// asks for one, in the order of the messages and with their very states, before it is time to look
/// at the questions; and then no message is left. `tables` has the table before each step and after
/// the last one.
pub proof fn law_every_watcher_is_handed_on(
    tables: Seq<TableModel>,
    actions: Seq<MonitorAction>,
    fresh: Seq<Fresh>,
)
    requires
        actions.len() > 0,
        tables.len() == actions.len() + 1,
        fresh.len() == actions.len(),
        forall|i: int|
            0 <= i < actions.len() ==> tables[i].steps_to(
                tables[i + 1],
                #[trigger] actions[i],
                fresh[i],
            ),
        forall|i: int| 0 <= i < actions.len() - 1 ==> (#[trigger] actions[i]) is Send,
        actions.last() is Poll,
    ensures
        tables.last().pending.len() == 0,
        actions.drop_last().map_values(|action: MonitorAction| action->Send_0.state)
            == tables[0].pending.filter(
            |status: ThreadStatus| status is Started && status->state is Some,
        ).map_values(|status: ThreadStatus| status->state->0),
    decreases actions.len(),
{
    let asks = |status: ThreadStatus| status is Started && status->state is Some;
    let state_of = |status: ThreadStatus| status->state->0;
    let sent = |action: MonitorAction| action->Send_0.state;
    let pending = tables[0].pending;
    law_step_hands_on_the_first_watcher(tables[0], tables[1], actions[0], fresh[0]);
    if actions.len() == 1 {
        lemma_filter_none(pending);
        assert(actions.drop_last().map_values(sent) =~= pending.filter(asks).map_values(state_of));
    } else {
        let (tables_left, actions_left) = (tables.drop_first(), actions.drop_first());
        law_every_watcher_is_handed_on(tables_left, actions_left, fresh.drop_first());
        let k = lemma_first_to_watch(pending);
        assert forall|j: int| 0 <= j < k implies !((#[trigger] pending[j]) is Started
            && pending[j]->state is Some) by {
            assert(to_watch(pending[j]) is None);
        }
        let (before, rest) = (pending.take(k), pending.skip(k + 1));
        lemma_filter_none(before);
        assert(pending =~= before + (seq![pending[k]] + rest));
        Seq::filter_distributes_over_add(before, seq![pending[k]] + rest, asks);
        Seq::filter_distributes_over_add(seq![pending[k]], rest, asks);
        assert(seq![pending[k]].filter(asks) =~= seq![pending[k]]) by {
            reveal_with_fuel(Seq::filter, 2);
        }
        assert(pending.filter(asks).map_values(state_of) =~= seq![state_of(pending[k])]
            + rest.filter(asks).map_values(state_of));
    }
}

/// Where no message asks for a watcher, none is left when the others are passed over.
proof fn lemma_filter_none(messages: Seq<ThreadStatus>)
    requires
        forall|j: int|
            0 <= j < messages.len() ==> !((#[trigger] messages[j]) is Started
                && messages[j]->state is Some),
    ensures
        messages.filter(
            |status: ThreadStatus| status is Started && status->state is Some,
        ).len() == 0,
    decreases messages.len(),
{
    reveal(Seq::filter);
    if messages.len() > 0 {
        lemma_filter_none(messages.drop_last());
    }
}

/// An answer reports on every thread in the table, in the order of the table, under its name. Each
/// count is what was added to its own counter since the last report on the thread, short of whole
/// turns; the interval is the time from the last report to a reading of the clock. The entry keeps
/// its number, name, time and counters; the next report on it counts from what was seen now, and
/// from the reading after it.
pub proof fn law_answer_reports_on_every_thread(
    items: Seq<ItemModel>,
    before: Seq<EntryModel>,
    seen: Seq<Counts>,
    after: Seq<EntryModel>,
)
    requires
        are_reports_on(items, before, seen, after),
    ensures
        items.len() == before.len(),
        after.len() == before.len(),
        forall|i: int|
            #![trigger items[i]]
            #![trigger after[i]]
            0 <= i < before.len() ==> {
                let (info, prev) = (items[i].info, before[i].prev);
                &&& items[i].name == before[i].name
                &&& info.payload == (seen[i].payload - prev.payload) % (usize::MAX + 1)
                &&& info.idle == (seen[i].idle - prev.idle) % (usize::MAX + 1)
                &&& info.wait == (seen[i].wait - prev.wait) % (usize::MAX + 1)
                &&& info.measures == (seen[i].measures - prev.measures) % (usize::MAX + 1)
                &&& exists|at: Instant| #[trigger]
                    clock::in_order(at, after[i].prev_tm) && info.interval == clock::time_between(
                        at,
                        before[i].prev_tm,
                    )
                &&& after[i].n == before[i].n
                &&& after[i].name == before[i].name
                &&& after[i].tm == before[i].tm
                &&& after[i].counts == before[i].counts
                &&& after[i].prev == seen[i]
            },
{
    assert forall|i: int|
        #![trigger items[i]]
        #![trigger after[i]]
        0 <= i < before.len() implies {
        let (info, prev) = (items[i].info, before[i].prev);
        &&& info.payload == (seen[i].payload - prev.payload) % (usize::MAX + 1)
        &&& info.idle == (seen[i].idle - prev.idle) % (usize::MAX + 1)
        &&& info.wait == (seen[i].wait - prev.wait) % (usize::MAX + 1)
        &&& info.measures == (seen[i].measures - prev.measures) % (usize::MAX + 1)
    } by {
        statistics::law_report_is_what_was_added(seen[i], before[i].prev, items[i].info.interval);
    }
}

/// Every report in an answer is on a watched thread that runs, and is under the whole name under
/// which that thread started. `messages` is all that the table was told; message `j` is the start
/// of the thread that report `i` is on.
pub proof fn law_report_bears_the_name_of_the_start(
    messages: Seq<ThreadStatus>,
    fresh: Seq<Fresh>,
    items: Seq<ItemModel>,
    seen: Seq<Counts>,
    after: Seq<EntryModel>,
    i: int,
) -> (j: int)
    requires
        fresh.len() == messages.len(),
        forall|i: int, j: int|
            0 <= i < j < messages.len() && (#[trigger] messages[i]) is Started
                && messages[i]->state is Some && (#[trigger] messages[j]) is Started
                && messages[j]->state is Some ==> messages[i]->Started_n != messages[j]->Started_n,
        are_reports_on(items, entered_all(Seq::empty(), messages, fresh), seen, after),
        0 <= i < items.len(),
    ensures
        0 <= j < messages.len(),
        messages[j] is Started,
        messages[j]->state is Some,
        forall|l: int|
            j < l < messages.len() && (#[trigger] messages[l]) is Finished
                ==> messages[l]->Finished_n != messages[j]->Started_n,
        items[i].name == messages[j]->Started_name@,
        after[i].n == messages[j]->Started_n,
        after[i].tm == messages[j]->Started_tm,
        after[i].counts == fresh[j].counts,
{
    let entries = entered_all(Seq::empty(), messages, fresh);
    law_table_holds_the_running_threads(messages, fresh);
    assert(entries.contains(entries[i]));
    let j = choose|j: int|
        0 <= j < messages.len() && #[trigger] is_running(messages, j) && entries[i] == entry_for(
            messages[j],
            fresh[j],
        );
    law_threads_run_until_they_finish(messages, j);
    j
}

/// An answer has a report on every watched thread that runs, under the whole name under which it
/// started. `messages` is all that the table was told; message `j` is the start of the thread, and
/// report `i` is the one on it.
pub proof fn law_running_thread_is_reported_on(
    messages: Seq<ThreadStatus>,
    fresh: Seq<Fresh>,
    items: Seq<ItemModel>,
    seen: Seq<Counts>,
    after: Seq<EntryModel>,
    j: int,
) -> (i: int)
    requires
        fresh.len() == messages.len(),
        forall|i: int, j: int|
            0 <= i < j < messages.len() && (#[trigger] messages[i]) is Started
                && messages[i]->state is Some && (#[trigger] messages[j]) is Started
                && messages[j]->state is Some ==> messages[i]->Started_n != messages[j]->Started_n,
        are_reports_on(items, entered_all(Seq::empty(), messages, fresh), seen, after),
        0 <= j < messages.len(),
        messages[j] is Started,
        messages[j]->state is Some,
        forall|l: int|
            j < l < messages.len() && (#[trigger] messages[l]) is Finished
                ==> messages[l]->Finished_n != messages[j]->Started_n,
    ensures
        0 <= i < items.len(),
        items[i].name == messages[j]->Started_name@,
        after[i].n == messages[j]->Started_n,
        after[i].tm == messages[j]->Started_tm,
        after[i].counts == fresh[j].counts,
{
    let entries = entered_all(Seq::empty(), messages, fresh);
    law_table_holds_the_running_threads(messages, fresh);
    law_threads_run_until_they_finish(messages, j);
    assert(entries.contains(entry_for(messages[j], fresh[j])));
    let i = choose|i: int| 0 <= i < entries.len() && entries[i] == entry_for(messages[j], fresh[j]);
    i
}

/// A watched thread runs from the message that says that it started, with a state, until one that
/// says that a thread of its number has finished.
pub proof fn law_threads_run_until_they_finish(messages: Seq<ThreadStatus>, j: int)
    ensures
        is_running(messages, j) <==> messages[j] is Started && messages[j]->state is Some && (
        forall|l: int|
            j < l < messages.len() && (#[trigger] messages[l]) is Finished
                ==> messages[l]->Finished_n != messages[j]->Started_n),
{
}

/// Advancing the table leaves nothing out: once the messages that are left are entered too, each
/// message has been entered once, in the order in which it came. There is a watcher to hand on, or
/// no message is left.
pub proof fn law_advancing_loses_nothing(table: TableModel, fresh: Fresh, rest: Seq<Fresh>)
    ensures
        ({
            let after = table.advanced(fresh);
            let all = repeated(fresh, taken(table.pending)) + rest;
            entered_all(after.entries, after.pending, rest) == entered_all(
                table.entries,
                table.pending,
                all,
            )
        }),
        table.next_action(fresh) is Send ==> table.advanced(fresh).pending.len()
            < table.pending.len(),
        table.next_action(fresh) is Poll ==> table.advanced(fresh).pending.len() == 0,
        table.next_action(fresh) is Send || table.next_action(fresh) is Poll,
{
    lemma_taken(table.pending);
    let k = taken(table.pending);
    let (first, second) = (table.pending.take(k as int), table.pending.skip(k as int));
    lemma_entered_concat(table.entries, first, repeated(fresh, k), second, rest);
    assert(first + second =~= table.pending);
}

/// A watcher that is handed on samples into the counters of the thread that came into the table
/// last, and nothing has been reported on that thread.
pub proof fn law_handed_on_thread_is_in_the_table(table: TableModel, fresh: Fresh)
    requires
        table.next_action(fresh) is Send,
    ensures
        ({
            let entries = table.advanced(fresh).entries;
            &&& entries.len() > 0
            &&& table.next_action(fresh)->Send_0.counts == entries.last().counts
            &&& entries.last().prev == Counts::zero()
            &&& entries.last().prev_tm == fresh.now
        }),
{
    lemma_taken(table.pending);
    let k = taken(table.pending);
    let status = table.pending[k - 1];
    let before = table.pending.take(k - 1);
    let fresh_before = repeated(fresh, (k - 1) as nat);
    assert(table.pending.take(k as int) =~= before.push(status));
    assert(repeated(fresh, k) =~= fresh_before.push(fresh));
    lemma_entered_push(table.entries, before, fresh_before, status, fresh);
}

/// As long as no two threads in the table have the same number, a thread that finished is in the
/// table no more, and every other thread still is.
pub proof fn law_finished_thread_leaves(
    entries: Seq<EntryModel>,
    finished: ThreadStatus,
    fresh: Fresh,
)
    requires
        finished is Finished,
        numbers(entries).no_duplicates(),
    ensures
        ({
            let after = entered(entries, finished, fresh);
            &&& numbers(after).no_duplicates()
            &&& forall|entry: EntryModel| #[trigger]
                after.contains(entry) <==> entries.contains(entry) && entry.n != number_of(finished)
        }),
{
    let n = number_of(finished);
    let after = entered(entries, finished, fresh);
    numbers(entries).index_of_last_ensures(n);
    match numbers(entries).index_of_last(n) {
        Some(i) => {
            let last = entries.len() - 1;
            assert forall|a: int, b: int| 0 <= a < after.len() && 0 <= b < after.len() && a
                != b implies numbers(after)[a] != numbers(after)[b] by {
                let c = if a == i { last } else { a };
                let d = if b == i { last } else { b };
                assert(numbers(entries)[c] != numbers(entries)[d]);
            }
            assert forall|entry: EntryModel| #[trigger]
                after.contains(entry) <==> entries.contains(entry) && entry.n != n by {
                if after.contains(entry) {
                    let a = choose|a: int| 0 <= a < after.len() && after[a] == entry;
                    let c = if a == i { last } else { a };
                    assert(numbers(entries)[c] != numbers(entries)[i]);
                }
                if entries.contains(entry) && entry.n != n {
                    let c = choose|c: int| 0 <= c < entries.len() && entries[c] == entry;
                }
            }
        },
        None => {
            assert forall|entry: EntryModel| #[trigger] entries.contains(entry) implies entry.n
                != n by {
                let c = choose|c: int| 0 <= c < entries.len() && entries[c] == entry;
                assert(numbers(entries)[c] == entry.n);
            }
        },
    }
}

/// A thread that starts under a number that is not in the table leaves the numbers distinct, and
/// every thread that was in the table in it.
pub proof fn law_started_thread_joins(
    entries: Seq<EntryModel>,
    n: usize,
    name: String,
    tm: OffsetDateTime,
    state: SharedState,
    fresh: Fresh,
)
    requires
        numbers(entries).no_duplicates(),
        !numbers(entries).contains(n),
    ensures
        ({
            let started = ThreadStatus::Started { n, name, tm, state: Some(state) };
            let after = entered(entries, started, fresh);
            let joined = entry_for(started, fresh);
            &&& numbers(after).no_duplicates()
            &&& forall|entry: EntryModel| #[trigger]
                after.contains(entry) <==> entries.contains(entry) || entry == joined
        }),
{
    let after = entered(
        entries,
        ThreadStatus::Started { n, name, tm, state: Some(state) },
        fresh,
    );
    let joined = after.last();
    assert(numbers(after) =~= numbers(entries).push(n));
    assert forall|entry: EntryModel| #[trigger]
        after.contains(entry) <==> entries.contains(entry) || entry == joined by {
        if entries.contains(entry) {
            let c = choose|c: int| 0 <= c < entries.len() && entries[c] == entry;
            assert(after[c] == entry);
        }
    }
}

/// A thread that started and finished leaves no trace in the table: whatever is entered of other
/// threads in between, there are as many entries under its number after it as before it. (A thread
/// that was never in the table must not bear the number of one that is.)
pub proof fn law_finished_thread_is_forgotten(
    entries: Seq<EntryModel>,
    started: ThreadStatus,
    between: Seq<ThreadStatus>,
    finished: ThreadStatus,
    fresh: Seq<Fresh>,
)
    requires
        fresh.len() == between.len() + 2,
        started is Started,
        to_watch(started) is Some || entries_under(entries, number_of(started)) == 0,
        finished is Finished,
        number_of(finished) == number_of(started),
        forall|j: int|
            0 <= j < between.len() ==> number_of(#[trigger] between[j]) != number_of(started),
    ensures
        ({
            let n = number_of(started);
            let after = entered_all(entries, seq![started] + between + seq![finished], fresh);
            entries_under(after, n) == entries_under(entries, n)
        }),
{
    let n = number_of(started);
    let joined = entered(entries, started, fresh.first());
    let rest = fresh.drop_first();
    let middle = entered_all(joined, between, rest.drop_last());
    let messages = seq![started] + between + seq![finished];
    assert(messages.drop_first() =~= between.push(finished));
    assert(rest =~= rest.drop_last().push(rest.last()));
    lemma_entered_push(joined, between, rest.drop_last(), finished, rest.last());
    lemma_entries_under(entries, started, fresh.first(), n);
    lemma_others_stay(joined, between, rest.drop_last(), n);
    lemma_entries_under(middle, finished, rest.last(), n);
}

/// The whole history of the table: where no two watched threads start under one number, the entries
/// are, one for one, the threads that started with a state and that no later message says have
/// finished.
pub proof fn law_table_holds_the_running_threads(messages: Seq<ThreadStatus>, fresh: Seq<Fresh>)
    requires
        fresh.len() == messages.len(),
        forall|i: int, j: int|
            0 <= i < j < messages.len() && to_watch(#[trigger] messages[i]) is Some && to_watch(
                #[trigger] messages[j],
            ) is Some ==> number_of(messages[i]) != number_of(messages[j]),
    ensures
        ({
            let entries = entered_all(Seq::empty(), messages, fresh);
            &&& numbers(entries).no_duplicates()
            &&& forall|entry: EntryModel| #[trigger]
                entries.contains(entry) <==> exists|i: int|
                    0 <= i < messages.len() && #[trigger] is_running(messages, i) && entry
                        == entry_for(messages[i], fresh[i])
        }),
    decreases messages.len(),
{
    let none = Seq::<EntryModel>::empty();
    let entries = entered_all(none, messages, fresh);
    if messages.len() > 0 {
        let (earlier, status) = (messages.drop_last(), messages.last());
        let (fresh_earlier, fresh_last) = (fresh.drop_last(), fresh.last());
        let last = messages.len() - 1;
        let before = entered_all(none, earlier, fresh_earlier);
        assert(earlier.push(status) =~= messages);
        assert(fresh_earlier.push(fresh_last) =~= fresh);
        lemma_entered_push(none, earlier, fresh_earlier, status, fresh_last);
        law_table_holds_the_running_threads(earlier, fresh_earlier);
        assert forall|i: int| 0 <= i < last implies #[trigger] is_running(messages, i) == (
        is_running(earlier, i) && !(status is Finished && number_of(status) == number_of(
            messages[i],
        ))) by {
            lemma_running(messages, i);
        }
        match status {
            ThreadStatus::Started { n, name, tm, state } => {
                if let Some(state) = state {
                    assert(!numbers(before).contains(n)) by {
                        if numbers(before).contains(n) {
                            let k = choose|k: int|
                                0 <= k < numbers(before).len() && numbers(before)[k] == n;
                            assert(before.contains(before[k]));
                        }
                    }
                    law_started_thread_joins(before, n, name, tm, state, fresh_last);
                }
            },
            ThreadStatus::Finished { .. } => {
                law_finished_thread_leaves(before, status, fresh_last);
            },
        }
        assert forall|entry: EntryModel| #[trigger]
            entries.contains(entry) <==> exists|i: int|
                0 <= i < messages.len() && #[trigger] is_running(messages, i) && entry
                    == entry_for(messages[i], fresh[i]) by {
            if entries.contains(entry) {
                if before.contains(entry) {
                    let i = choose|i: int|
                        0 <= i < earlier.len() && #[trigger] is_running(earlier, i) && entry
                            == entry_for(earlier[i], fresh_earlier[i]);
                    assert(is_running(messages, i));
                } else {
                    assert(is_running(messages, last));
                }
            }
        }
    }
}

/// One more message changes whether a thread runs only if it says that the thread has finished.
proof fn lemma_running(messages: Seq<ThreadStatus>, i: int)
    requires
        0 <= i < messages.len() - 1,
    ensures
        is_running(messages, i) == (is_running(messages.drop_last(), i) && !(
        messages.last() is Finished && number_of(messages.last()) == number_of(messages[i]))),
{
    let earlier = messages.drop_last();
    let last = messages.len() - 1;
    if is_running(earlier, i) && !(messages.last() is Finished && number_of(messages.last())
        == number_of(messages[i])) {
        assert forall|j: int| i < j < messages.len() && (#[trigger] messages[j]) is Finished implies
            number_of(messages[j]) != number_of(messages[i]) by {
            if j < last {
                assert(earlier[j] == messages[j]);
            }
        }
    }
}

/// Messages on threads that are not watched leave the table as it is.
pub proof fn law_other_threads_pass_by(
    entries: Seq<EntryModel>,
    messages: Seq<ThreadStatus>,
    fresh: Seq<Fresh>,
)
    requires
        forall|j: int| 0 <= j < messages.len() ==> passes_by(entries, #[trigger] messages[j]),
    ensures
        entered_all(entries, messages, fresh) == entries,
    decreases messages.len(),
{
    if messages.len() > 0 {
        numbers(entries).index_of_last_ensures(number_of(messages[0]));
        law_other_threads_pass_by(entries, messages.drop_first(), fresh.drop_first());
    }
}

/// Asking does not take threads out of the table, but it makes them count anew. Where no watched
/// thread starts or finishes between two answers, the second one is on the same threads as the
/// first one, under the same names; each report in it tells of the `samples` taken of its thread
/// since the first answer, and of no others, and its interval starts at the first answer.
pub proof fn law_answers_follow_on(
    start: Seq<EntryModel>,
    seen: Seq<Counts>,
    first: Seq<ItemModel>,
    answered: Seq<EntryModel>,
    between: Seq<ThreadStatus>,
    fresh: Seq<Fresh>,
    samples: Seq<Seq<State>>,
    seen_again: Seq<Counts>,
    second: Seq<ItemModel>,
    end: Seq<EntryModel>,
)
    requires
        are_reports_on(first, start, seen, answered),
        forall|j: int| 0 <= j < between.len() ==> passes_by(answered, #[trigger] between[j]),
        are_reports_on(second, entered_all(answered, between, fresh), seen_again, end),
        samples.len() == seen.len(),
        forall|i: int|
            0 <= i < seen.len() ==> #[trigger] seen_again[i] == seen[i].sampled_all(samples[i]),
    ensures
        second.len() == first.len(),
        forall|i: int|
            0 <= i < second.len() ==> {
                &&& (#[trigger] second[i]).name == first[i].name
                &&& statistics::tells_of(second[i].info, samples[i])
                &&& exists|at: Instant| #[trigger]
                    clock::in_order(at, end[i].prev_tm) && second[i].info.interval
                        == clock::time_between(at, answered[i].prev_tm)
            },
{
    law_other_threads_pass_by(answered, between, fresh);
    assert forall|i: int| 0 <= i < second.len() implies {
        &&& (#[trigger] second[i]).name == first[i].name
        &&& statistics::tells_of(second[i].info, samples[i])
        &&& exists|at: Instant| #[trigger]
            clock::in_order(at, end[i].prev_tm) && second[i].info.interval == clock::time_between(
                at,
                answered[i].prev_tm,
            )
    } by {
        let none = Seq::<State>::empty();
        statistics::law_report_counts_the_samples(
            seen[i],
            none,
            samples[i],
            second[i].info.interval,
        );
    }
}

/// What one message does to the number of entries under `n`.
proof fn lemma_entries_under(
    entries: Seq<EntryModel>,
    status: ThreadStatus,
    fresh: Fresh,
    n: usize,
)
    ensures
        ({
            let before = entries_under(entries, n) as int;
            let after = entries_under(entered(entries, status, fresh), n);
            if number_of(status) != n {
                after == before
            } else if status is Finished {
                after == if before > 0 { before - 1 } else { 0 }
            } else if to_watch(status) is Some {
                after == before + 1
            } else {
                after == before
            }
        }),
{
    broadcast use vstd::multiset::group_multiset_axioms;

    let after = entered(entries, status, fresh);
    match status {
        ThreadStatus::Started { n: m, .. } => {
            if to_watch(status) is Some {
                assert(numbers(after) =~= numbers(entries).push(m));
                vstd::seq_lib::to_multiset_build(numbers(entries), m);
            }
        },
        ThreadStatus::Finished { n: m, .. } => {
            numbers(entries).index_of_last_ensures(m);
            vstd::seq_lib::to_multiset_contains(numbers(entries), m);
            if let Some(i) = numbers(entries).index_of_last(m) {
                assert(numbers(after) =~= swap::swap_removed(numbers(entries), i));
                swap::law_swap_removed_loses_one(numbers(entries), i);
            }
        },
    }
}

/// Messages on other threads do not change the number of entries under `n`.
proof fn lemma_others_stay(
    entries: Seq<EntryModel>,
    messages: Seq<ThreadStatus>,
    fresh: Seq<Fresh>,
    n: usize,
)
    requires
        forall|j: int| 0 <= j < messages.len() ==> number_of(#[trigger] messages[j]) != n,
    ensures
        entries_under(entered_all(entries, messages, fresh), n) == entries_under(entries, n),
    decreases messages.len(),
{
    if messages.len() > 0 {
        lemma_entries_under(entries, messages[0], fresh.first(), n);
        lemma_others_stay(
            entered(entries, messages.first(), fresh.first()),
            messages.drop_first(),
            fresh.drop_first(),
            n,
        );
    }
}

/// Where no message asks for a watcher, all are taken.
proof fn lemma_taken_all(messages: Seq<ThreadStatus>)
    requires
        forall|j: int| 0 <= j < messages.len() ==> #[trigger] to_watch(messages[j]) is None,
    ensures
        taken(messages) == messages.len(),
    decreases messages.len(),
{
    if messages.len() > 0 {
        lemma_taken_all(messages.drop_first());
    }
}

/// The messages up to the first that asks for a watcher are taken.
proof fn lemma_taken_until(messages: Seq<ThreadStatus>, k: int)
    requires
        0 <= k < messages.len(),
        forall|j: int| 0 <= j < k ==> #[trigger] to_watch(messages[j]) is None,
        to_watch(messages[k]) is Some,
    ensures
        taken(messages) == k + 1,
    decreases k,
{
    if k > 0 {
        lemma_taken_until(messages.drop_first(), k - 1);
    }
}

/// The messages taken end with the first that asks for a watcher, or with the last.
proof fn lemma_taken(messages: Seq<ThreadStatus>)
    ensures
        taken(messages) <= messages.len(),
        messages.len() > 0 ==> taken(messages) > 0,
        taken(messages) < messages.len() ==> to_watch(messages[taken(messages) - 1]) is Some,
    decreases messages.len(),
{
    if messages.len() > 0 && to_watch(messages.first()) is None {
        lemma_taken(messages.drop_first());
    }
}

/// Messages may be entered in two batches.
proof fn lemma_entered_concat(
    entries: Seq<EntryModel>,
    first: Seq<ThreadStatus>,
    fresh_first: Seq<Fresh>,
    second: Seq<ThreadStatus>,
    fresh_second: Seq<Fresh>,
)
    requires
        fresh_first.len() == first.len(),
    ensures
        entered_all(entries, first + second, fresh_first + fresh_second) == entered_all(
            entered_all(entries, first, fresh_first),
            second,
            fresh_second,
        ),
    decreases first.len(),
{
    if first.len() > 0 {
        assert((first + second).drop_first() =~= first.drop_first() + second);
        assert((fresh_first + fresh_second).drop_first() =~= fresh_first.drop_first()
            + fresh_second);
        lemma_entered_concat(
            entered(entries, first.first(), fresh_first.first()),
            first.drop_first(),
            fresh_first.drop_first(),
            second,
            fresh_second,
        );
    }
}

/// Entering one more message comes after entering those before it.
proof fn lemma_entered_push(
    entries: Seq<EntryModel>,
    messages: Seq<ThreadStatus>,
    fresh_before: Seq<Fresh>,
    status: ThreadStatus,
    fresh: Fresh,
)
    requires
        fresh_before.len() == messages.len(),
    ensures
        entered_all(entries, messages.push(status), fresh_before.push(fresh)) == entered(
            entered_all(entries, messages, fresh_before),
            status,
            fresh,
        ),
{
    lemma_entered_concat(entries, messages, fresh_before, seq![status], seq![fresh]);
    assert(messages + seq![status] =~= messages.push(status));
    assert(fresh_before + seq![fresh] =~= fresh_before.push(fresh));
    reveal_with_fuel(entered_all, 2);
}

} // verus!
