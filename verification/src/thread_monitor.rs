//! The record of which threads started and which finished.

use crossbeam::queue::SegQueue;
use time::OffsetDateTime;
use vstd::prelude::*;

use crate::cell::SharedState;
use crate::clock;
use crate::count;
use crate::queue;

verus! {

/// What the monitor was told of a thread. `n` is the number that the thread was given, `tm` the
/// time of the event; `state` is there for threads that say what they are doing.
#[derive(Debug)]
pub enum ThreadStatus {
    Started { n: usize, name: String, tm: OffsetDateTime, state: Option<SharedState> },
    Finished { n: usize, name: String, tm: OffsetDateTime },
}

/// Numbers the threads, and keeps what it is told of them while it is turned on.
pub struct ThreadMonitor {
    on: bool,
    next: usize,
    messages: SegQueue<ThreadStatus>,
}

/// Whether the monitor is on, the number for the next thread, and the messages that nobody has
/// taken yet, the oldest first.
pub struct MonitorModel {
    pub on: bool,
    pub next: usize,
    pub messages: Seq<ThreadStatus>,
}

impl MonitorModel {
    /// The monitor after it has been told `status`: it listens only while it is on.
    pub open spec fn told(self, status: ThreadStatus) -> MonitorModel {
        if self.on {
            MonitorModel { messages: self.messages.push(status), ..self }
        } else {
            self
        }
    }

    /// The monitor after it has given out a number.
    pub open spec fn numbered(self) -> MonitorModel {
        MonitorModel { next: count::successor(self.next), ..self }
    }
}

impl View for ThreadMonitor {
    type V = MonitorModel;

    closed spec fn view(&self) -> MonitorModel {
        MonitorModel {
            on: self.on,
            next: self.next,
            messages: queue::queue_contents(self.messages),
        }
    }
}

impl ThreadMonitor {
    /// A monitor that is turned off and has not been told anything.
    pub fn new() -> (monitor: ThreadMonitor)
        ensures
            monitor@ == (MonitorModel { on: false, next: 0, messages: Seq::empty() }),
    {
        ThreadMonitor { on: false, next: 0, messages: queue::queue_new() }
    }

    /// A thread has started: gives it its number, and keeps the message if the monitor is on.
    ///
    /// The time of the message is what the clock gives.
    pub fn started(&mut self, name: String, state: Option<SharedState>) -> (n: usize)
        ensures
            n == old(self)@.next,
            exists|tm: OffsetDateTime|
                final(self)@ == #[trigger] old(self)@.numbered().told(
                    ThreadStatus::Started { n, name, tm, state },
                ),
            final(self)@.on == old(self)@.on,
            final(self)@.next == (old(self)@.next + 1) % (usize::MAX + 1),
            old(self)@.on ==> exists|tm: OffsetDateTime| #[trigger]
                clock::is_reading(tm) && final(self)@.messages == old(self)@.messages.push(
                    ThreadStatus::Started { n, name, tm, state },
                ),
            !old(self)@.on ==> final(self)@.messages == old(self)@.messages,
    {
        proof {
            law_start_moves_the_number_on(old(self)@);
        }
        if self.on {
            let tm = clock::reading();
            self.started_at(name, state, tm)
        } else {
            let n = self.number();
            proof {
                let tm: OffsetDateTime = arbitrary();
                assert(self@ == old(self)@.numbered().told(
                    ThreadStatus::Started { n, name, tm, state },
                ));
            }
            n
        }
    }

    /// A thread has started at `tm`.
    pub fn started_at(&mut self, name: String, state: Option<SharedState>, tm: OffsetDateTime)
        -> (n: usize)
        ensures
            n == old(self)@.next,
            final(self)@ == old(self)@.numbered().told(
                ThreadStatus::Started { n, name, tm, state },
            ),
            final(self)@.on == old(self)@.on,
            final(self)@.next == (old(self)@.next + 1) % (usize::MAX + 1),
            final(self)@.messages == if old(self)@.on {
                old(self)@.messages.push(ThreadStatus::Started { n, name, tm, state })
            } else {
                old(self)@.messages
            },
    {
        proof {
            law_start_moves_the_number_on(old(self)@);
        }
        let n = self.number();
        self.tell(ThreadStatus::Started { n, name, tm, state });
        n
    }

    /// A thread has finished: keeps the message if the monitor is on.
    ///
    /// The time of the message is what the clock gives.
    pub fn finished(&mut self, n: usize, name: String)
        ensures
            exists|tm: OffsetDateTime|
                final(self)@ == #[trigger] old(self)@.told(
                    ThreadStatus::Finished { n, name, tm },
                ),
            final(self)@.on == old(self)@.on,
            final(self)@.next == old(self)@.next,
            old(self)@.on ==> exists|tm: OffsetDateTime| #[trigger]
                clock::is_reading(tm) && final(self)@.messages == old(self)@.messages.push(
                    ThreadStatus::Finished { n, name, tm },
                ),
            !old(self)@.on ==> final(self)@.messages == old(self)@.messages,
    {
        if self.on {
            let tm = clock::reading();
            self.finished_at(n, name, tm);
        } else {
            proof {
                let tm: OffsetDateTime = arbitrary();
                assert(self@ == old(self)@.told(ThreadStatus::Finished { n, name, tm }));
            }
        }
    }

    /// A thread has finished at `tm`.
    pub fn finished_at(&mut self, n: usize, name: String, tm: OffsetDateTime)
        ensures
            final(self)@ == old(self)@.told(ThreadStatus::Finished { n, name, tm }),
            final(self)@.on == old(self)@.on,
            final(self)@.next == old(self)@.next,
            final(self)@.messages == if old(self)@.on {
                old(self)@.messages.push(ThreadStatus::Finished { n, name, tm })
            } else {
                old(self)@.messages
            },
    {
        self.tell(ThreadStatus::Finished { n, name, tm });
    }

    /// Keeps messages from now on.
    pub fn turn_on(&mut self)
        ensures
            final(self)@ == (MonitorModel { on: true, ..old(self)@ }),
    {
        self.on = true;
    }

    /// Keeps no messages from now on. Those that are there stay.
    pub fn turn_off(&mut self)
        ensures
            final(self)@ == (MonitorModel { on: false, ..old(self)@ }),
    {
        self.on = false;
    }

    /// Takes all messages, the oldest first. A monitor that is off gives nothing.
    pub fn process(&mut self) -> (r: Option<Vec<ThreadStatus>>)
        ensures
            match r {
                Some(v) => old(self)@.on && v@ == old(self)@.messages && final(self)@ == (
                MonitorModel { messages: Seq::empty(), ..old(self)@ }),
                None => !old(self)@.on && final(self)@ == old(self)@,
            },
    {
        if self.on {
            let mut v: Vec<ThreadStatus> = Vec::new();
            loop
                invariant
                    self.on == old(self).on,
                    self.next == old(self).next,
                    v@ + queue::queue_contents(self.messages) == queue::queue_contents(
                        old(self).messages,
                    ),
                ensures
                    self.on == old(self).on,
                    self.next == old(self).next,
                    v@ == queue::queue_contents(old(self).messages),
                    queue::queue_contents(self.messages) == Seq::<ThreadStatus>::empty(),
                decreases queue::queue_contents(self.messages).len(),
            {
                match queue::queue_pop(&mut self.messages) {
                    Some(msg) => {
                        v.push(msg);
                    },
                    None => {
                        break;
                    },
                }
            }
            Some(v)
        } else {
            None
        }
    }

    fn number(&mut self) -> (n: usize)
        ensures
            n == old(self)@.next,
            final(self)@ == old(self)@.numbered(),
    {
        let n = self.next;
        self.next = n.wrapping_add(1);
        n
    }

    fn tell(&mut self, status: ThreadStatus)
        ensures
            final(self)@ == old(self)@.told(status),
    {
        if self.on {
            queue::queue_push(&mut self.messages, status);
        }
    }
}

/// The number that the monitor gives out after it has given out `given` numbers from `first` on.
pub open spec fn number_after(first: usize, given: nat) -> usize
    decreases given,
{
    if given == 0 {
        first
    } else {
        count::successor(number_after(first, (given - 1) as nat))
    }
}

/// The monitor after it has been told each of `statuses`, in their order.
pub open spec fn told_all(monitor: MonitorModel, statuses: Seq<ThreadStatus>) -> MonitorModel
    decreases statuses.len(),
{
    if statuses.len() == 0 {
        monitor
    } else {
        told_all(monitor, statuses.drop_last()).told(statuses.last())
    }
}

/// A start moves the number on by one, whether the monitor is on or off, and changes nothing else.
pub proof fn law_start_moves_the_number_on(monitor: MonitorModel)
    ensures
        monitor.numbered().next == (monitor.next + 1) % (usize::MAX + 1),
        monitor.numbered().on == monitor.on,
        monitor.numbered().messages == monitor.messages,
{
    count::law_successor_is_one_more(monitor.next);
}

/// What the monitor is told goes behind what it has kept if it is on, and nowhere if it is off. It
/// changes neither the number for the next thread nor whether the monitor is on.
pub proof fn law_told_is_kept_while_on(monitor: MonitorModel, status: ThreadStatus)
    ensures
        monitor.told(status).on == monitor.on,
        monitor.told(status).next == monitor.next,
        monitor.on ==> monitor.told(status).messages == monitor.messages.push(status),
        !monitor.on ==> monitor.told(status).messages == monitor.messages,
{
}

/// Threads that start one after the other get numbers that follow on one another, and so no two of
/// them the same one, unless all numbers have been given out in between. `monitors` has the monitor
/// at each start; in between it may be told things, be turned on or off, and have its messages
/// taken, none of which changes the number for the next thread.
pub proof fn law_starts_are_numbered_apart(monitors: Seq<MonitorModel>, i: int, j: int)
    requires
        0 <= i < j < monitors.len(),
        j - i <= usize::MAX,
        forall|k: int|
            0 < k < monitors.len() ==> (#[trigger] monitors[k]).next == monitors[k
                - 1].numbered().next,
    ensures
        monitors[j].next == (monitors[i].next + (j - i)) % (usize::MAX + 1),
        monitors[i].next != monitors[j].next,
    decreases j,
{
    let turn = count::turn();
    law_start_moves_the_number_on(monitors[j - 1]);
    vstd::arithmetic::div_mod::lemma_small_mod(monitors[i].next as nat, turn as nat);
    if j - i > 1 {
        law_starts_are_numbered_apart(monitors, i, j - 1);
        vstd::arithmetic::div_mod::lemma_add_mod_noop(monitors[i].next + (j - 1 - i), 1, turn);
        vstd::arithmetic::div_mod::lemma_small_mod(1, turn as nat);
    }
    if monitors[i].next == monitors[j].next {
        let n = monitors[i].next as int;
        vstd::arithmetic::div_mod::lemma_mod_equivalence(n + (j - i), n, turn);
        vstd::arithmetic::div_mod::lemma_small_mod((j - i) as nat, turn as nat);
    }
}

/// No two threads bear the same number, unless all numbers have been given out in between.
pub proof fn law_numbers_are_distinct(first: usize, i: nat, j: nat)
    requires
        i < j,
        j - i <= usize::MAX,
    ensures
        number_after(first, i) != number_after(first, j),
{
    lemma_number_after(first, i);
    lemma_number_after(first, j);
    if number_after(first, i) == number_after(first, j) {
        let turn = count::turn();
        vstd::arithmetic::div_mod::lemma_mod_equivalence(first + j, first + i, turn);
        vstd::arithmetic::div_mod::lemma_small_mod((j - i) as nat, turn as nat);
    }
}

/// A monitor that is on keeps whatever it is told, in the order in which it is told, behind what
/// it has kept before. One that is off keeps nothing and loses nothing.
pub proof fn law_messages_keep_their_order(monitor: MonitorModel, statuses: Seq<ThreadStatus>)
    ensures
        told_all(monitor, statuses) == (MonitorModel {
            messages: if monitor.on {
                monitor.messages + statuses
            } else {
                monitor.messages
            },
            ..monitor
        }),
    decreases statuses.len(),
{
    if statuses.len() > 0 {
        law_messages_keep_their_order(monitor, statuses.drop_last());
        assert((monitor.messages + statuses.drop_last()).push(statuses.last())
            =~= monitor.messages + statuses);
    }
}

/// The numbers run through all words, one turn after the other.
proof fn lemma_number_after(first: usize, given: nat)
    ensures
        number_after(first, given) == (first + given) % count::turn(),
    decreases given,
{
    if given == 0 {
        count::lemma_successor(first as int, first);
    } else {
        let before = (given - 1) as nat;
        lemma_number_after(first, before);
        count::lemma_successor(first + before, number_after(first, before));
    }
}

} // verus!
