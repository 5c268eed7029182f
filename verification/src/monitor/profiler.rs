//! The list of watchers to sample, and the steps of the thread that samples.

use vstd::prelude::*;

use super::swap;
use crate::watcher::StateWatcher;

verus! {

/// The rate of samples where nobody asks for another one.
pub const DEFAULT_SAMPLES_PER_SEC: u16 = 100;

/// What came of a look for new watchers.
pub enum WatcherPoll {
    Received(StateWatcher),
    Empty,
    Disconnected,
}

/// What is to be done next.
#[derive(Debug, Clone, Copy, PartialEq, Eq, Structural)]
pub enum ProfilerAction {
    /// Look for a new watcher, and come back with [`Profiler::received`].
    Poll,
    /// Take a sample with each watcher, come back with [`Profiler::sampled`], then sleep for
    /// [`Profiler::pause_nanos`] and poll.
    Sample,
    /// Stop for good.
    Stop,
}

/// The watchers to sample.
pub struct Profiler {
    max_samples_per_sec: u16,
    to_watch: Vec<StateWatcher>,
    draining: bool,
}

/// The rate of the samples, the watchers to sample, and whether all new watchers are being taken
/// in, not just one.
pub struct ProfilerModel {
    pub sps: u32,
    pub to_watch: Seq<StateWatcher>,
    pub draining: bool,
}

impl View for Profiler {
    type V = ProfilerModel;

    closed spec fn view(&self) -> ProfilerModel {
        ProfilerModel {
            sps: (1 + self.max_samples_per_sec) as u32,
            to_watch: self.to_watch@,
            draining: self.draining,
        }
    }
}

impl ProfilerModel {
    /// At ten samples per second or fewer, all new watchers are taken in before each round.
    pub open spec fn is_slow(self) -> bool {
        self.sps <= 10
    }

    /// The list after a look for new watchers.
    pub open spec fn after_poll(self, poll: WatcherPoll) -> ProfilerModel {
        match poll {
            WatcherPoll::Received(watcher) => ProfilerModel {
                to_watch: self.to_watch.push(watcher),
                draining: self.draining || self.is_slow(),
                ..self
            },
            _ => self,
        }
    }

    /// What comes after a look for new watchers. That nobody sends any more matters only at the
    /// first look of a round.
    pub open spec fn next_action(self, poll: WatcherPoll) -> ProfilerAction {
        match poll {
            WatcherPoll::Received(_) => if self.draining || self.is_slow() {
                ProfilerAction::Poll
            } else {
                ProfilerAction::Sample
            },
            WatcherPoll::Empty => ProfilerAction::Sample,
            WatcherPoll::Disconnected => if self.draining {
                ProfilerAction::Sample
            } else {
                ProfilerAction::Stop
            },
        }
    }

    /// The list after a round of samples. `watching` says of each watcher whether it is to be
    /// sampled again; the last one that is not leaves the list.
    pub open spec fn after_round(self, watching: Seq<bool>) -> ProfilerModel {
        ProfilerModel {
            to_watch: match watching.index_of_last(false) {
                Some(i) => swap::swap_removed(self.to_watch, i),
                None => self.to_watch,
            },
            draining: false,
            ..self
        }
    }
}

impl Profiler {
    /// An empty list, for one sample per second more than `max_samples_per_sec`.
    pub fn new(max_samples_per_sec: u16) -> (profiler: Profiler)
        ensures
            profiler@ == (ProfilerModel {
                sps: (1 + max_samples_per_sec) as u32,
                to_watch: Seq::empty(),
                draining: false,
            }),
    {
        Profiler {
            max_samples_per_sec,
            to_watch: Vec::with_capacity(1024),
            draining: false,
        }
    }

    /// How long to sleep between two rounds of samples.
    pub fn pause_nanos(&self) -> (nanos: u32)
        ensures
            self@.sps > 0,
            nanos == 1_000_000_000int / self@.sps as int,
    {
        1_000_000_000 / self.sps()
    }

    /// The number of watchers in the list.
    pub fn len(&self) -> (len: usize)
        ensures
            len == self@.to_watch.len(),
    {
        self.to_watch.len()
    }

    /// The watcher at place `i` of the list.
    pub fn watcher(&self, i: usize) -> (watcher: &StateWatcher)
        requires
            i < self@.to_watch.len(),
        ensures
            *watcher == self@.to_watch[i as int],
    {
        &self.to_watch[i]
    }

    /// Goes on after a look for new watchers.
    pub fn received(&mut self, poll: WatcherPoll) -> (action: ProfilerAction)
        ensures
            action == old(self)@.next_action(poll),
            final(self)@ == old(self)@.after_poll(poll),
            final(self)@.sps == old(self)@.sps,
            match poll {
                WatcherPoll::Received(watcher) => {
                    let slow = old(self)@.draining || old(self)@.sps <= 10;
                    &&& final(self)@.to_watch == old(self)@.to_watch.push(watcher)
                    &&& final(self)@.draining == slow
                    &&& action == if slow {
                        ProfilerAction::Poll
                    } else {
                        ProfilerAction::Sample
                    }
                },
                WatcherPoll::Empty => {
                    &&& final(self)@ == old(self)@
                    &&& action == ProfilerAction::Sample
                },
                WatcherPoll::Disconnected => {
                    &&& final(self)@ == old(self)@
                    &&& action == if old(self)@.draining {
                        ProfilerAction::Sample
                    } else {
                        ProfilerAction::Stop
                    }
                },
            },
    {
        match poll {
            WatcherPoll::Received(watcher) => {
                self.to_watch.push(watcher);
                if self.sps() <= 10 {
                    self.draining = true;
                }
                if self.draining {
                    ProfilerAction::Poll
                } else {
                    ProfilerAction::Sample
                }
            },
            WatcherPoll::Empty => ProfilerAction::Sample,
            WatcherPoll::Disconnected => if self.draining {
                ProfilerAction::Sample
            } else {
                ProfilerAction::Stop
            },
        }
    }

    /// Goes on after a round of samples.
    pub fn sampled(&mut self, watching: &Vec<bool>)
        requires
            watching@.len() == old(self)@.to_watch.len(),
        ensures
            final(self)@ == old(self)@.after_round(watching@),
            final(self)@.sps == old(self)@.sps,
            !final(self)@.draining,
            (forall|i: int| 0 <= i < watching@.len() ==> watching@[i]) ==> final(self)@.to_watch
                == old(self)@.to_watch,
            forall|i: int|
                0 <= i < watching@.len() && !#[trigger] watching@[i] && (forall|j: int|
                    i < j < watching@.len() ==> watching@[j]) ==> {
                    let (before, after) = (old(self)@.to_watch, final(self)@.to_watch);
                    &&& after.len() == before.len() - 1
                    &&& i < after.len() ==> after[i] == before[before.len() - 1]
                    &&& forall|j: int| 0 <= j < after.len() && j != i ==> after[j] == before[j]
                },
    {
        proof {
            law_round_retires_the_last(old(self)@, watching@);
        }
        let mut to_remove: Option<usize> = None;
        let mut i: usize = 0;
        while i < watching.len()
            invariant
                i <= watching@.len(),
                match to_remove {
                    Some(k) => k < i && !watching@[k as int] && forall|j: int|
                        k < j < i ==> watching@[j],
                    None => forall|j: int| 0 <= j < i ==> watching@[j],
                },
            decreases watching@.len() - i,
        {
            if !watching[i] {
                to_remove = Some(i);
            }
            i += 1;
        }
        proof {
            watching@.index_of_last_ensures(false);
        }
        if let Some(idx) = to_remove {
            self.to_watch.swap_remove(idx);
        }
        self.draining = false;
    }

    fn sps(&self) -> (sps: u32)
        ensures
            sps == self@.sps,
            sps > 0,
    {
        1u32 + self.max_samples_per_sec as u32
    }
}

/// A look for new watchers stops the profiler only if nobody can send any more, and only at the
/// first look of a round. A look that finds none leads to a round of samples, and leaves the list
/// as it is. A watcher that is found goes to the end of the list; more are looked for exactly if
/// the round takes in all of them, which it does at ten samples per second or fewer.
pub proof fn law_looks_lead_to_samples(profiler: ProfilerModel, poll: WatcherPoll)
    ensures
        profiler.after_poll(poll).sps == profiler.sps,
        profiler.next_action(poll) == ProfilerAction::Stop <==> poll is Disconnected
            && !profiler.draining,
        profiler.next_action(poll) == ProfilerAction::Poll <==> poll is Received && (
        profiler.draining || profiler.sps <= 10),
        poll is Empty ==> profiler.next_action(poll) == ProfilerAction::Sample,
        poll is Received ==> {
            &&& profiler.after_poll(poll).to_watch == profiler.to_watch.push(poll->Received_0)
            &&& profiler.after_poll(poll).draining == (profiler.draining || profiler.sps <= 10)
        },
        !(poll is Received) ==> profiler.after_poll(poll) == profiler,
{
}

/// A round that begins anew and looks for watchers until it is told to do otherwise ends its looks
/// with a round of samples, as long as somebody can send: all watchers found stand in the list,
/// behind those that were there, in the order in which they were found. A fast round looks once, a
/// slow one until it finds none.
pub proof fn law_round_takes_in_what_it_finds(
    profilers: Seq<ProfilerModel>,
    found: Seq<StateWatcher>,
    last: WatcherPoll,
)
    requires
        profilers.len() == found.len() + 2,
        !profilers[0].draining,
        forall|k: int|
            0 <= k < found.len() ==> {
                &&& profilers[k + 1] == profilers[k].after_poll(
                    WatcherPoll::Received(#[trigger] found[k]),
                )
                &&& profilers[k].next_action(WatcherPoll::Received(found[k]))
                    == ProfilerAction::Poll
            },
        profilers.last() == profilers[found.len() as int].after_poll(last),
        profilers[found.len() as int].next_action(last) != ProfilerAction::Poll,
    ensures
        profilers.last().sps == profilers[0].sps,
        profilers.last().to_watch == profilers[0].to_watch + found + (if last is Received {
            seq![last->Received_0]
        } else {
            Seq::<StateWatcher>::empty()
        }),
        found.len() > 0 ==> profilers[0].sps <= 10 && !(last is Received),
        profilers[found.len() as int].next_action(last) == ProfilerAction::Stop <==> found.len()
            == 0 && last is Disconnected,
{
    lemma_looks(profilers, found, found.len() as int);
    law_looks_lead_to_samples(profilers[found.len() as int], last);
}

/// What the list holds after the first `k` looks of a round.
proof fn lemma_looks(profilers: Seq<ProfilerModel>, found: Seq<StateWatcher>, k: int)
    requires
        0 <= k <= found.len(),
        found.len() < profilers.len(),
        !profilers[0].draining,
        forall|k: int|
            0 <= k < found.len() ==> {
                &&& profilers[k + 1] == profilers[k].after_poll(
                    WatcherPoll::Received(#[trigger] found[k]),
                )
                &&& profilers[k].next_action(WatcherPoll::Received(found[k]))
                    == ProfilerAction::Poll
            },
    ensures
        profilers[k].sps == profilers[0].sps,
        profilers[k].to_watch == profilers[0].to_watch + found.take(k),
        profilers[k].draining == (k > 0),
        k > 0 ==> profilers[0].sps <= 10,
    decreases k,
{
    if k > 0 {
        lemma_looks(profilers, found, k - 1);
        law_looks_lead_to_samples(profilers[k - 1], WatcherPoll::Received(found[k - 1]));
    }
}

/// Of the watchers that are not to be sampled again, a round retires the one that stands last in
/// the list, and the last of all takes its place. Where all are to be sampled again, all stay where
/// they are.
pub proof fn law_round_retires_the_last(profiler: ProfilerModel, watching: Seq<bool>)
    requires
        watching.len() == profiler.to_watch.len(),
    ensures
        profiler.after_round(watching).sps == profiler.sps,
        !profiler.after_round(watching).draining,
        (forall|i: int| 0 <= i < watching.len() ==> watching[i]) ==> profiler.after_round(
            watching,
        ).to_watch == profiler.to_watch,
        forall|i: int|
            0 <= i < watching.len() && !#[trigger] watching[i] && (forall|j: int|
                i < j < watching.len() ==> watching[j]) ==> {
                let (before, after) = (
                    profiler.to_watch,
                    profiler.after_round(watching).to_watch,
                );
                &&& after.len() == before.len() - 1
                &&& i < after.len() ==> after[i] == before[before.len() - 1]
                &&& forall|j: int| 0 <= j < after.len() && j != i ==> after[j] == before[j]
            },
{
    watching.index_of_last_ensures(false);
    if let Some(i) = watching.index_of_last(false) {
        swap::law_swap_removed_puts_the_last_in_place(profiler.to_watch, i);
    }
}

/// A round of samples retires one watcher, as long as there is one to retire: one of those that
/// are not to be sampled again leaves the list, and all others stay in it.
pub proof fn law_round_retires_one(profiler: ProfilerModel, watching: Seq<bool>)
    requires
        watching.len() == profiler.to_watch.len(),
    ensures
        ({
            let before = profiler.to_watch;
            let after = profiler.after_round(watching).to_watch;
            if watching.contains(false) {
                exists|i: int|
                    0 <= i < watching.len() && !#[trigger] watching[i] && after.to_multiset()
                        == before.to_multiset().remove(before[i]) && after.len() == before.len() - 1
            } else {
                after == before
            }
        }),
{
    watching.index_of_last_ensures(false);
    if let Some(i) = watching.index_of_last(false) {
        swap::law_swap_removed_loses_one(profiler.to_watch, i);
    }
}

} // verus!
