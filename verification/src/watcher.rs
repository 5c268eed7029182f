//! Sampling the state of a thread.

use vstd::prelude::*;

use crate::cell::{SharedCounts, SharedState};
use crate::count;
use crate::state::{State, ThreadState};

verus! {

/// How often a thread was seen in each state. Every counter wraps around.
#[derive(Debug, Clone, Copy, PartialEq, Eq, Structural)]
pub struct Counts {
    pub payload: usize,
    pub idle: usize,
    pub wait: usize,
    pub unknown: usize,
    pub measures: usize,
}

impl Counts {
    /// No sample taken.
    pub open spec fn zero() -> Counts {
        Counts { payload: 0, idle: 0, wait: 0, unknown: 0, measures: 0 }
    }

    /// The counts after one more sample, which found the thread in `state`.
    pub open spec fn sampled(self, state: State) -> Counts {
        match state {
            State::Init => Counts {
                unknown: count::successor(self.unknown),
                measures: count::successor(self.measures),
                ..self
            },
            State::Payload => Counts {
                payload: count::successor(self.payload),
                measures: count::successor(self.measures),
                ..self
            },
            State::Idle => Counts {
                idle: count::successor(self.idle),
                measures: count::successor(self.measures),
                ..self
            },
            State::Wait => Counts {
                wait: count::successor(self.wait),
                measures: count::successor(self.measures),
                ..self
            },
            State::Done => self,
        }
    }

    /// The counts after one sample for each of `states`, in their order.
    pub open spec fn sampled_all(self, states: Seq<State>) -> Counts
        decreases states.len(),
    {
        if states.len() == 0 {
            self
        } else {
            self.sampled_all(states.drop_last()).sampled(states.last())
        }
    }

    /// By how much the states together are ahead of the number of samples.
    pub open spec fn excess(self) -> int {
        self.payload + self.idle + self.wait + self.unknown - self.measures
    }

    /// Every sample is counted under one state: up to whole turns of the counters, the states
    /// add up to the number of samples.
    pub open spec fn balanced(self) -> bool {
        self.excess() % count::turn() == 0
    }

    /// Counters before the first sample.
    pub fn new() -> (counts: Counts)
        ensures
            counts == Counts::zero(),
            counts == (Counts { payload: 0, idle: 0, wait: 0, unknown: 0, measures: 0 }),
    {
        Counts { payload: 0, idle: 0, wait: 0, unknown: 0, measures: 0 }
    }
}

/// What is needed to sample a thread: its state, and the counters of the samples.
#[derive(Debug)]
pub struct StateWatcher {
    pub state: SharedState,
    pub counts: SharedCounts,
}

impl StateWatcher {
    /// Takes one sample, and says whether the thread is still worth watching. A thread that is
    /// done is not, and the sample is not counted.
    ///
    /// `state` and `counts` are what the two cells of a watcher hold.
    pub fn process(state: &ThreadState, counts: &mut Counts) -> (watching: bool)
        ensures
            watching == (state@ != State::Done),
            *final(counts) == old(counts).sampled(state@),
            final(counts).payload == (old(counts).payload + (if state@ == State::Payload {
                1int
            } else {
                0
            })) % (usize::MAX + 1),
            final(counts).idle == (old(counts).idle + (if state@ == State::Idle {
                1int
            } else {
                0
            })) % (usize::MAX + 1),
            final(counts).wait == (old(counts).wait + (if state@ == State::Wait {
                1int
            } else {
                0
            })) % (usize::MAX + 1),
            final(counts).unknown == (old(counts).unknown + (if state@ == State::Init {
                1int
            } else {
                0
            })) % (usize::MAX + 1),
            final(counts).measures == (old(counts).measures + (if state@ == State::Done {
                0int
            } else {
                1
            })) % (usize::MAX + 1),
    {
        proof {
            law_sample_is_counted_once(*old(counts), state@);
        }
        match state.get() {
            Some(s) => {
                match s {
                    State::Init => {
                        counts.unknown = counts.unknown.wrapping_add(1);
                    },
                    State::Payload => {
                        counts.payload = counts.payload.wrapping_add(1);
                    },
                    State::Idle => {
                        counts.idle = counts.idle.wrapping_add(1);
                    },
                    State::Wait => {
                        counts.wait = counts.wait.wrapping_add(1);
                    },
                    State::Done => return false,
                }
                counts.measures = counts.measures.wrapping_add(1);
                true
            },
            None => false,
        }
    }
}

/// A sample moves on the counter of the state that it finds and the number of samples, each by one,
/// and leaves the other counters. A thread that is done moves none.
pub proof fn law_sample_is_counted_once(counts: Counts, state: State)
    ensures
        ({
            let after = counts.sampled(state);
            let turn = usize::MAX + 1;
            &&& after.payload == (counts.payload + (if state == State::Payload {
                1int
            } else {
                0
            })) % turn
            &&& after.idle == (counts.idle + (if state == State::Idle {
                1int
            } else {
                0
            })) % turn
            &&& after.wait == (counts.wait + (if state == State::Wait {
                1int
            } else {
                0
            })) % turn
            &&& after.unknown == (counts.unknown + (if state == State::Init {
                1int
            } else {
                0
            })) % turn
            &&& after.measures == (counts.measures + (if state == State::Done {
                0int
            } else {
                1
            })) % turn
        }),
{
    count::lemma_successor(counts.payload as int, counts.payload);
    count::lemma_successor(counts.idle as int, counts.idle);
    count::lemma_successor(counts.wait as int, counts.wait);
    count::lemma_successor(counts.unknown as int, counts.unknown);
    count::lemma_successor(counts.measures as int, counts.measures);
}

/// Samples may be taken in two runs.
pub(crate) proof fn lemma_sampled_concat(counts: Counts, first: Seq<State>, second: Seq<State>)
    ensures
        counts.sampled_all(first + second) == counts.sampled_all(first).sampled_all(second),
    decreases second.len(),
{
    if second.len() > 0 {
        assert((first + second).drop_last() =~= first + second.drop_last());
        lemma_sampled_concat(counts, first, second.drop_last());
    }
}

/// A sample keeps the counts balanced, and they are balanced before the first one.
pub proof fn law_samples_balance(counts: Counts, state: State)
    ensures
        Counts::zero().balanced(),
        counts.balanced() ==> counts.sampled(state).balanced(),
{
    vstd::arithmetic::div_mod::lemma_small_mod(0, count::turn() as nat);
    let before = counts.excess();
    let after = counts.sampled(state).excess();
    if after == before + count::turn() {
        count::lemma_turns(after, before, 1);
    } else if after == before - count::turn() {
        count::lemma_turns(after, before, -1);
    }
}

} // verus!
