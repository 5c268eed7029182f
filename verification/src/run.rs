//! The run of one thread, from its start to its end.

use time::OffsetDateTime;
use vstd::prelude::*;

use crate::cell::SharedState;
use crate::clock;
use crate::state::{State, ThreadState};
use crate::thread_monitor::{ThreadMonitor, ThreadStatus};

verus! {

/// What a thread is called: by its name, or by its id where it has no name.
pub fn thread_label(name: Option<&str>, id: String) -> (label: String)
    ensures
        label@ == match name {
            Some(n) => n@,
            None => id@,
        },
{
    match name {
        Some(n) => n.to_string(),
        None => id,
    }
}

/// A thread that runs, with the number that the monitor gave it.
pub struct ThreadRun {
    pub n: usize,
    pub name: String,
}

impl ThreadRun {
    /// The thread starts: tells the monitor.
    pub fn begin(monitor: &mut ThreadMonitor, name: String, state: Option<SharedState>) -> (run:
        ThreadRun)
        ensures
            run.n == old(monitor)@.next,
            run.name == name,
            exists|tm: OffsetDateTime|
                final(monitor)@ == #[trigger] old(monitor)@.numbered().told(
                    ThreadStatus::Started { n: old(monitor)@.next, name, tm, state },
                ),
            final(monitor)@.on == old(monitor)@.on,
            final(monitor)@.next == (old(monitor)@.next + 1) % (usize::MAX + 1),
            old(monitor)@.on ==> exists|tm: OffsetDateTime| #[trigger]
                clock::is_reading(tm) && final(monitor)@.messages == old(monitor)@.messages.push(
                    ThreadStatus::Started { n: run.n, name, tm, state },
                ),
            !old(monitor)@.on ==> final(monitor)@.messages == old(monitor)@.messages,
    {
        let n = monitor.started(name.clone(), state);
        ThreadRun { n, name }
    }

    /// The thread ends: tells the monitor, under the number and the name of the start.
    pub fn end(self, monitor: &mut ThreadMonitor)
        ensures
            exists|tm: OffsetDateTime|
                final(monitor)@ == #[trigger] old(monitor)@.told(
                    ThreadStatus::Finished { n: self.n, name: self.name, tm },
                ),
            final(monitor)@.on == old(monitor)@.on,
            final(monitor)@.next == old(monitor)@.next,
            old(monitor)@.on ==> exists|tm: OffsetDateTime| #[trigger]
                clock::is_reading(tm) && final(monitor)@.messages == old(monitor)@.messages.push(
                    ThreadStatus::Finished { n: self.n, name: self.name, tm },
                ),
            !old(monitor)@.on ==> final(monitor)@.messages == old(monitor)@.messages,
    {
        monitor.finished(self.n, self.name);
    }

    /// A thread that is watched ends: its state says so, and the monitor is told.
    pub fn end_watched(self, state: &mut ThreadState, monitor: &mut ThreadMonitor)
        ensures
            final(state)@ == State::Done,
            exists|tm: OffsetDateTime|
                final(monitor)@ == #[trigger] old(monitor)@.told(
                    ThreadStatus::Finished { n: self.n, name: self.name, tm },
                ),
            final(monitor)@.on == old(monitor)@.on,
            final(monitor)@.next == old(monitor)@.next,
            old(monitor)@.on ==> exists|tm: OffsetDateTime| #[trigger]
                clock::is_reading(tm) && final(monitor)@.messages == old(monitor)@.messages.push(
                    ThreadStatus::Finished { n: self.n, name: self.name, tm },
                ),
            !old(monitor)@.on ==> final(monitor)@.messages == old(monitor)@.messages,
    {
        state.done();
        self.end(monitor);
    }
}

} // verus!
