//! Bookkeeping of a thread monitor: which threads started and finished, what each
//! watched thread is doing, and how its time divides over its states.

pub mod cell;
pub mod clock;
pub mod count;
pub mod monitor;
pub mod queue;
pub mod run;
pub mod state;
pub mod thread_monitor;
pub mod watcher;

pub use cell::{SharedCounts, SharedState};
pub use run::ThreadRun;
pub use state::{State, ThreadState};
pub use thread_monitor::{ThreadMonitor, ThreadStatus};
pub use watcher::{Counts, StateWatcher};
