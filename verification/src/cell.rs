//! The cells that threads share.

use std::sync::{Arc, Mutex};

use vstd::prelude::*;

use crate::state::{State, ThreadState};
use crate::watcher::Counts;

verus! {

/// A lock around what threads share.
#[verifier::external_type_specification]
#[verifier::external_body]
#[verifier::reject_recursive_types(T)]
pub struct ExMutex<T: ?Sized>(Mutex<T>);

/// The state of a thread, shared by the thread and whoever watches it: all clones of a handle are
/// handles of one cell.
#[derive(Debug)]
pub struct SharedState {
    pub cell: Arc<Mutex<ThreadState>>,
}

/// The samples taken of a thread, shared by whoever takes them and whoever reports on them.
pub type SharedCounts = Arc<Mutex<Counts>>;

/// The state that a cell was made with.
pub uninterp spec fn first_state(cell: Mutex<ThreadState>) -> ThreadState;

/// Calls `std::sync::Mutex::new`, which makes a new lock around `state`.
///
/// That no other cell is the same as the new one is left unsaid.
#[verifier::external_body]
fn state_cell(state: ThreadState) -> (cell: Mutex<ThreadState>)
    ensures
        first_state(cell) == state,
{
    Mutex::new(state)
}

impl SharedState {
    /// A handle of a new cell, for a thread that has not said anything yet.
    pub fn new() -> (handle: SharedState)
        ensures
            first_state(*handle.cell)@ == State::Init,
    {
        SharedState { cell: Arc::new(state_cell(ThreadState::new())) }
    }
}

impl Clone for SharedState {
    /// Another handle of the same cell.
    fn clone(&self) -> (handle: SharedState)
        ensures
            handle == *self,
    {
        SharedState { cell: self.cell.clone() }
    }
}

/// A call on a thread's state: through which handle it is made, and which state it sets.
pub struct StateCall {
    pub on: SharedState,
    pub sets: State,
}

/// What the cells hold after `calls`, made one after the other: each cell holds what it was made
/// with, until a call sets what the cell of its handle holds.
pub open spec fn held_after(calls: Seq<StateCall>) -> Map<SharedState, State>
    decreases calls.len(),
{
    if calls.len() == 0 {
        Map::new(|handle: SharedState| true, |handle: SharedState| first_state(*handle.cell)@)
    } else {
        held_after(calls.drop_last()).insert(calls.last().on, calls.last().sets)
    }
}

/// Whatever calls are made on a state through a handle and through its clones, the state that is
/// read through any of them is the one that the last of these calls set, through whichever handle
/// it was made; without a call it is the one that the cell was made with. Calls on other states do
/// not matter.
///
/// `clone` is a clone of `handle`, or the handle itself.
pub proof fn law_clones_share_a_state(
    calls: Seq<StateCall>,
    handle: SharedState,
    clone: SharedState,
)
    requires
        clone == handle,
    ensures
        forall|i: int|
            0 <= i < calls.len() && (#[trigger] calls[i]).on == handle && (forall|j: int|
                i < j < calls.len() ==> (#[trigger] calls[j]).on != handle) ==> held_after(
                calls,
            )[clone] == calls[i].sets,
        (forall|i: int| 0 <= i < calls.len() ==> (#[trigger] calls[i]).on != handle) ==> held_after(
            calls,
        )[clone] == first_state(*handle.cell)@,
    decreases calls.len(),
{
    if calls.len() > 0 {
        let earlier = calls.drop_last();
        law_clones_share_a_state(earlier, handle, clone);
        if calls.last().on != handle {
            assert forall|i: int|
                0 <= i < calls.len() && (#[trigger] calls[i]).on == handle && (forall|j: int|
                    i < j < calls.len() ==> (#[trigger] calls[j]).on != handle) implies held_after(
                calls,
            )[clone] == calls[i].sets by {
                assert(earlier[i] == calls[i]);
            }
        }
    }
}

/// The counts that a cell was made with.
pub uninterp spec fn first_counts(cell: Mutex<Counts>) -> Counts;

/// Calls `std::sync::Mutex::new`, which makes a new lock around `counts`.
///
/// That no other cell is the same as the new one is left unsaid.
#[verifier::external_body]
pub(crate) fn counts_cell(counts: Counts) -> (cell: Mutex<Counts>)
    ensures
        first_counts(cell) == counts,
{
    Mutex::new(counts)
}

} // verus!
