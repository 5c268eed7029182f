//! What a watched thread says it is doing.

use vstd::prelude::*;

verus! {

/// An activity of a watched thread.
#[derive(Debug, Clone, Copy, PartialEq, Eq, Structural)]
pub enum State {
    Init,
    Payload,
    Idle,
    Wait,
    Done,
}

impl State {
    /// The number that stands for the state.
    pub open spec fn code(self) -> usize {
        match self {
            State::Init => 0,
            State::Payload => 1,
            State::Idle => 2,
            State::Wait => 3,
            State::Done => 4,
        }
    }

    /// The state that a number stands for, if it stands for any.
    pub fn opt_from(u: usize) -> (r: Option<State>)
        ensures
            match r {
                Some(s) => s.code() == u,
                None => forall|s: State| s.code() != u,
            },
            r == match u {
                0 => Some(State::Init),
                1 => Some(State::Payload),
                2 => Some(State::Idle),
                3 => Some(State::Wait),
                4 => Some(State::Done),
                _ => None,
            },
    {
        Some(
            match u {
                0 => State::Init,
                1 => State::Payload,
                2 => State::Idle,
                3 => State::Wait,
                4 => State::Done,
                _ => return None,
            },
        )
    }
}

impl From<State> for usize {
    fn from(state: State) -> (code: usize) {
        match state {
            State::Init => 0,
            State::Payload => 1,
            State::Idle => 2,
            State::Wait => 3,
            State::Done => 4,
        }
    }
}

impl vstd::std_specs::convert::FromSpecImpl<State> for usize {
    open spec fn obeys_from_spec() -> bool {
        true
    }

    open spec fn from_spec(state: State) -> usize {
        state.code()
    }
}

/// No two states have the same code.
pub proof fn law_codes_are_distinct(a: State, b: State)
    ensures
        a.code() == b.code() <==> a == b,
{
}

/// The codes of the states are the numbers from zero to four, each for the state that it stands
/// for.
pub proof fn law_codes_count_the_states(state: State)
    ensures
        state.code() <= 4,
        state.code() == 0 <==> state == State::Init,
        state.code() == 1 <==> state == State::Payload,
        state.code() == 2 <==> state == State::Idle,
        state.code() == 3 <==> state == State::Wait,
        state.code() == 4 <==> state == State::Done,
        <usize as vstd::std_specs::convert::FromSpec<State>>::from_spec(state) == state.code(),
{
}

/// The state of one thread, kept as the code of a [`State`].
///
/// The thread itself moves it on; whoever watches the thread reads it.
#[derive(Debug)]
pub struct ThreadState {
    code: usize,
}

impl View for ThreadState {
    type V = State;

    closed spec fn view(&self) -> State {
        choose|s: State| s.code() == self.code
    }
}

impl ThreadState {
    /// The code is always that of a state.
    #[verifier::type_invariant]
    spec fn code_is_known(self) -> bool {
        exists|s: State| s.code() == self.code
    }

    /// A thread that has not said anything yet.
    pub fn new() -> (state: ThreadState)
        ensures
            state@ == State::Init,
    {
        ThreadState { code: State::Init.into() }
    }

    /// The current state.
    pub fn get(&self) -> (r: Option<State>)
        ensures
            r == Some(self@),
    {
        proof {
            use_type_invariant(self);
        }
        State::opt_from(self.code)
    }

    /// The thread works on its payload.
    pub fn payload(&mut self)
        ensures
            final(self)@ == State::Payload,
    {
        self.code = State::Payload.into();
    }

    /// The thread has nothing to do.
    pub fn idle(&mut self)
        ensures
            final(self)@ == State::Idle,
    {
        self.code = State::Idle.into();
    }

    /// The thread waits for something.
    pub fn wait(&mut self)
        ensures
            final(self)@ == State::Wait,
    {
        self.code = State::Wait.into();
    }

    /// The thread has come to its end.
    pub fn done(&mut self)
        ensures
            final(self)@ == State::Done,
    {
        self.code = State::Done.into();
    }
}

} // verus!
