use thread_monitor::{SharedState, State, ThreadState};

#[test]
fn a_state_reads_back_what_was_written() {
    let mut s = ThreadState::new();
    assert_eq!(s.get(), Some(State::Init));
    s.payload();
    assert_eq!(s.get(), Some(State::Payload));
    s.idle();
    assert_eq!(s.get(), Some(State::Idle));
    s.wait();
    assert_eq!(s.get(), Some(State::Wait));
    s.done();
    assert_eq!(s.get(), Some(State::Done));
    s.payload();
    assert_eq!(s.get(), Some(State::Payload));
}

fn read(handle: &SharedState) -> Option<State> {
    handle.cell.lock().unwrap().get()
}

#[test]
fn clones_share_a_state() {
    let one = SharedState::new();
    let two = one.clone();
    let three = two.clone();
    let other = SharedState::new();
    assert_eq!(read(&three), Some(State::Init));
    two.cell.lock().unwrap().idle();
    for handle in [&one, &two, &three] {
        assert_eq!(read(handle), Some(State::Idle));
    }
    one.cell.lock().unwrap().payload();
    three.cell.lock().unwrap().wait();
    other.cell.lock().unwrap().done();
    for handle in [&one, &two, &three] {
        assert_eq!(read(handle), Some(State::Wait));
    }
    assert_eq!(read(&other), Some(State::Done));
}

#[test]
fn codes_stand_for_states() {
    assert_eq!(State::opt_from(0), Some(State::Init));
    assert_eq!(State::opt_from(1), Some(State::Payload));
    assert_eq!(State::opt_from(2), Some(State::Idle));
    assert_eq!(State::opt_from(3), Some(State::Wait));
    assert_eq!(State::opt_from(4), Some(State::Done));
    assert_eq!(State::opt_from(5), None);
    assert_eq!(State::opt_from(usize::MAX), None);
}

#[test]
fn states_have_codes() {
    let code: usize = State::Init.into();
    assert_eq!(code, 0);
    let code: usize = State::Payload.into();
    assert_eq!(code, 1);
    let code: usize = State::Idle.into();
    assert_eq!(code, 2);
    let code: usize = State::Wait.into();
    assert_eq!(code, 3);
    let code: usize = State::Done.into();
    assert_eq!(code, 4);
}

#[test]
fn no_two_states_have_the_same_code() {
    for u in 0usize..5 {
        let code: usize = State::opt_from(u).unwrap().into();
        assert_eq!(code, u);
    }
}
