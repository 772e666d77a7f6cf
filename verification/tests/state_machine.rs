use bevy_app::state::{State, StateError};

#[test]
fn push_pop_returns_to_the_previous_state() {
    let mut s = State::new(1);
    assert_eq!(s.current(), 1);
    assert_eq!(s.push(2), Ok(()));
    assert_eq!(s.current(), 2);
    assert_eq!(s.pop(), Ok(2));
    assert_eq!(s.current(), 1);
}

#[test]
fn replace_swaps_the_current_value() {
    let mut s = State::new(1);
    assert_eq!(s.replace(3), Ok(()));
    assert_eq!(s.current(), 3);
    assert_eq!(s.pop(), Err(StateError::StackEmpty));
    assert_eq!(s.current(), 3);
}

#[test]
fn transition_into_the_current_state_is_refused() {
    let mut s = State::new(1);
    assert_eq!(s.replace(1), Err(StateError::AlreadyInState));
    assert_eq!(s.push(1), Err(StateError::AlreadyInState));
    assert_eq!(s.current(), 1);
}

#[test]
fn popping_the_last_state_is_refused() {
    let mut s = State::new(7);
    assert_eq!(s.pop(), Err(StateError::StackEmpty));
    assert_eq!(s.current(), 7);
}
