//! Resource-backed finite-state values.
//!
//! A state holds a current value on top of a transition stack, so that a
//! pushed state can later be popped to return to the one below it. State
//! values are interned integer keys, comparable and stable as map keys.
//! A driver registered on a stage gates state-scoped systems by comparing
//! their declared scope against the current value at stage entry.

use vstd::prelude::*;

verus! {

/// Why a state transition was refused.
#[derive(Clone, Copy, Debug, PartialEq, Eq, Structural)]
pub enum StateError {
    /// The requested state is already the current one.
    AlreadyInState,
    /// Popping would leave the stack empty.
    StackEmpty,
}

/// A finite-state value with push/pop/replace transitions.
///
/// The stack is never empty; its top is the current value.
pub struct State {
    stack: Vec<u64>,
}

impl View for State {
    type V = Seq<u64>;

    closed spec fn view(&self) -> Seq<u64> {
        self.stack@
    }
}

impl State {
    /// The stack is never empty.
    pub open spec fn wf(self) -> bool {
        self@.len() >= 1
    }

    /// The current value: the top of the stack.
    pub open spec fn spec_current(self) -> u64
        recommends
            self.wf(),
    {
        self@.last()
    }

    /// A state whose stack holds exactly `initial`.
    pub fn new(initial: u64) -> (r: State)
        ensures
            r@ == seq![initial],
            r.wf(),
            r.spec_current() == initial,
    {
        let mut stack: Vec<u64> = Vec::new();
        stack.push(initial);
        State { stack }
    }

    /// Executable form of [`State::spec_current`].
    pub fn current(&self) -> (r: u64)
        requires
            self.wf(),
        ensures
            r == self.spec_current(),
    {
        self.stack[self.stack.len() - 1]
    }

    /// Replaces the current value, keeping the rest of the stack.
    /// Refused when `value` is already current.
    pub fn replace(&mut self, value: u64) -> (r: Result<(), StateError>)
        requires
            old(self).wf(),
        ensures
            final(self).wf(),
            old(self).spec_current() == value ==> r == Err::<(), StateError>(
                StateError::AlreadyInState,
            ) && final(self)@ == old(self)@,
            old(self).spec_current() != value ==> r == Ok::<(), StateError>(()) && final(self)@
                == old(self)@.update(old(self)@.len() - 1, value),
    {
        let top: usize = self.stack.len() - 1;
        if self.stack[top] == value {
            Err(StateError::AlreadyInState)
        } else {
            self.stack[top] = value;
            Ok(())
        }
    }

    /// Pushes a new current value on top of the stack.
    /// Refused when `value` is already current.
    pub fn push(&mut self, value: u64) -> (r: Result<(), StateError>)
        requires
            old(self).wf(),
            old(self)@.len() < usize::MAX,
        ensures
            final(self).wf(),
            old(self).spec_current() == value ==> r == Err::<(), StateError>(
                StateError::AlreadyInState,
            ) && final(self)@ == old(self)@,
            old(self).spec_current() != value ==> r == Ok::<(), StateError>(()) && final(self)@
                == old(self)@.push(value),
    {
        if self.stack[self.stack.len() - 1] == value {
            Err(StateError::AlreadyInState)
        } else {
            self.stack.push(value);
            Ok(())
        }
    }

    /// Pops the current value, returning to the one below it.
    /// Refused when only one value is on the stack.
    pub fn pop(&mut self) -> (r: Result<u64, StateError>)
        requires
            old(self).wf(),
        ensures
            final(self).wf(),
            old(self)@.len() == 1 ==> r == Err::<u64, StateError>(StateError::StackEmpty)
                && final(self)@ == old(self)@,
            old(self)@.len() > 1 ==> r == Ok::<u64, StateError>(old(self).spec_current())
                && final(self)@ == old(self)@.drop_last(),
    {
        if self.stack.len() == 1 {
            Err(StateError::StackEmpty)
        } else {
            let v = self.stack[self.stack.len() - 1];
            self.stack.pop();
            Ok(v)
        }
    }
}

/// Push followed by pop returns to the starting state.
pub proof fn lemma_push_pop_roundtrip(s: State, value: u64)
    requires
        s.wf(),
        s.spec_current() != value,
    ensures
        s@.push(value).drop_last() == s@,
{
    assert(s@.push(value).drop_last() =~= s@);
}

} // verus!
