//! The handle that says whether native code may touch the OCaml heap.
//!
//! Native code runs with the heap in its hands from the moment OCaml calls
//! an exported function until that function returns. While it calls a
//! closure, OCaml code runs, the frame of the native function is suspended,
//! and OCaml may call an exported function again, which is active on top of
//! the suspended one. So frames form a stack in which only the top one can
//! be active.

use vstd::prelude::*;

verus! {

/// Where a handle stands.
#[derive(Clone, Copy, Debug, PartialEq, Eq, Structural)]
pub enum State {
    /// No exported function has been entered
    Uninitialized,
    /// Native code runs and may touch the heap
    Active,
    /// OCaml code runs inside a call from native code
    Suspended,
    /// The outermost exported function has returned
    Returned,
}

/// What happens to a handle.
#[derive(Clone, Copy, Debug, PartialEq, Eq, Structural)]
pub enum Event {
    /// OCaml enters an exported function
    Enter,
    /// Native code calls a closure
    Call,
    /// The closure comes back
    Back,
    /// The exported function returns to OCaml
    Leave,
}

/// The handle of one thread of calls between OCaml and native code.
#[derive(Debug)]
pub struct Handle {
    state: State,
    suspended: usize,
}

/// The state and the number of suspended frames after `event`, if `event`
/// can happen in the state `state` with `suspended` suspended frames.
pub open spec fn next(state: State, suspended: nat, event: Event) -> Option<(State, nat)> {
    match (state, event) {
        (State::Uninitialized, Event::Enter) => Some((State::Active, suspended)),
        (State::Suspended, Event::Enter) => Some((State::Active, suspended)),
        (State::Active, Event::Call) => Some((State::Suspended, suspended + 1)),
        (State::Suspended, Event::Back) => if suspended > 0 {
            Some((State::Active, (suspended - 1) as nat))
        } else {
            None
        },
        (State::Active, Event::Leave) => if suspended == 0 {
            Some((State::Returned, 0nat))
        } else {
            Some((State::Suspended, suspended))
        },
        _ => None,
    }
}

impl Handle {
    /// Where the handle stands.
    pub closed spec fn state(&self) -> State {
        self.state
    }

    /// The number of frames that wait for a closure to come back.
    pub closed spec fn suspended(&self) -> nat {
        self.suspended as nat
    }

    /// What holds of every handle: without a suspended frame it is not
    /// suspended, and it is never both before its first entry or after its
    /// last return and in the middle of a call.
    pub closed spec fn wf(&self) -> bool {
        match self.state {
            State::Uninitialized => self.suspended == 0,
            State::Returned => self.suspended == 0,
            State::Suspended => self.suspended > 0,
            State::Active => true,
        }
    }

    /// The number of frames in which native code runs: one where the handle
    /// is active, none where it is not.
    pub open spec fn active_frames(&self) -> nat {
        if self.state() == State::Active {
            1
        } else {
            0
        }
    }

    /// A handle that no exported function has entered.
    pub fn new() -> (h: Handle)
        ensures
            h.wf(),
            h.state() == State::Uninitialized,
            h.suspended() == 0,
    {
        Handle { state: State::Uninitialized, suspended: 0 }
    }

    /// Where the handle stands.
    pub fn current(&self) -> (s: State)
        ensures
            s == self.state(),
    {
        self.state
    }

    /// The number of frames that wait for a closure to come back.
    pub fn depth(&self) -> (n: usize)
        ensures
            n == self.suspended(),
    {
        self.suspended
    }

    /// Whether native code may touch the heap and allocate.
    pub fn is_active(&self) -> (r: bool)
        ensures
            r == (self.state() == State::Active),
    {
        match self.state {
            State::Active => true,
            _ => false,
        }
    }

    /// Lets `event` happen. Where it cannot happen in the state of the
    /// handle, or where there would be more suspended frames than can be
    /// counted, the handle stays as it is and the result is `false`.
    pub fn step(&mut self, event: Event) -> (taken: bool)
        requires
            old(self).wf(),
        ensures
            final(self).wf(),
            final(self).active_frames() <= 1,
            match next(old(self).state(), old(self).suspended(), event) {
                Some((state, suspended)) => if suspended <= usize::MAX {
                    taken && final(self).state() == state && final(self).suspended() == suspended
                } else {
                    !taken && *final(self) == *old(self)
                },
                None => !taken && *final(self) == *old(self),
            },
    {
        match (self.state, event) {
            (State::Uninitialized, Event::Enter) => {
                self.state = State::Active;
                true
            },
            (State::Suspended, Event::Enter) => {
                self.state = State::Active;
                true
            },
            (State::Active, Event::Call) => {
                if self.suspended == usize::MAX {
                    return false;
                }
                self.suspended = self.suspended + 1;
                self.state = State::Suspended;
                true
            },
            (State::Suspended, Event::Back) => {
                self.suspended = self.suspended - 1;
                self.state = State::Active;
                true
            },
            (State::Active, Event::Leave) => {
                if self.suspended == 0 {
                    self.state = State::Returned;
                } else {
                    self.state = State::Suspended;
                }
                true
            },
            _ => false,
        }
    }
}

/// Every frame that was suspended is active again before it leaves: a call
/// and the return from it leave the handle where it was.
pub proof fn lemma_call_and_back(state: State, suspended: nat)
    requires
        state == State::Active,
    ensures
        match next(state, suspended, Event::Call) {
            Some((called, frames)) => next(called, frames, Event::Back) == Some((state, suspended)),
            None => false,
        },
{
}

/// Native code runs in one frame at most: an exported function can be
/// entered only while no frame is active.
pub proof fn lemma_one_active(state: State, suspended: nat)
    ensures
        state == State::Active ==> next(state, suspended, Event::Enter) is None,
        match next(state, suspended, Event::Enter) {
            Some((entered, frames)) => entered == State::Active && frames == suspended,
            None => true,
        },
        state == State::Returned ==> forall|e: Event| next(state, suspended, e) is None,
{
}

} // verus!
