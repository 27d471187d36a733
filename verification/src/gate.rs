//! The shared gate between the watchers and the propagation rounds.
//!
//! A gate is a plain two-state value. Whoever shares it between tasks puts
//! it behind one exclusive-access boundary, so that each operation below is
//! a critical section of its own. A gate carries no identity of the round
//! that opened its window: where rounds could overlap, the caller lets them
//! take turns, otherwise the end of one round would close the window of the
//! next.

use vstd::prelude::*;

verus! {

/// What the synchroniser is doing right now.
#[derive(Clone, Copy, Debug, PartialEq, Eq, Structural)]
pub enum SyncState {
    /// Watching: a captured change is forwarded.
    Idle,
    /// A round is writing or settling: a captured change is an echo.
    Propagating,
}

/// The state after a round has announced itself, whatever it was before.
pub open spec fn after_set_propagating(s: SyncState) -> SyncState {
    SyncState::Propagating
}

/// The state after a round has finished settling, whatever it was before.
pub open spec fn after_set_idle(s: SyncState) -> SyncState {
    SyncState::Idle
}

/// The answer of a point-in-time read in state `s`.
pub open spec fn propagating_in(s: SyncState) -> bool {
    s == SyncState::Propagating
}

/// One value shared by all watchers and all rounds.
#[derive(Debug)]
pub struct SyncGate {
    state: SyncState,
}

impl View for SyncGate {
    type V = SyncState;

    closed spec fn view(&self) -> SyncState {
        self.state
    }
}

impl SyncGate {
    /// A gate in its initial state, `Idle`.
    pub fn new() -> (gate: SyncGate)
        ensures
            gate@ == SyncState::Idle,
    {
        SyncGate { state: SyncState::Idle }
    }

    /// Opens a propagation window. Has the same effect when one is open.
    pub fn set_propagating(&mut self)
        ensures
            final(self)@ == after_set_propagating(old(self)@),
    {
        self.state = SyncState::Propagating;
    }

    /// Closes the propagation window.
    pub fn set_idle(&mut self)
        ensures
            final(self)@ == after_set_idle(old(self)@),
    {
        self.state = SyncState::Idle;
    }

    /// Whether a propagation window is open at this moment.
    pub fn is_propagating(&self) -> (open: bool)
        ensures
            open == propagating_in(self@),
    {
        match self.state {
            SyncState::Propagating => true,
            SyncState::Idle => false,
        }
    }

    /// The current state.
    pub fn state(&self) -> (s: SyncState)
        ensures
            s == self@,
    {
        self.state
    }
}

/// Opening and then closing the window leaves a gate that reads "not
/// propagating", from whichever state the pair started.
pub proof fn lemma_gate_round_trip(s: SyncState)
    ensures
        after_set_idle(after_set_propagating(s)) == SyncState::Idle,
        !propagating_in(after_set_idle(after_set_propagating(s))),
        s == SyncState::Idle ==> propagating_in(after_set_idle(after_set_propagating(s)))
            == propagating_in(s),
{
}

/// Opening the window twice is the same as opening it once.
pub proof fn lemma_set_propagating_idempotent(s: SyncState)
    ensures
        after_set_propagating(after_set_propagating(s)) == after_set_propagating(s),
        propagating_in(after_set_propagating(s)),
{
}

} // verus!
