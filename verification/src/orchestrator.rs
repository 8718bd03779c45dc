//! The synchronization orchestrator: one cancellation domain for the store
//! listener, the buffer listener and the network executor.
//!
//! The surrounding process owns the actual scope, tasks and stop broadcast;
//! this module is the decision core it drives: which state the scope is in,
//! what each observed event does to it, and what result the orchestrator
//! reports when everything has unwound.

use vstd::prelude::*;

verus! {

/// A fatal failure of one of the orchestrated activities.
#[derive(Clone, Copy, Debug, PartialEq, Eq, Structural)]
pub enum OrchestratorError {
    /// The durable store connection could not be acquired.
    Connection,
    /// A durable read or write failed, or a store invariant was violated.
    Storage,
    /// The network executor failed.
    Executor,
}

/// Why the scope wound down.
#[derive(Clone, Copy, Debug, PartialEq, Eq, Structural)]
pub enum Termination {
    /// Cooperative shutdown: the stop signal fired, or its sender vanished
    /// without signalling.
    Canceled,
    /// A child task failed; the error is carried to the process owner.
    Failed(OrchestratorError),
}

/// The orchestrator's lifecycle.
#[derive(Clone, Copy, Debug, PartialEq, Eq, Structural)]
pub enum OrchestratorState {
    /// Loading the cursor and constructing adapter, buffer and executor.
    Starting,
    /// Both listener loops and the network executor live under the scope.
    Running,
    /// Cancellation has been requested for the recorded cause; the scope is
    /// waiting for every child to observe it and exit.
    ShuttingDown(Termination),
    /// Terminal: every child unwound after a cooperative stop. Clean.
    Stopped,
    /// Terminal: every child unwound after a fatal error, which is surfaced
    /// to the process owner.
    Failed(OrchestratorError),
}

/// What the scope can observe.
#[derive(Clone, Copy, Debug, PartialEq, Eq, Structural)]
pub enum OrchestratorEvent {
    /// Construction finished and all activities are spawned.
    Started,
    /// The external stop signal fired.
    StopSignal,
    /// The stop signal's sender was dropped without signalling — detected
    /// and treated identically to an explicit stop.
    SenderDropped,
    /// A child task failed with a fatal error, which also cancels siblings.
    TaskFailed(OrchestratorError),
    /// Every child has observed cancellation and exited.
    AllTasksDone,
}

/// The orchestrator's transition function.
///
/// A stop signal, a dropped sender or a child failure moves a live scope to
/// `ShuttingDown` with its cause; the first recorded cause wins. Once every
/// child has unwound, a cancellation cause ends in the clean `Stopped` state
/// and a failure cause in `Failed` with its error. Terminal states absorb
/// every further event.
pub open spec fn step_spec(s: OrchestratorState, e: OrchestratorEvent) -> OrchestratorState {
    match s {
        OrchestratorState::Starting | OrchestratorState::Running => match e {
            OrchestratorEvent::Started => OrchestratorState::Running,
            OrchestratorEvent::StopSignal | OrchestratorEvent::SenderDropped
                => OrchestratorState::ShuttingDown(Termination::Canceled),
            OrchestratorEvent::TaskFailed(err) => OrchestratorState::ShuttingDown(
                Termination::Failed(err),
            ),
            OrchestratorEvent::AllTasksDone => s,
        },
        OrchestratorState::ShuttingDown(cause) => match e {
            OrchestratorEvent::AllTasksDone => match cause {
                Termination::Canceled => OrchestratorState::Stopped,
                Termination::Failed(err) => OrchestratorState::Failed(err),
            },
            _ => s,
        },
        OrchestratorState::Stopped => s,
        OrchestratorState::Failed(_) => s,
    }
}

/// Applies one observed event to the scope state.
pub fn step(s: OrchestratorState, e: OrchestratorEvent) -> (r: OrchestratorState)
    ensures
        r == step_spec(s, e),
{
    match s {
        OrchestratorState::Starting | OrchestratorState::Running => match e {
            OrchestratorEvent::Started => OrchestratorState::Running,
            OrchestratorEvent::StopSignal | OrchestratorEvent::SenderDropped
                => OrchestratorState::ShuttingDown(Termination::Canceled),
            OrchestratorEvent::TaskFailed(err) => OrchestratorState::ShuttingDown(
                Termination::Failed(err),
            ),
            OrchestratorEvent::AllTasksDone => s,
        },
        OrchestratorState::ShuttingDown(cause) => match e {
            OrchestratorEvent::AllTasksDone => match cause {
                Termination::Canceled => OrchestratorState::Stopped,
                Termination::Failed(err) => OrchestratorState::Failed(err),
            },
            _ => s,
        },
        OrchestratorState::Stopped => s,
        OrchestratorState::Failed(_) => s,
    }
}

/// The result the orchestrator reports once the scope has wound down.
pub open spec fn outcome_spec(t: Termination) -> Result<(), OrchestratorError> {
    match t {
        Termination::Canceled => Ok(()),
        Termination::Failed(err) => Err(err),
    }
}

/// Converts the recorded termination cause into the orchestrator's overall
/// result: cancellation is a normal, non-error shutdown and is swallowed;
/// any fatal error is the one error surfaced to the process owner.
pub fn shutdown_outcome(t: Termination) -> (r: Result<(), OrchestratorError>)
    ensures
        r == outcome_spec(t),
{
    match t {
        Termination::Canceled => Ok(()),
        Termination::Failed(err) => Err(err),
    }
}

/// The structured-concurrency scope, as bookkeeping: it tracks every child
/// activity spawned under it, a cancellation request propagates to all of
/// them, and completion is reached only when every child has exited — no
/// orphaned background work survives the scope.
///
/// The surrounding process does the actual suspending and unwinding; it
/// mirrors each real event (a spawn, a cancellation request, a child exit)
/// into this record and consults it for when the scope may return.
pub struct Scope {
    cancel_requested: bool,
    children: Vec<bool>,
}

impl Scope {
    /// True once cancellation has been requested.
    pub closed spec fn cancel_requested_spec(self) -> bool {
        self.cancel_requested
    }

    /// One entry per spawned child, true while that child still runs.
    pub closed spec fn children_spec(self) -> Seq<bool> {
        self.children@
    }

    /// A fresh scope: nothing spawned, nothing cancelled.
    pub fn new() -> (s: Scope)
        ensures
            !s.cancel_requested_spec(),
            s.children_spec() == Seq::<bool>::empty(),
    {
        Scope { cancel_requested: false, children: Vec::new() }
    }

    /// Registers one child activity spawned under the scope and returns its
    /// identifier.
    pub fn spawn(&mut self) -> (id: usize)
        requires
            !old(self).cancel_requested_spec(),
            old(self).children_spec().len() < usize::MAX,
        ensures
            id == old(self).children_spec().len(),
            final(self).children_spec() == old(self).children_spec().push(true),
            !final(self).cancel_requested_spec(),
    {
        let id = self.children.len();
        self.children.push(true);
        id
    }

    /// Requests cancellation of the scope and with it of every child.
    ///
    /// Idempotent: on a scope already cancelled this changes nothing, and the
    /// request never resets.
    pub fn cancel(&mut self)
        ensures
            final(self).cancel_requested_spec(),
            final(self).children_spec() == old(self).children_spec(),
            old(self).cancel_requested_spec() ==> *final(self) == *old(self),
    {
        self.cancel_requested = true;
    }

    /// How many children were spawned under the scope.
    pub fn child_count(&self) -> (n: usize)
        ensures
            n == self.children_spec().len(),
    {
        self.children.len()
    }

    /// True for a child that has not exited yet.
    pub fn is_running(&self, id: usize) -> (r: bool)
        requires
            id < self.children_spec().len(),
        ensures
            r == self.children_spec()[id as int],
    {
        self.children[id]
    }

    /// True once cancellation has been requested; every child observes this.
    pub fn is_cancel_requested(&self) -> (r: bool)
        ensures
            r == self.cancel_requested_spec(),
    {
        self.cancel_requested
    }

    /// Records that one child observed the state of the world and exited.
    pub fn child_exited(&mut self, id: usize)
        requires
            id < old(self).children_spec().len(),
            old(self).children_spec()[id as int],
        ensures
            final(self).children_spec() == old(self).children_spec().update(id as int, false),
            final(self).cancel_requested_spec() == old(self).cancel_requested_spec(),
    {
        self.children.set(id, false);
    }

    /// True when every child has exited: only then may the scope's own
    /// `join` return, so nothing it spawned outlives it.
    pub fn all_exited(&self) -> (r: bool)
        ensures
            r == (forall|i: int| 0 <= i < self.children_spec().len()
                ==> !self.children_spec()[i]),
    {
        let mut i: usize = 0;
        while i < self.children.len()
            invariant
                0 <= i <= self.children_spec().len(),
                forall|j: int| 0 <= j < i ==> !self.children_spec()[j],
            decreases self.children_spec().len() - i,
        {
            if self.children[i] {
                return false;
            }
            i = i + 1;
        }
        true
    }
}

/// Law: triggering the stop signal — or losing its sender — while the scope
/// is running cancels the whole scope, and once every child has unwound the
/// orchestrator ends in the clean `Stopped` state and reports success, not
/// an error.
pub proof fn lemma_stop_signal_is_clean(e: OrchestratorEvent)
    requires
        e is StopSignal || e is SenderDropped,
    ensures
        step_spec(OrchestratorState::Running, e) == OrchestratorState::ShuttingDown(
            Termination::Canceled,
        ),
        step_spec(step_spec(OrchestratorState::Running, e), OrchestratorEvent::AllTasksDone)
            == OrchestratorState::Stopped,
        outcome_spec(Termination::Canceled) == Ok::<(), OrchestratorError>(()),
{
}

/// Law: a fatal child error cancels the scope, and once every child has
/// unwound it is exactly that error the orchestrator surfaces.
pub proof fn lemma_failure_surfaces(err: OrchestratorError)
    ensures
        step_spec(OrchestratorState::Running, OrchestratorEvent::TaskFailed(err))
            == OrchestratorState::ShuttingDown(Termination::Failed(err)),
        step_spec(
            OrchestratorState::ShuttingDown(Termination::Failed(err)),
            OrchestratorEvent::AllTasksDone,
        ) == OrchestratorState::Failed(err),
        outcome_spec(Termination::Failed(err)) == Err::<(), OrchestratorError>(err),
{
}

/// Law: the terminal states absorb every further event — a scope that has
/// stopped or failed never runs again.
pub proof fn lemma_terminal_states_absorb(s: OrchestratorState, e: OrchestratorEvent)
    requires
        s is Stopped || s is Failed,
    ensures
        step_spec(s, e) == s,
{
}

} // verus!
