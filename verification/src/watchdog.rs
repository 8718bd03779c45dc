//! The availability watchdog: a self-terminating poller.
//!
//! On each tick it is shown the status an external liveness store reports
//! for this instance's identity. An absent record or one marked dead is a
//! terminal signal: the watchdog ends its own task — successfully, which
//! cancels co-scheduled work through the shared scope. Any other status
//! keeps it polling until an external stop.

use vstd::prelude::*;

verus! {

/// The status the external liveness store reports for one instance.
#[derive(Clone, Copy, Debug, PartialEq, Eq, Structural)]
pub enum LivenessStatus {
    /// The record is present and marked dead: a terminal signal.
    Dead,
    /// Any other recorded status, alive or unknown: a continue signal.
    Alive,
}

/// How a watchdog run ended.
#[derive(Clone, Copy, Debug, PartialEq, Eq, Structural)]
pub enum WatchdogOutcome {
    /// This instance's liveness record was absent.
    NotFound,
    /// The record was present and marked dead.
    FoundDead,
}

/// What one poll decides.
#[derive(Clone, Copy, Debug, PartialEq, Eq, Structural)]
pub enum WatchdogStep {
    /// Sleep until the next tick or an external stop, whichever comes first.
    ContinuePolling,
    /// End the watchdog task with this outcome. Reported as successful
    /// completion, not as an error, but expected to cancel sibling tasks.
    Terminate(WatchdogOutcome),
}

/// True when `status` ends the watchdog.
pub open spec fn is_terminal(status: Option<LivenessStatus>) -> bool {
    status is None || status == Some(LivenessStatus::Dead)
}

/// The outcome a terminal observation produces.
pub open spec fn outcome_of(status: Option<LivenessStatus>) -> WatchdogOutcome {
    if status is None {
        WatchdogOutcome::NotFound
    } else {
        WatchdogOutcome::FoundDead
    }
}

/// What one poll decides, as a function of the observed status alone.
pub open spec fn step_of(status: Option<LivenessStatus>) -> WatchdogStep {
    if is_terminal(status) {
        WatchdogStep::Terminate(outcome_of(status))
    } else {
        WatchdogStep::ContinuePolling
    }
}

/// Watches one instance's liveness record and decides, poll by poll, whether
/// to keep running. The identity is carried as plain values; a counter per
/// terminal-outcome kind is kept for observability.
pub struct AvailabilityChecker {
    address: String,
    zone: String,
    polling_interval_secs: u32,
    not_found_count: u64,
    found_dead_count: u64,
    terminated: bool,
}

impl AvailabilityChecker {
    /// The instance address this watchdog answers for.
    pub closed spec fn address_spec(self) -> Seq<char> {
        self.address@
    }

    /// The availability zone this watchdog answers for.
    pub closed spec fn zone_spec(self) -> Seq<char> {
        self.zone@
    }

    /// The configured fixed polling interval, in seconds.
    pub closed spec fn interval_spec(self) -> u32 {
        self.polling_interval_secs
    }

    /// How many runs ended because the record was absent.
    pub closed spec fn not_found_count_spec(self) -> u64 {
        self.not_found_count
    }

    /// How many runs ended because the record was marked dead.
    pub closed spec fn found_dead_count_spec(self) -> u64 {
        self.found_dead_count
    }

    /// True once a terminal observation has been made.
    pub closed spec fn terminated_spec(self) -> bool {
        self.terminated
    }

    /// A watchdog still polling has counted no terminal outcome; a terminated
    /// one has counted exactly the one that ended it.
    pub open spec fn wf(self) -> bool {
        if self.terminated_spec() {
            self.not_found_count_spec() + self.found_dead_count_spec() == 1
        } else {
            self.not_found_count_spec() == 0 && self.found_dead_count_spec() == 0
        }
    }

    /// Configures a watchdog for one instance identity. The external store
    /// handle stays with the surrounding process, which fetches each status
    /// and hands it in.
    pub fn new(address: String, zone: String, polling_interval_secs: u32) -> (c:
        AvailabilityChecker)
        ensures
            c.wf(),
            !c.terminated_spec(),
            c.address_spec() == address@,
            c.zone_spec() == zone@,
            c.interval_spec() == polling_interval_secs,
            c.not_found_count_spec() == 0,
            c.found_dead_count_spec() == 0,
    {
        AvailabilityChecker {
            address,
            zone,
            polling_interval_secs,
            not_found_count: 0,
            found_dead_count: 0,
            terminated: false,
        }
    }

    /// The instance address this watchdog answers for.
    pub fn address(&self) -> (a: &String)
        ensures
            a@ == self.address_spec(),
    {
        &self.address
    }

    /// The availability zone this watchdog answers for.
    pub fn zone(&self) -> (z: &String)
        ensures
            z@ == self.zone_spec(),
    {
        &self.zone
    }

    /// The configured fixed polling interval, in seconds.
    pub fn polling_interval_secs(&self) -> (s: u32)
        ensures
            s == self.interval_spec(),
    {
        self.polling_interval_secs
    }

    /// How many runs ended because the record was absent.
    pub fn not_found_count(&self) -> (n: u64)
        ensures
            n == self.not_found_count_spec(),
    {
        self.not_found_count
    }

    /// How many runs ended because the record was marked dead.
    pub fn found_dead_count(&self) -> (n: u64)
        ensures
            n == self.found_dead_count_spec(),
    {
        self.found_dead_count
    }

    /// Decides one poll: an absent record terminates with [`WatchdogOutcome::NotFound`],
    /// a dead one with [`WatchdogOutcome::FoundDead`], anything else keeps
    /// polling and changes nothing. A terminal decision bumps the counter of
    /// its kind.
    pub fn observe(&mut self, status: Option<LivenessStatus>) -> (step: WatchdogStep)
        requires
            old(self).wf(),
            !old(self).terminated_spec(),
        ensures
            final(self).wf(),
            step == step_of(status),
            final(self).address_spec() == old(self).address_spec(),
            final(self).zone_spec() == old(self).zone_spec(),
            final(self).interval_spec() == old(self).interval_spec(),
            !is_terminal(status) ==> *final(self) == *old(self),
            is_terminal(status) ==> {
                &&& final(self).terminated_spec()
                &&& final(self).not_found_count_spec() == (if status is None {
                    1u64
                } else {
                    0u64
                })
                &&& final(self).found_dead_count_spec() == (if status is None {
                    0u64
                } else {
                    1u64
                })
            },
    {
        match status {
            None => {
                self.not_found_count = self.not_found_count + 1;
                self.terminated = true;
                WatchdogStep::Terminate(WatchdogOutcome::NotFound)
            },
            Some(LivenessStatus::Dead) => {
                self.found_dead_count = self.found_dead_count + 1;
                self.terminated = true;
                WatchdogStep::Terminate(WatchdogOutcome::FoundDead)
            },
            Some(LivenessStatus::Alive) => WatchdogStep::ContinuePolling,
        }
    }

    /// Replays the poll loop over the statuses observed at successive ticks.
    ///
    /// The run ends at the first terminal observation — on the very first
    /// poll if that one is terminal, with no extra ticks consumed — and
    /// returns its outcome together with the number of polls made. If no
    /// observation is terminal the watchdog is still polling when the
    /// observations run out (an external stop), and the outcome is `None`.
    pub fn run(&mut self, observations: &Vec<Option<LivenessStatus>>) -> (r: (
        Option<WatchdogOutcome>,
        usize,
    ))
        requires
            old(self).wf(),
            !old(self).terminated_spec(),
        ensures
            final(self).wf(),
            final(self).address_spec() == old(self).address_spec(),
            final(self).zone_spec() == old(self).zone_spec(),
            final(self).interval_spec() == old(self).interval_spec(),
            match r.0 {
                Some(outcome) => {
                    &&& 1 <= r.1 <= observations@.len()
                    &&& is_terminal(observations@[r.1 - 1])
                    &&& outcome == outcome_of(observations@[r.1 - 1])
                    &&& forall|j: int| 0 <= j < r.1 - 1 ==> !is_terminal(
                        #[trigger] observations@[j],
                    )
                    &&& final(self).terminated_spec()
                },
                None => {
                    &&& r.1 == observations@.len()
                    &&& forall|j: int| 0 <= j < observations@.len() ==> !is_terminal(
                        #[trigger] observations@[j],
                    )
                    &&& *final(self) == *old(self)
                },
            },
    {
        let mut i: usize = 0;
        while i < observations.len()
            invariant
                self.wf(),
                !self.terminated_spec(),
                *self == *old(self),
                0 <= i <= observations@.len(),
                forall|j: int| 0 <= j < i ==> !is_terminal(#[trigger] observations@[j]),
            decreases observations@.len() - i,
        {
            let status = observations[i];
            let step = self.observe(status);
            match step {
                WatchdogStep::Terminate(outcome) => {
                    return (Some(outcome), i + 1);
                },
                WatchdogStep::ContinuePolling => {},
            }
            i = i + 1;
        }
        (None, i)
    }
}

} // verus!
