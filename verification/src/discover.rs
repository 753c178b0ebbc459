//! The discovery feed: polling for changes of the set of backends.
//!
//! The feed asks the orchestration service at every tick of a fixed interval
//! what has changed, and has each change merged into the registry. It is best
//! effort: a poll that fails is logged and forgotten, and the next tick asks
//! again.

use crate::registry::DiscoveryDelta;
use vstd::prelude::*;

verus! {

/// The time between two polls, in milliseconds, unless a feed is told
/// otherwise.
pub const DEFAULT_LAPSE_MILLIS: u64 = 5000;

/// The question to the orchestration service: what has changed since `since`,
/// a time in milliseconds.
#[derive(Clone, Copy, Debug, PartialEq, Eq, Structural)]
pub struct OrchestrationRequest {
    pub since: u64,
}

/// A poll that failed, or whose answer could not be read.
#[derive(Debug, PartialEq, Eq)]
pub struct OrchestrationServiceError {
    pub cause: String,
}

/// What the feed is doing.
#[derive(Clone, Copy, Debug, PartialEq, Eq, Structural)]
pub enum FeedState {
    /// Waiting for the next tick.
    Idle,
    /// A question is out.
    Polling,
    /// A change is being merged into the registry.
    Merging,
    /// The feed has been stopped.
    Stopped,
}

/// What the feed is told.
#[derive(Debug, PartialEq, Eq)]
pub enum DiscoverEvent {
    /// The interval has passed; it is `now`, in milliseconds.
    Tick { now: u64 },
    /// The orchestration service has answered, with a change or without.
    Answered { change: Option<DiscoveryDelta> },
    /// The poll has failed.
    PollFailed { error: OrchestrationServiceError },
    /// The change has been merged.
    Merged,
    /// The feed is to stop.
    Stop,
}

/// What the feed asks of its driver.
#[derive(Debug, PartialEq, Eq)]
pub enum DiscoverAction {
    /// Put this question to the orchestration service.
    Poll(OrchestrationRequest),
    /// Have the registry apply this change, and report when it is done.
    Merge(DiscoveryDelta),
    /// Log the failure; there is nothing else to do.
    Report(OrchestrationServiceError),
    /// Wait for the next tick.
    Rest,
    /// Stop the timer and drop a question that is still out.
    Halt,
    /// The event does not apply to the state of the feed; nothing changed.
    Ignore,
}

/// The discovery feed.
#[derive(Clone, Copy, Debug, PartialEq, Eq, Structural)]
pub struct TargetDiscover {
    pub state: FeedState,
    /// The time between two polls, in milliseconds.
    pub lapse: u64,
    /// The time of the last poll that was answered.
    pub last_checked: u64,
    /// The time of the poll that is out, while one is.
    pub asked_at: u64,
}

impl TargetDiscover {
    /// The feed in another state.
    pub open spec fn in_state(self, state: FeedState) -> TargetDiscover {
        TargetDiscover { state, ..self }
    }

    /// The feed after the poll that was out has been answered.
    pub open spec fn answered(self, state: FeedState) -> TargetDiscover {
        TargetDiscover { state, last_checked: self.asked_at, ..self }
    }

    /// The transition of the feed: its next state and its answer to `event`.
    pub open spec fn step(self, event: DiscoverEvent) -> (TargetDiscover, DiscoverAction) {
        match (self.state, event) {
            (FeedState::Stopped, _) => (self, DiscoverAction::Ignore),
            (_, DiscoverEvent::Stop) => (self.in_state(FeedState::Stopped), DiscoverAction::Halt),
            (FeedState::Idle, DiscoverEvent::Tick { now }) => (
                TargetDiscover { state: FeedState::Polling, asked_at: now, ..self },
                DiscoverAction::Poll(OrchestrationRequest { since: self.last_checked }),
            ),
            (FeedState::Polling, DiscoverEvent::Answered { change: Some(delta) }) => (
                self.answered(FeedState::Merging),
                DiscoverAction::Merge(delta),
            ),
            (FeedState::Polling, DiscoverEvent::Answered { change: None }) => (
                self.answered(FeedState::Idle),
                DiscoverAction::Rest,
            ),
            (FeedState::Polling, DiscoverEvent::PollFailed { error }) => (
                self.in_state(FeedState::Idle),
                DiscoverAction::Report(error),
            ),
            (FeedState::Merging, DiscoverEvent::Merged) => (
                self.in_state(FeedState::Idle),
                DiscoverAction::Rest,
            ),
            _ => (self, DiscoverAction::Ignore),
        }
    }

    /// A feed that polls every `lapse` milliseconds and has not polled yet.
    pub fn new(lapse: u64) -> (feed: TargetDiscover)
        ensures
            feed == (TargetDiscover {
                state: FeedState::Idle,
                lapse,
                last_checked: 0,
                asked_at: 0,
            }),
    {
        TargetDiscover { state: FeedState::Idle, lapse, last_checked: 0, asked_at: 0 }
    }

    pub fn state(&self) -> (state: FeedState)
        ensures
            state == self.state,
    {
        self.state
    }

    /// The time between two polls, in milliseconds.
    pub fn lapse(&self) -> (lapse: u64)
        ensures
            lapse == self.lapse,
    {
        self.lapse
    }

    /// Takes one event and answers with what is to be done.
    pub fn poll_next(&mut self, event: DiscoverEvent) -> (action: DiscoverAction)
        ensures
            (*final(self), action) == old(self).step(event),
    {
        match self.state {
            FeedState::Stopped => DiscoverAction::Ignore,
            FeedState::Idle => match event {
                DiscoverEvent::Stop => {
                    self.state = FeedState::Stopped;
                    DiscoverAction::Halt
                },
                DiscoverEvent::Tick { now } => {
                    self.state = FeedState::Polling;
                    self.asked_at = now;
                    DiscoverAction::Poll(OrchestrationRequest { since: self.last_checked })
                },
                _ => DiscoverAction::Ignore,
            },
            FeedState::Polling => match event {
                DiscoverEvent::Stop => {
                    self.state = FeedState::Stopped;
                    DiscoverAction::Halt
                },
                DiscoverEvent::Answered { change } => {
                    self.last_checked = self.asked_at;
                    match change {
                        Some(delta) => {
                            self.state = FeedState::Merging;
                            DiscoverAction::Merge(delta)
                        },
                        None => {
                            self.state = FeedState::Idle;
                            DiscoverAction::Rest
                        },
                    }
                },
                DiscoverEvent::PollFailed { error } => {
                    self.state = FeedState::Idle;
                    DiscoverAction::Report(error)
                },
                _ => DiscoverAction::Ignore,
            },
            FeedState::Merging => match event {
                DiscoverEvent::Stop => {
                    self.state = FeedState::Stopped;
                    DiscoverAction::Halt
                },
                DiscoverEvent::Merged => {
                    self.state = FeedState::Idle;
                    DiscoverAction::Rest
                },
                _ => DiscoverAction::Ignore,
            },
        }
    }

    /// The feed asks only when no question is out, and only at a tick; it
    /// has a change merged only when the service has answered with one; and
    /// a failed poll does no more than bring the feed back to waiting, with
    /// no change handed on and its clock where it was.
    pub proof fn lemma_best_effort(self, event: DiscoverEvent)
        ensures
            self.step(event).1 is Poll ==> self.state is Idle && event is Tick,
            self.step(event).1 is Merge ==> self.state is Polling && event is Answered,
            event is PollFailed ==> !(self.step(event).1 is Merge) && self.step(
                event,
            ).0.last_checked == self.last_checked && (self.state is Polling ==> self.step(
                event,
            ).0.state is Idle),
            self.step(event).0.lapse == self.lapse,
    {
    }

    /// A stopped feed stays stopped and asks for nothing: a second stop, like
    /// an answer that comes late, changes nothing.
    pub proof fn lemma_stop_is_final(self, event: DiscoverEvent)
        ensures
            self.step(DiscoverEvent::Stop).0.state is Stopped,
            self.step(DiscoverEvent::Stop).0.step(event) == (
                self.step(DiscoverEvent::Stop).0,
                DiscoverAction::Ignore,
            ),
    {
    }
}

} // verus!
