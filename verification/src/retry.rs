//! The retry policy for outbound connects.

use vstd::prelude::*;

verus! {

/// Retries granted to a connection unless its dispatcher is told otherwise.
pub const DEFAULT_RETRY_LIMIT: u32 = 3;

/// How many retries one connection has been granted, and how many it may get.
#[derive(Clone, Copy, Debug, PartialEq, Eq, Structural)]
pub struct RetryState {
    pub attempts_made: u32,
    pub limit: u32,
}

/// How an outbound connect ended.
#[derive(Clone, Copy, Debug, PartialEq, Eq, Structural)]
pub enum ConnectResult {
    Connected,
    Failed,
}

/// What the policy allows after a connect.
#[derive(Clone, Copy, Debug, PartialEq, Eq, Structural)]
pub enum Decision {
    /// Connect once more, and go on with the state inside.
    Retry(RetryState),
    /// No further connect for this connection.
    GiveUp,
}

impl RetryState {
    /// The state of a connection that has not been retried yet.
    pub fn new(limit: u32) -> (state: RetryState)
        ensures
            state == (RetryState { attempts_made: 0, limit }),
    {
        RetryState { attempts_made: 0, limit }
    }

    /// The retries that are left.
    pub open spec fn remaining(self) -> nat {
        if self.attempts_made < self.limit {
            (self.limit - self.attempts_made) as nat
        } else {
            0
        }
    }
}

/// The policy as a function: a failed connect is retried while fewer retries
/// than the limit have been granted, whatever made it fail.
pub open spec fn retry_decision(state: RetryState, outcome: ConnectResult) -> Decision {
    if outcome is Failed && state.attempts_made < state.limit {
        Decision::Retry(
            RetryState { attempts_made: (state.attempts_made + 1) as u32, limit: state.limit },
        )
    } else {
        Decision::GiveUp
    }
}

pub fn should_retry(state: RetryState, outcome: ConnectResult) -> (decision: Decision)
    ensures
        decision == retry_decision(state, outcome),
{
    match outcome {
        ConnectResult::Failed => {
            if state.attempts_made < state.limit {
                Decision::Retry(
                    RetryState { attempts_made: state.attempts_made + 1, limit: state.limit },
                )
            } else {
                Decision::GiveUp
            }
        },
        ConnectResult::Connected => Decision::GiveUp,
    }
}

/// The connects that a connection makes when its attempts end as `outcomes`
/// says, one after the other: every attempt counts, and the next one is made
/// only where the policy answers `Retry`.
pub open spec fn connects_made(state: RetryState, outcomes: Seq<ConnectResult>) -> nat
    decreases outcomes.len(),
{
    if outcomes.len() == 0 {
        0
    } else {
        match retry_decision(state, outcomes[0]) {
            Decision::Retry(next) => 1 + connects_made(next, outcomes.drop_first()),
            Decision::GiveUp => 1,
        }
    }
}

/// However its connects end, a connection makes at most one of them more than
/// it has retries left.
pub proof fn lemma_connects_bounded(state: RetryState, outcomes: Seq<ConnectResult>)
    ensures
        connects_made(state, outcomes) <= state.remaining() + 1,
    decreases outcomes.len(),
{
    if outcomes.len() > 0 {
        match retry_decision(state, outcomes[0]) {
            Decision::Retry(next) => {
                lemma_connects_bounded(next, outcomes.drop_first());
            },
            Decision::GiveUp => {},
        }
    }
}

/// With a retry limit of `limit`, a connection makes at most `limit + 1`
/// connects.
pub proof fn lemma_retry_bound(limit: u32, outcomes: Seq<ConnectResult>)
    ensures
        connects_made(RetryState { attempts_made: 0, limit }, outcomes) <= limit + 1,
{
    lemma_connects_bounded(RetryState { attempts_made: 0, limit }, outcomes);
}

/// The bound is reached: where every connect fails, `limit + 1` of them are
/// made and no more.
pub proof fn lemma_retry_bound_reached(state: RetryState, outcomes: Seq<ConnectResult>)
    requires
        state.attempts_made <= state.limit,
        outcomes.len() > state.remaining(),
        forall|i: int| 0 <= i < outcomes.len() ==> outcomes[i] is Failed,
    ensures
        connects_made(state, outcomes) == state.remaining() + 1,
    decreases outcomes.len(),
{
    match retry_decision(state, outcomes[0]) {
        Decision::Retry(next) => {
            lemma_retry_bound_reached(next, outcomes.drop_first());
        },
        Decision::GiveUp => {},
    }
}

} // verus!
