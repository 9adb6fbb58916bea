//! Device-neutral activity-indicator policies.
//!
//! Durations and instants are counted in nanoseconds.
use vstd::prelude::*;

verus! {

/// An on/off blink rhythm, in nanoseconds.
#[derive(Clone, Copy, Debug, PartialEq, Eq, Structural)]
pub struct Cadence {
    pub on: u128,
    pub off: u128,
}

impl Cadence {
    pub fn new(on: u128, off: u128) -> (r: Cadence)
        ensures
            r == (Cadence { on, off }),
    {
        Cadence { on, off }
    }

    /// How long the indicator stays at a level before the next edge.
    pub open spec fn spec_delay(self, lit: bool) -> u128 {
        if lit {
            self.on
        } else {
            self.off
        }
    }

    pub fn delay(self, lit: bool) -> (r: u128)
        ensures
            r == self.spec_delay(lit),
    {
        if lit {
            self.on
        } else {
            self.off
        }
    }
}

/// How many idle blinks follow activity.
#[derive(Clone, Copy, Debug, PartialEq, Eq, Structural)]
pub enum BlinkCount {
    Finite(u32),
    Forever,
}

/// What the indicator does when no command is running.
#[derive(Clone, Copy, Debug, PartialEq, Eq, Structural)]
pub enum IdlePolicy {
    Off,
    Blink { cadence: Cadence, count: BlinkCount },
}

/// The scheduling policy: busy cadence, idle behaviour and the minimum
/// interval between the starts of two activity edges.
#[derive(Clone, Copy, Debug, PartialEq, Eq, Structural)]
pub struct Policy {
    pub busy: Cadence,
    pub idle: IdlePolicy,
    pub minimum_edge: u128,
}

impl Policy {
    pub fn new(busy: Cadence, idle: IdlePolicy, minimum_edge: u128) -> (r: Policy)
        ensures
            r == (Policy { busy, idle, minimum_edge }),
    {
        Policy { busy, idle, minimum_edge }
    }
}

/// A policy that the scheduler refuses.
#[derive(Clone, Copy, Debug, PartialEq, Eq, Structural)]
pub enum PolicyError {
    /// A cadence has a zero duration, or a finite idle blink count is zero.
    InvalidCadence,
}

/// A cadence with nonzero on and off durations.
pub open spec fn cadence_valid(cadence: Cadence) -> bool {
    cadence.on > 0 && cadence.off > 0
}

/// A policy whose cadences are all valid and whose finite idle blink count
/// is nonzero.
pub open spec fn policy_valid(policy: Policy) -> bool {
    &&& cadence_valid(policy.busy)
    &&& match policy.idle {
        IdlePolicy::Off => true,
        IdlePolicy::Blink { cadence, count } => cadence_valid(cadence) && count != BlinkCount::Finite(
            0,
        ),
    }
}

/// Accepts a cadence exactly when both durations are nonzero.
pub fn validate_cadence(cadence: Cadence) -> (r: Result<(), PolicyError>)
    ensures
        r is Ok <==> cadence_valid(cadence),
        r is Err ==> r == Err::<(), PolicyError>(PolicyError::InvalidCadence),
{
    if cadence.on == 0 || cadence.off == 0 {
        Err(PolicyError::InvalidCadence)
    } else {
        Ok(())
    }
}

/// Validity is exactly the written-out conditions: zero durations and a
/// zero finite blink count are refused, and nothing else (blinking forever
/// in particular is a valid idle policy).
pub proof fn lemma_policy_valid_exactly(policy: Policy)
    ensures
        policy_valid(policy) <==> (policy.busy.on != 0 && policy.busy.off != 0 && match policy.idle {
            IdlePolicy::Off => true,
            IdlePolicy::Blink { cadence, count } => cadence.on != 0 && cadence.off != 0
                && match count {
                BlinkCount::Forever => true,
                BlinkCount::Finite(n) => n >= 1,
            },
        }),
        policy.idle is Off ==> (policy_valid(policy) <==> policy.busy.on != 0 && policy.busy.off
            != 0),
{
}

/// Accepts a policy exactly when it is valid.
pub fn validate_policy(policy: Policy) -> (r: Result<(), PolicyError>)
    ensures
        r is Ok <==> policy_valid(policy),
        r is Ok <==> (policy.busy.on != 0 && policy.busy.off != 0 && match policy.idle {
            IdlePolicy::Off => true,
            IdlePolicy::Blink { cadence, count } => cadence.on != 0 && cadence.off != 0
                && match count {
                BlinkCount::Forever => true,
                BlinkCount::Finite(n) => n >= 1,
            },
        }),
        r is Err ==> r == Err::<(), PolicyError>(PolicyError::InvalidCadence),
{
    validate_cadence(policy.busy)?;
    match policy.idle {
        IdlePolicy::Off => Ok(()),
        IdlePolicy::Blink { cadence, count: BlinkCount::Finite(0) } => {
            validate_cadence(cadence)?;
            Err(PolicyError::InvalidCadence)
        },
        IdlePolicy::Blink { cadence, .. } => validate_cadence(cadence),
    }
}

} // verus!
