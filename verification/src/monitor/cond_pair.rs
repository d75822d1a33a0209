use vstd::prelude::*;

verus! {

/// What a waiter on a condition does next.
#[derive(Debug, Clone, Copy, PartialEq, Eq, Structural)]
pub enum WaitStep {
    /// The condition holds: stop waiting, reporting success.
    Done,
    /// The time is up: stop waiting, reporting failure.
    TimedOut,
    /// Sleep on the condition variable for at most this many nanoseconds.
    Wait { remaining_nanos: u128 },
}

/// One round of a bounded wait for a condition: done as soon as the
/// condition holds, timed out once `elapsed` reaches `timeout`, otherwise
/// wait for the time that is left.
pub open spec fn spec_wait_step(holds: bool, elapsed: u128, timeout: u128) -> WaitStep {
    if holds {
        WaitStep::Done
    } else if elapsed >= timeout {
        WaitStep::TimedOut
    } else {
        WaitStep::Wait { remaining_nanos: (timeout - elapsed) as u128 }
    }
}

/// One round of a bounded wait for a condition: `holds` is the condition
/// now, `elapsed_nanos` the time since the wait began and `timeout_nanos`
/// the time the wait may take in all.
pub fn wait_step(holds: bool, elapsed_nanos: u128, timeout_nanos: u128) -> (r: WaitStep)
    ensures
        r == spec_wait_step(holds, elapsed_nanos, timeout_nanos),
{
    if holds {
        WaitStep::Done
    } else if elapsed_nanos >= timeout_nanos {
        WaitStep::TimedOut
    } else {
        WaitStep::Wait { remaining_nanos: timeout_nanos - elapsed_nanos }
    }
}

/// A waiter never sleeps past its deadline, and never sleeps for nothing:
/// a `Wait` step asks for a positive time that ends exactly at the timeout.
pub proof fn law_wait_ends_by_timeout(holds: bool, elapsed_nanos: u128, timeout_nanos: u128)
    ensures
        spec_wait_step(holds, elapsed_nanos, timeout_nanos) matches WaitStep::Wait {
            remaining_nanos,
        } ==> remaining_nanos > 0 && elapsed_nanos + remaining_nanos == timeout_nanos,
{
}

/// The condition is checked before the clock: a waiter whose condition
/// already holds is done at once, whatever the time; it times out only when
/// the condition does not hold and the whole timeout has passed, and it
/// sleeps only when neither is the case.
pub proof fn law_condition_checked_before_timeout(
    holds: bool,
    elapsed_nanos: u128,
    timeout_nanos: u128,
)
    ensures
        (spec_wait_step(holds, elapsed_nanos, timeout_nanos) == WaitStep::Done) <==> holds,
        (spec_wait_step(holds, elapsed_nanos, timeout_nanos) == WaitStep::TimedOut) <==> (!holds
            && elapsed_nanos >= timeout_nanos),
        (spec_wait_step(holds, elapsed_nanos, timeout_nanos) is Wait) <==> (!holds && elapsed_nanos
            < timeout_nanos),
{
}

} // verus!
