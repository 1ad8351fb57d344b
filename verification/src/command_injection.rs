//! When to type a workspace's default command into a newly spawned
//! shell: after its first output, unless it dies or stays silent.

use vstd::prelude::*;

verus! {

/// What the injection loop does after one look at the target.
#[derive(Clone, Copy, Debug, PartialEq, Eq)]
pub enum InjectStep {
    /// The target produced output: write the text now.
    Inject,
    /// The target died first: give up, write nothing.
    GiveUpDead,
    /// No output within the timeout: give up, write nothing.
    GiveUpTimeout,
    /// Nothing yet: wait one poll interval and look again.
    Wait,
}

/// Decides the next step of waiting for a target's first output.
///
/// Writing immediately after spawn races the shell's startup
/// `tcflush()`, which would silently eat the injected text, so the
/// target's sequence number is watched until it moves past the value
/// `initial_seqno` captured at spawn time. A dead target wins over new
/// output, and new output over an expired timeout.
pub fn injection_step(
    initial_seqno: usize,
    is_dead: bool,
    current_seqno: usize,
    elapsed_nanos: u128,
    timeout_nanos: u128,
) -> (r: InjectStep)
    ensures
        r == (if is_dead {
            InjectStep::GiveUpDead
        } else if current_seqno != initial_seqno {
            InjectStep::Inject
        } else if elapsed_nanos >= timeout_nanos {
            InjectStep::GiveUpTimeout
        } else {
            InjectStep::Wait
        }),
{
    if is_dead {
        InjectStep::GiveUpDead
    } else if current_seqno != initial_seqno {
        InjectStep::Inject
    } else if elapsed_nanos >= timeout_nanos {
        InjectStep::GiveUpTimeout
    } else {
        InjectStep::Wait
    }
}

} // verus!
