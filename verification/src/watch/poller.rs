//! Polling the remote side.

use vstd::prelude::*;

verus! {

/// It is time to look for remote changes.
pub struct PollEvent;

/// What happened while polling.
#[derive(Debug, Clone, Copy, PartialEq, Eq, Structural)]
pub enum PollInput {
    /// The interval is over.
    Tick,
    /// The event was delivered.
    Delivered,
    /// Nobody takes events any more.
    ReceiverGone,
    /// The cancel switch was touched; whether it is on.
    Cancel(bool),
}

/// What to do next.
#[derive(Debug, Clone, Copy, PartialEq, Eq, Structural)]
pub enum PollStep {
    /// Wait for the next tick or the cancel switch.
    Wait,
    /// Deliver a `PollEvent`.
    Emit,
    Stop,
}

/// What follows.
pub open spec fn poll_duty(input: PollInput) -> PollStep {
    match input {
        PollInput::Tick => PollStep::Emit,
        PollInput::Delivered => PollStep::Wait,
        PollInput::ReceiverGone => PollStep::Stop,
        PollInput::Cancel(on) => if on {
            PollStep::Stop
        } else {
            PollStep::Wait
        },
    }
}

/// Decides what follows: every tick is an event, until nobody takes them or polling is
/// cancelled.
pub fn poll_step(input: PollInput) -> (r: PollStep)
    ensures
        r == poll_duty(input),
{
    match input {
        PollInput::Tick => PollStep::Emit,
        PollInput::Delivered => PollStep::Wait,
        PollInput::ReceiverGone => PollStep::Stop,
        PollInput::Cancel(on) => if on {
            PollStep::Stop
        } else {
            PollStep::Wait
        },
    }
}

// ---------------------------------------------------------------------------
// Laws
// ---------------------------------------------------------------------------

/// Polling makes an event of every tick, and of nothing else; it ends exactly if nobody takes the
/// events any more or the cancel switch is on, and goes on otherwise.
pub proof fn every_tick_is_an_event(input: PollInput)
    ensures
        poll_duty(input) == PollStep::Emit <==> input == PollInput::Tick,
        poll_duty(input) == PollStep::Stop <==> (input == PollInput::ReceiverGone || input
            == PollInput::Cancel(true)),
        poll_duty(input) == PollStep::Wait <==> (input == PollInput::Delivered || input
            == PollInput::Cancel(false)),
{
}

} // verus!
