//! Debouncing of file-system events.

use vstd::prelude::*;

verus! {

/// An event emitted by the debounced watcher.
#[derive(Debug, Clone)]
pub struct WatchEvent {
    pub changed: bool,
}

/// Where the debouncer stands: what it waits for.
#[derive(Debug, Clone, Copy, PartialEq, Eq, Structural)]
pub enum Debouncer {
    /// The first change.
    Idle,
    /// Quiet: no change for the length of the window.
    Settling,
    /// The event to be delivered; whether it is the last.
    Emitting { last: bool },
    Stopped,
}

/// What happened.
#[derive(Debug, Clone, Copy, PartialEq, Eq, Structural)]
pub enum DebounceInput {
    /// Something changed.
    Change,
    /// No more changes will be reported.
    Closed,
    /// The window passed without a change.
    Quiet,
    /// The event was delivered.
    Delivered,
    /// Nobody takes events any more.
    ReceiverGone,
}

/// What to do next.
#[derive(Debug, Clone, Copy, PartialEq, Eq, Structural)]
pub enum DebounceStep {
    /// Wait for a change.
    AwaitChange,
    /// Wait for a change, no longer than the window.
    AwaitQuiet,
    /// Deliver a `WatchEvent`.
    Emit,
    Stop,
}

/// The state that follows.
pub open spec fn settled(st: Debouncer, input: DebounceInput) -> Debouncer {
    match (st, input) {
        (Debouncer::Idle, DebounceInput::Change) => Debouncer::Settling,
        (Debouncer::Settling, DebounceInput::Change) => Debouncer::Settling,
        (Debouncer::Settling, DebounceInput::Quiet) => Debouncer::Emitting { last: false },
        (Debouncer::Settling, DebounceInput::Closed) => Debouncer::Emitting { last: true },
        (Debouncer::Emitting { last: false }, DebounceInput::Delivered) => Debouncer::Idle,
        _ => Debouncer::Stopped,
    }
}

/// What to do in a state.
pub open spec fn duty(st: Debouncer) -> DebounceStep {
    match st {
        Debouncer::Idle => DebounceStep::AwaitChange,
        Debouncer::Settling => DebounceStep::AwaitQuiet,
        Debouncer::Emitting { .. } => DebounceStep::Emit,
        Debouncer::Stopped => DebounceStep::Stop,
    }
}

impl Debouncer {
    /// A debouncer that waits for the first change.
    pub fn new() -> (r: Self)
        ensures
            r == Debouncer::Idle,
    {
        Debouncer::Idle
    }

    /// What to do now.
    pub fn step(&self) -> (r: DebounceStep)
        ensures
            r == duty(*self),
    {
        match *self {
            Debouncer::Idle => DebounceStep::AwaitChange,
            Debouncer::Settling => DebounceStep::AwaitQuiet,
            Debouncer::Emitting { .. } => DebounceStep::Emit,
            Debouncer::Stopped => DebounceStep::Stop,
        }
    }

    /// Takes in what happened.
    pub fn next(self, input: DebounceInput) -> (r: Self)
        ensures
            r == settled(self, input),
    {
        match (self, input) {
            (Debouncer::Idle, DebounceInput::Change) => Debouncer::Settling,
            (Debouncer::Settling, DebounceInput::Change) => Debouncer::Settling,
            (Debouncer::Settling, DebounceInput::Quiet) => Debouncer::Emitting { last: false },
            (Debouncer::Settling, DebounceInput::Closed) => Debouncer::Emitting { last: true },
            (Debouncer::Emitting { last: false }, DebounceInput::Delivered) => Debouncer::Idle,
            _ => Debouncer::Stopped,
        }
    }

    /// The event that is delivered.
    pub fn event() -> (r: WatchEvent)
        ensures
            r.changed,
    {
        WatchEvent { changed: true }
    }
}

// ---------------------------------------------------------------------------
// Laws
// ---------------------------------------------------------------------------

/// The state after a stretch of inputs.
pub open spec fn settled_over(st: Debouncer, inputs: Seq<DebounceInput>) -> Debouncer
    decreases inputs.len(),
{
    if inputs.len() == 0 {
        st
    } else {
        settled(settled_over(st, inputs.drop_last()), inputs.last())
    }
}

/// How often an event is delivered during a stretch of inputs.
pub open spec fn emissions(st: Debouncer, inputs: Seq<DebounceInput>) -> nat
    decreases inputs.len(),
{
    if inputs.len() == 0 {
        0
    } else {
        emissions(st, inputs.drop_last()) + if settled_over(st, inputs) is Emitting {
            1nat
        } else {
            0
        }
    }
}

/// However many changes come in one after the other, they make one event, and not before the
/// window has passed without a change.
pub proof fn a_burst_is_one_event(changes: Seq<DebounceInput>)
    requires
        changes.len() > 0,
        forall|i: int| 0 <= i < changes.len() ==> changes[i] == DebounceInput::Change,
    ensures
        settled_over(Debouncer::Idle, changes) == Debouncer::Settling,
        emissions(Debouncer::Idle, changes) == 0,
        emissions(Debouncer::Idle, changes.push(DebounceInput::Quiet)) == 1,
        settled_over(
            Debouncer::Idle,
            changes.push(DebounceInput::Quiet).push(DebounceInput::Delivered),
        ) == Debouncer::Idle,
    decreases changes.len(),
{
    let rest = changes.drop_last();
    if rest.len() > 0 {
        a_burst_is_one_event(rest);
    } else {
        assert(settled_over(Debouncer::Idle, rest) == Debouncer::Idle);
        assert(emissions(Debouncer::Idle, rest) == 0);
    }
    assert(changes.last() == DebounceInput::Change);
    assert(settled_over(Debouncer::Idle, changes) == Debouncer::Settling);
    let quiet = changes.push(DebounceInput::Quiet);
    assert(quiet.drop_last() =~= changes);
    assert(quiet.last() == DebounceInput::Quiet);
    assert(settled_over(Debouncer::Idle, quiet) == (Debouncer::Emitting { last: false }));
    assert(emissions(Debouncer::Idle, changes) == 0);
    let done = quiet.push(DebounceInput::Delivered);
    assert(done.drop_last() =~= quiet);
    assert(done.last() == DebounceInput::Delivered);
}

/// A change that came in is delivered even if no more changes will be reported.
pub proof fn no_change_is_lost_at_the_end(st: Debouncer)
    requires
        st is Settling,
    ensures
        settled(st, DebounceInput::Closed) == (Debouncer::Emitting { last: true }),
{
}

/// Events come of changes alone: one is due exactly if a change came in and the window passed
/// without another, or no more changes will be reported. After it is delivered, the next change is
/// awaited, unless there will be none.
pub proof fn events_come_of_changes(st: Debouncer, input: DebounceInput)
    ensures
        settled(st, input) is Emitting <==> st is Settling && (input == DebounceInput::Quiet || input
            == DebounceInput::Closed),
        settled(st, input) is Settling <==> (st is Idle || st is Settling) && input
            == DebounceInput::Change,
        settled(st, input) is Idle <==> st == (Debouncer::Emitting { last: false }) && input
            == DebounceInput::Delivered,
        settled(st, input) matches Debouncer::Emitting { last } ==> (last <==> input
            == DebounceInput::Closed),
{
}

/// What is done in a state is what the state waits for: an event is delivered exactly where one is
/// due, and the debouncer stops exactly where it has stopped.
pub proof fn duties_fit_the_state(st: Debouncer)
    ensures
        duty(st) == DebounceStep::Emit <==> st is Emitting,
        duty(st) == DebounceStep::AwaitChange <==> st is Idle,
        duty(st) == DebounceStep::AwaitQuiet <==> st is Settling,
        duty(st) == DebounceStep::Stop <==> st is Stopped,
{
}

/// How many bursts of changes, each followed by quiet and a delivery, so many events.
pub proof fn every_burst_is_an_event(changes: Seq<DebounceInput>, n: nat)
    requires
        changes.len() > 0,
        forall|i: int| 0 <= i < changes.len() ==> changes[i] == DebounceInput::Change,
    ensures
        emissions(Debouncer::Idle, bursts(changes, n)) == n,
        settled_over(Debouncer::Idle, bursts(changes, n)) == Debouncer::Idle,
    decreases n,
{
    if n > 0 {
        let m = (n - 1) as nat;
        let one = changes.push(DebounceInput::Quiet).push(DebounceInput::Delivered);
        every_burst_is_an_event(changes, m);
        a_burst_is_one_event(changes);
        let quiet = changes.push(DebounceInput::Quiet);
        assert(one.drop_last() =~= quiet);
        assert(settled_over(Debouncer::Idle, one) == Debouncer::Idle);
        assert(emissions(Debouncer::Idle, one) == 1);
        stretches_add_up(Debouncer::Idle, bursts(changes, m), one);
    } else {
        assert(bursts(changes, n) =~= Seq::<DebounceInput>::empty());
    }
}

/// A number of bursts of changes, each followed by quiet and a delivery.
pub open spec fn bursts(changes: Seq<DebounceInput>, n: nat) -> Seq<DebounceInput>
    decreases n,
{
    if n == 0 {
        Seq::empty()
    } else {
        bursts(changes, (n - 1) as nat) + changes.push(DebounceInput::Quiet).push(
            DebounceInput::Delivered,
        )
    }
}

/// Two stretches of inputs, one after the other.
proof fn stretches_add_up(st: Debouncer, a: Seq<DebounceInput>, b: Seq<DebounceInput>)
    ensures
        settled_over(st, a + b) == settled_over(settled_over(st, a), b),
        emissions(st, a + b) == emissions(st, a) + emissions(settled_over(st, a), b),
    decreases b.len(),
{
    if b.len() == 0 {
        assert(a + b =~= a);
    } else {
        stretches_add_up(st, a, b.drop_last());
        assert((a + b).drop_last() =~= a + b.drop_last());
        assert((a + b).last() == b.last());
    }
}

} // verus!
