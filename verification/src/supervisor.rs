//! The restart supervisor: a parent that respawns, a child that fuzzes, and the
//! decisions that take a campaign across the death of a child.

use vstd::prelude::*;

verus! {

/// Where a campaign stands.
#[derive(Clone, Copy, Debug, PartialEq, Eq, Structural)]
pub enum Phase {
    /// A child has just been spawned and looks for a snapshot.
    Launch,
    /// No snapshot was found: the child builds its state from scratch.
    FreshState,
    /// A snapshot was found: the child rebuilds its state from it.
    RestoredState,
    /// The child runs the fuzz loop.
    FuzzLoop,
    /// Both roles have exited. Nothing leads out of this phase.
    Stopped,
}

/// What the supervisor is told.
#[derive(Clone, Copy, Debug, PartialEq, Eq, Structural)]
pub enum Event {
    /// The shared channel holds no snapshot.
    SnapshotAbsent,
    /// The shared channel holds a snapshot.
    SnapshotPresent,
    /// The child has its state and is ready to fuzz.
    StateReady,
    /// The child crashed or hung and is gone.
    ChildDied,
    /// The child exited on its own.
    ChildExited,
    /// The operator asked the campaign to stop.
    Shutdown,
}

/// What the supervisor asks for.
#[derive(Clone, Copy, Debug, PartialEq, Eq, Structural)]
pub enum Action {
    /// Build fresh state; seeds are loaded if the corpus is empty.
    BuildState,
    /// Rebuild state from the snapshot.
    RestoreState,
    /// Enter the fuzz loop.
    RunFuzzLoop,
    /// Spawn a new child.
    Respawn,
    /// Exit with this code, without respawning.
    Exit(i32),
    /// Nothing to do: the event does not belong to the phase.
    Wait,
}

/// The exit code of a graceful shutdown.
pub const EXIT_OK: i32 = 0;

/// The phase that follows `phase` on `event`.
pub open spec fn next_phase(phase: Phase, event: Event) -> Phase {
    if phase == Phase::Stopped || event == Event::Shutdown {
        Phase::Stopped
    } else {
        match (phase, event) {
            (Phase::Launch, Event::SnapshotAbsent) => Phase::FreshState,
            (Phase::Launch, Event::SnapshotPresent) => Phase::RestoredState,
            (Phase::FreshState, Event::StateReady) => Phase::FuzzLoop,
            (Phase::RestoredState, Event::StateReady) => Phase::FuzzLoop,
            (Phase::FuzzLoop, Event::ChildDied) => Phase::Launch,
            (Phase::FuzzLoop, Event::ChildExited) => Phase::Launch,
            _ => phase,
        }
    }
}

/// The action that `event` calls for in `phase`.
pub open spec fn action_for(phase: Phase, event: Event) -> Action {
    if phase == Phase::Stopped || event == Event::Shutdown {
        Action::Exit(EXIT_OK)
    } else {
        match (phase, event) {
            (Phase::Launch, Event::SnapshotAbsent) => Action::BuildState,
            (Phase::Launch, Event::SnapshotPresent) => Action::RestoreState,
            (Phase::FreshState, Event::StateReady) => Action::RunFuzzLoop,
            (Phase::RestoredState, Event::StateReady) => Action::RunFuzzLoop,
            (Phase::FuzzLoop, Event::ChildDied) => Action::Respawn,
            (Phase::FuzzLoop, Event::ChildExited) => Action::Respawn,
            _ => Action::Wait,
        }
    }
}

/// One step of the supervisor: the next phase and the action to perform.
pub fn supervise(phase: Phase, event: Event) -> (step: (Phase, Action))
    ensures
        step.0 == next_phase(phase, event),
        step.1 == action_for(phase, event),
{
    if phase == Phase::Stopped || event == Event::Shutdown {
        return (Phase::Stopped, Action::Exit(EXIT_OK));
    }
    match phase {
        Phase::Launch => match event {
            Event::SnapshotAbsent => (Phase::FreshState, Action::BuildState),
            Event::SnapshotPresent => (Phase::RestoredState, Action::RestoreState),
            _ => (phase, Action::Wait),
        },
        Phase::FreshState => match event {
            Event::StateReady => (Phase::FuzzLoop, Action::RunFuzzLoop),
            _ => (phase, Action::Wait),
        },
        Phase::RestoredState => match event {
            Event::StateReady => (Phase::FuzzLoop, Action::RunFuzzLoop),
            _ => (phase, Action::Wait),
        },
        Phase::FuzzLoop => match event {
            Event::ChildDied => (Phase::Launch, Action::Respawn),
            Event::ChildExited => (Phase::Launch, Action::Respawn),
            _ => (phase, Action::Wait),
        },
        Phase::Stopped => (Phase::Stopped, Action::Exit(EXIT_OK)),
    }
}

/// The phase reached from `phase` after the events of `events`, first to last.
pub open spec fn phase_after(phase: Phase, events: Seq<Event>) -> Phase
    decreases events.len(),
{
    if events.len() == 0 {
        phase
    } else {
        next_phase(phase_after(phase, events.drop_last()), events.last())
    }
}

/// A shutdown is final: whatever follows it, the campaign stays stopped, and every
/// later step asks for the same clean exit and never for a respawn.
pub proof fn lemma_shutdown_is_terminal(phase: Phase, later: Seq<Event>)
    ensures
        phase_after(next_phase(phase, Event::Shutdown), later) == Phase::Stopped,
        forall|event: Event| action_for(Phase::Stopped, event) == Action::Exit(EXIT_OK),
    decreases later.len(),
{
    if later.len() > 0 {
        lemma_shutdown_is_terminal(phase, later.drop_last());
    }
}

/// A child that dies in the fuzz loop is respawned, and the new child is back in the
/// fuzz loop after it found its snapshot and restored its state.
pub proof fn lemma_death_leads_back_to_fuzzing()
    ensures
        action_for(Phase::FuzzLoop, Event::ChildDied) == Action::Respawn,
        phase_after(
            Phase::FuzzLoop,
            seq![Event::ChildDied, Event::SnapshotPresent, Event::StateReady],
        ) == Phase::FuzzLoop,
{
    let events = seq![Event::ChildDied, Event::SnapshotPresent, Event::StateReady];
    let two = events.drop_last();
    let one = two.drop_last();
    assert(one.drop_last() =~= Seq::<Event>::empty());
    assert(phase_after(Phase::FuzzLoop, one.drop_last()) == Phase::FuzzLoop);
    assert(one.last() == Event::ChildDied);
    assert(phase_after(Phase::FuzzLoop, one) == Phase::Launch);
    assert(two.last() == Event::SnapshotPresent);
    assert(phase_after(Phase::FuzzLoop, two) == Phase::RestoredState);
    assert(events.last() == Event::StateReady);
}

} // verus!
