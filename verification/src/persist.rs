//! Durable persistence of the configuration: the document is written to a
//! temporary file beside the real one and renamed onto it, with one more
//! try after the destination has been removed.

use vstd::prelude::*;

verus! {

/// The status of the answer where the configuration could not be
/// persisted.
pub const INTERNAL_SERVER_ERROR: u16 = 500;

/// Where the persisting of a document stands.
#[derive(Clone, Copy, Debug, PartialEq, Eq, Structural)]
pub enum PersistPhase {
    /// Nothing has happened yet.
    Start,
    /// The directory of the file is being made.
    MakingDir,
    /// The temporary file is being written.
    Writing,
    /// The temporary file is being renamed onto the real one; `retried`
    /// says whether this is the second try.
    Renaming { retried: bool },
    /// The destination is being removed, after a rename that failed.
    Removing,
    /// The document is persisted.
    Persisted,
    /// The document could not be persisted.
    Failed,
}

/// What has to be done next to persist a document.
#[derive(Clone, Copy, Debug, PartialEq, Eq, Structural)]
pub enum PersistAction {
    /// Make the directory of the file, with its parents.
    MakeDir,
    /// Write the document to the temporary file.
    WriteTemp,
    /// Rename the temporary file onto the real one.
    Rename,
    /// Remove the real file.
    RemoveTarget,
    /// Go on: the document is on disk.
    Finish,
    /// Give up with an internal error.
    Fail,
    /// The event does not belong to this phase: nothing happens.
    Nothing,
}

/// What happened while a document was persisted.
#[derive(Clone, Copy, Debug, PartialEq, Eq, Structural)]
pub enum PersistEvent {
    /// The document is serialized; `has_parent` says whether the path of
    /// the file names a directory to make.
    Begin { has_parent: bool },
    /// The last action succeeded.
    Succeeded,
    /// The last action failed.
    Failed,
}

/// The phase after `event`, and what has to be done next.
///
/// A directory that cannot be made does not stop the writing, and neither
/// does a destination that cannot be removed stop the second rename. A
/// temporary file that cannot be written is the end, and so is a second
/// rename that fails.
pub open spec fn persist_step(phase: PersistPhase, event: PersistEvent) -> (
    PersistPhase,
    PersistAction,
) {
    match (phase, event) {
        (PersistPhase::Start, PersistEvent::Begin { has_parent }) => if has_parent {
            (PersistPhase::MakingDir, PersistAction::MakeDir)
        } else {
            (PersistPhase::Writing, PersistAction::WriteTemp)
        },
        (PersistPhase::MakingDir, PersistEvent::Succeeded) => (
            PersistPhase::Writing,
            PersistAction::WriteTemp,
        ),
        (PersistPhase::MakingDir, PersistEvent::Failed) => (
            PersistPhase::Writing,
            PersistAction::WriteTemp,
        ),
        (PersistPhase::Writing, PersistEvent::Succeeded) => (
            PersistPhase::Renaming { retried: false },
            PersistAction::Rename,
        ),
        (PersistPhase::Writing, PersistEvent::Failed) => (
            PersistPhase::Failed,
            PersistAction::Fail,
        ),
        (PersistPhase::Renaming { retried }, PersistEvent::Succeeded) => (
            PersistPhase::Persisted,
            PersistAction::Finish,
        ),
        (PersistPhase::Renaming { retried: false }, PersistEvent::Failed) => (
            PersistPhase::Removing,
            PersistAction::RemoveTarget,
        ),
        (PersistPhase::Renaming { retried: true }, PersistEvent::Failed) => (
            PersistPhase::Failed,
            PersistAction::Fail,
        ),
        (PersistPhase::Removing, PersistEvent::Succeeded) => (
            PersistPhase::Renaming { retried: true },
            PersistAction::Rename,
        ),
        (PersistPhase::Removing, PersistEvent::Failed) => (
            PersistPhase::Renaming { retried: true },
            PersistAction::Rename,
        ),
        _ => (phase, PersistAction::Nothing),
    }
}

/// The phase after the events, in order, from `phase`.
pub open spec fn persist_after(phase: PersistPhase, events: Seq<PersistEvent>) -> PersistPhase
    decreases events.len(),
{
    if events.len() == 0 {
        phase
    } else {
        persist_step(persist_after(phase, events.drop_last()), events.last()).0
    }
}

/// The actions that the events call for, in order, from `phase`.
pub open spec fn persist_actions(phase: PersistPhase, events: Seq<PersistEvent>) -> Seq<
    PersistAction,
>
    decreases events.len(),
{
    if events.len() == 0 {
        Seq::empty()
    } else {
        persist_actions(phase, events.drop_last()).push(
            persist_step(persist_after(phase, events.drop_last()), events.last()).1,
        )
    }
}

/// How often `action` occurs in `actions`.
pub open spec fn times(actions: Seq<PersistAction>, action: PersistAction) -> nat
    decreases actions.len(),
{
    if actions.len() == 0 {
        0
    } else {
        times(actions.drop_last(), action) + if actions.last() == action {
            1nat
        } else {
            0nat
        }
    }
}

/// The number of renames that persisting in `phase` has used up.
pub open spec fn renames_used(phase: PersistPhase) -> nat {
    match phase {
        PersistPhase::Start => 0,
        PersistPhase::MakingDir => 0,
        PersistPhase::Writing => 0,
        PersistPhase::Renaming { retried: false } => 1,
        PersistPhase::Removing => 1,
        PersistPhase::Renaming { retried: true } => 2,
        PersistPhase::Persisted => 2,
        PersistPhase::Failed => 2,
    }
}

/// The number of removals that persisting in `phase` has used up.
pub open spec fn removals_used(phase: PersistPhase) -> nat {
    match phase {
        PersistPhase::Start => 0,
        PersistPhase::MakingDir => 0,
        PersistPhase::Writing => 0,
        PersistPhase::Renaming { retried: false } => 0,
        PersistPhase::Removing => 1,
        PersistPhase::Renaming { retried: true } => 1,
        PersistPhase::Persisted => 1,
        PersistPhase::Failed => 1,
    }
}

/// The persisting of one document.
pub struct Persist {
    phase: PersistPhase,
}

impl View for Persist {
    type V = PersistPhase;

    closed spec fn view(&self) -> PersistPhase {
        self.phase
    }
}

impl Persist {
    /// The persisting of a document, before anything has happened.
    pub fn new() -> (r: Self)
        ensures
            r@ == PersistPhase::Start,
    {
        Persist { phase: PersistPhase::Start }
    }

    /// Where the persisting stands.
    pub fn phase(&self) -> (p: PersistPhase)
        ensures
            p == self@,
    {
        self.phase
    }

    /// Takes in what happened and says what has to be done next.
    pub fn step(&mut self, event: PersistEvent) -> (action: PersistAction)
        ensures
            final(self)@ == persist_step(old(self)@, event).0,
            action == persist_step(old(self)@, event).1,
    {
        match (self.phase, event) {
            (PersistPhase::Start, PersistEvent::Begin { has_parent }) => {
                if has_parent {
                    self.phase = PersistPhase::MakingDir;
                    PersistAction::MakeDir
                } else {
                    self.phase = PersistPhase::Writing;
                    PersistAction::WriteTemp
                }
            },
            (PersistPhase::MakingDir, PersistEvent::Succeeded) => {
                self.phase = PersistPhase::Writing;
                PersistAction::WriteTemp
            },
            (PersistPhase::MakingDir, PersistEvent::Failed) => {
                self.phase = PersistPhase::Writing;
                PersistAction::WriteTemp
            },
            (PersistPhase::Writing, PersistEvent::Succeeded) => {
                self.phase = PersistPhase::Renaming { retried: false };
                PersistAction::Rename
            },
            (PersistPhase::Writing, PersistEvent::Failed) => {
                self.phase = PersistPhase::Failed;
                PersistAction::Fail
            },
            (PersistPhase::Renaming { retried }, PersistEvent::Succeeded) => {
                self.phase = PersistPhase::Persisted;
                PersistAction::Finish
            },
            (PersistPhase::Renaming { retried: false }, PersistEvent::Failed) => {
                self.phase = PersistPhase::Removing;
                PersistAction::RemoveTarget
            },
            (PersistPhase::Renaming { retried: true }, PersistEvent::Failed) => {
                self.phase = PersistPhase::Failed;
                PersistAction::Fail
            },
            (PersistPhase::Removing, PersistEvent::Succeeded) => {
                self.phase = PersistPhase::Renaming { retried: true };
                PersistAction::Rename
            },
            (PersistPhase::Removing, PersistEvent::Failed) => {
                self.phase = PersistPhase::Renaming { retried: true };
                PersistAction::Rename
            },
            _ => PersistAction::Nothing,
        }
    }
}

/// A step that renames uses up a rename, one that removes the
/// destination uses up the removal, and no step gives anything back.
pub proof fn lemma_persist_step_uses_up(phase: PersistPhase, event: PersistEvent)
    ensures
        persist_step(phase, event).1 == PersistAction::Rename ==> renames_used(
            persist_step(phase, event).0,
        ) == renames_used(phase) + 1,
        persist_step(phase, event).1 == PersistAction::RemoveTarget ==> removals_used(
            persist_step(phase, event).0,
        ) == removals_used(phase) + 1,
        renames_used(phase) <= renames_used(persist_step(phase, event).0),
        removals_used(phase) <= removals_used(persist_step(phase, event).0),
{
}

/// Over any events, the renames and removals that are asked for are
/// covered by what the phase has used up in the end.
pub proof fn lemma_persist_uses_up(phase: PersistPhase, events: Seq<PersistEvent>)
    ensures
        renames_used(phase) + times(persist_actions(phase, events), PersistAction::Rename)
            <= renames_used(persist_after(phase, events)),
        removals_used(phase) + times(persist_actions(phase, events), PersistAction::RemoveTarget)
            <= removals_used(persist_after(phase, events)),
    decreases events.len(),
{
    if events.len() > 0 {
        let before = events.drop_last();
        lemma_persist_uses_up(phase, before);
        lemma_persist_step_uses_up(persist_after(phase, before), events.last());
        assert(persist_actions(phase, events).drop_last() =~= persist_actions(phase, before));
    }
}

/// Whatever happens, the temporary file is renamed at most twice and the
/// destination is removed at most once.
pub proof fn law_one_rename_retry(events: Seq<PersistEvent>)
    ensures
        times(persist_actions(PersistPhase::Start, events), PersistAction::Rename) <= 2,
        times(persist_actions(PersistPhase::Start, events), PersistAction::RemoveTarget) <= 1,
{
    lemma_persist_uses_up(PersistPhase::Start, events);
}

/// The document counts as persisted only after a rename that succeeded,
/// and the destination is removed only after a first rename that failed.
pub proof fn law_finish_follows_rename(phase: PersistPhase, event: PersistEvent)
    ensures
        persist_step(phase, event).0 == PersistPhase::Persisted && phase != PersistPhase::Persisted
            ==> phase is Renaming && event == PersistEvent::Succeeded,
        persist_step(phase, event).1 == PersistAction::RemoveTarget ==> phase == (
        PersistPhase::Renaming { retried: false }) && event == PersistEvent::Failed,
        phase == PersistPhase::Persisted || phase == PersistPhase::Failed ==> persist_step(
            phase,
            event,
        ) == (phase, PersistAction::Nothing),
{
}

} // verus!
