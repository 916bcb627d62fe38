//! The phases of a run and the steps between them.
//!
//! Whoever drives a run performs what the latest step asked for and hands
//! back what came of it; the engine answers with the next phase and the next
//! thing to do. Phases only move forward.

use vstd::prelude::*;
use crate::rename_engine::RenameEngine;

verus! {

/// Where a run stands.
#[derive(Debug, Clone, Copy, PartialEq, Eq, Structural)]
pub enum Phase {
    Discover,
    DetectCollisions,
    Confirm,
    ExecuteContent,
    ExecuteRenames,
    Report,
    /// Every phase that was asked for has run.
    Completed,
    /// Stopped by a conflict or by the user; nothing was changed.
    Aborted,
    /// Stopped because the run could not be set up or driven.
    Failed,
}

/// What came of the work of a phase.
#[derive(Debug, Clone, Copy, PartialEq, Eq, Structural)]
pub enum Event {
    /// The tree was walked: so many files need their content rewritten, and
    /// so many entries need renaming.
    Discovered { content_changes: usize, renames: usize },
    /// The tree could not be walked.
    DiscoveryFailed,
    /// Conflicts were looked for: so many of those found stop the run.
    CollisionsChecked { blocking: usize },
    /// The summary was shown; where the user was asked, this is the answer.
    Confirmed { accepted: bool },
    ContentDone,
    RenamesDone,
    Reported,
}

/// How a run that reaches its report has ended.
#[derive(Debug, Clone, Copy, PartialEq, Eq, Structural)]
pub enum Outcome {
    /// Nothing was planned.
    NoChanges,
    /// The plan was only shown.
    DryRun,
    /// The plan was carried out.
    Applied,
}

/// What is to be done next.
#[derive(Debug, Clone, Copy, PartialEq, Eq, Structural)]
pub enum Action {
    /// Look for conflicts among the planned renames.
    CheckCollisions,
    /// Show the summary, and ask the user where `ask` is set.
    Summarize { ask: bool },
    /// Go through the files to rewrite; write them only where `mutate` is
    /// set, with several workers where `parallel` is set.
    RewriteContent { mutate: bool, parallel: bool },
    /// Go through the renames in order; move only where `mutate` is set.
    RenameItems { mutate: bool },
    /// Write the final report.
    Report { outcome: Outcome },
    /// Nothing more.
    Stop,
}

/// A run in progress: its phase and what it plans.
#[derive(Debug, Clone, Copy, PartialEq, Eq, Structural)]
pub struct RunState {
    pub phase: Phase,
    pub content_changes: usize,
    pub renames: usize,
}

impl Phase {
    /// The place of a phase in the order of a run.
    pub open spec fn rank(self) -> int {
        match self {
            Phase::Discover => 0,
            Phase::DetectCollisions => 1,
            Phase::Confirm => 2,
            Phase::ExecuteContent => 3,
            Phase::ExecuteRenames => 4,
            Phase::Report => 5,
            Phase::Completed => 6,
            Phase::Aborted => 6,
            Phase::Failed => 6,
        }
    }

    /// The run is over.
    pub open spec fn is_terminal(self) -> bool {
        self is Completed || self is Aborted || self is Failed
    }
}

impl Action {
    /// Carrying out the action changes the file system.
    pub open spec fn mutates(self) -> bool {
        match self {
            Action::RewriteContent { mutate, .. } => mutate,
            Action::RenameItems { mutate } => mutate,
            _ => false,
        }
    }

    /// Whether carrying out the action changes the file system.
    pub fn changes_files(&self) -> (yes: bool)
        ensures
            yes == self.mutates(),
    {
        match self {
            Action::RewriteContent { mutate, .. } => *mutate,
            Action::RenameItems { mutate } => *mutate,
            _ => false,
        }
    }
}

impl RunState {
    /// A run that has not begun: the tree is still to be walked.
    pub fn start() -> (state: Self)
        ensures
            state == (RunState { phase: Phase::Discover, content_changes: 0, renames: 0 }),
    {
        RunState { phase: Phase::Discover, content_changes: 0, renames: 0 }
    }

    /// Nothing is planned: no content to rewrite and nothing to rename.
    pub open spec fn is_empty(self) -> bool {
        self.content_changes == 0 && self.renames == 0
    }

    /// Whether nothing is planned.
    pub fn plans_nothing(&self) -> (yes: bool)
        ensures
            yes == self.is_empty(),
    {
        self.content_changes == 0 && self.renames == 0
    }

    /// Whether the run is over.
    pub fn is_finished(&self) -> (yes: bool)
        ensures
            yes == self.phase.is_terminal(),
    {
        match self.phase {
            Phase::Completed | Phase::Aborted | Phase::Failed => true,
            _ => false,
        }
    }
}

impl RenameEngine {
    /// The user is asked before anything is changed.
    pub open spec fn asks(&self) -> bool {
        !self.config.force && !self.config.dry_run && !(self.output_format is Json)
    }

    /// The next state and action. A finished run stays as it is. An event
    /// that does not belong to the phase fails the run. Otherwise: a failed
    /// walk fails the run; a walk leads to the search for conflicts; a
    /// blocking conflict aborts; else the summary is shown, and the user is
    /// asked where the run asks and anything is planned; from there an
    /// empty plan goes straight to the report, and a refusal, where the
    /// user was asked, aborts; then contents, then renames, then the
    /// report. Nothing is changed in a dry run.
    pub open spec fn next(&self, state: RunState, event: Event) -> (RunState, Action) {
        let stopped = |phase: Phase| (RunState { phase, ..state }, Action::Stop);
        match (state.phase, event) {
            (Phase::Completed, _) | (Phase::Aborted, _) | (Phase::Failed, _) => (
                state,
                Action::Stop,
            ),
            (Phase::Discover, Event::Discovered { content_changes, renames }) => (
                RunState { phase: Phase::DetectCollisions, content_changes, renames },
                Action::CheckCollisions,
            ),
            (Phase::DetectCollisions, Event::CollisionsChecked { blocking }) => if blocking > 0 {
                stopped(Phase::Aborted)
            } else {
                (
                    RunState { phase: Phase::Confirm, ..state },
                    Action::Summarize { ask: self.asks() && !state.is_empty() },
                )
            },
            (Phase::Confirm, Event::Confirmed { accepted }) => if state.is_empty() {
                (
                    RunState { phase: Phase::Report, ..state },
                    Action::Report { outcome: Outcome::NoChanges },
                )
            } else if self.asks() && !accepted {
                stopped(Phase::Aborted)
            } else {
                (
                    RunState { phase: Phase::ExecuteContent, ..state },
                    Action::RewriteContent {
                        mutate: !self.config.dry_run && state.content_changes > 0
                            && self.mode.handles_content(),
                        parallel: self.thread_count > 1,
                    },
                )
            },
            (Phase::ExecuteContent, Event::ContentDone) => (
                RunState { phase: Phase::ExecuteRenames, ..state },
                Action::RenameItems {
                    mutate: !self.config.dry_run && state.renames > 0 && self.mode.handles_names(),
                },
            ),
            (Phase::ExecuteRenames, Event::RenamesDone) => (
                RunState { phase: Phase::Report, ..state },
                Action::Report {
                    outcome: if self.config.dry_run {
                        Outcome::DryRun
                    } else {
                        Outcome::Applied
                    },
                },
            ),
            (Phase::Report, Event::Reported) => stopped(Phase::Completed),
            _ => stopped(Phase::Failed),
        }
    }

    /// Carries a run one step on: given where the run stands and what came
    /// of the work last asked for, says where it stands next and what is to
    /// be done. See `next`.
    pub fn execute(&self, state: RunState, event: Event) -> (result: (RunState, Action))
        ensures
            result == self.next(state, event),
    {
        let asks = self.needs_confirmation();
        match state.phase {
            Phase::Completed | Phase::Aborted | Phase::Failed => (state, Action::Stop),
            Phase::Discover => match event {
                Event::Discovered { content_changes, renames } => (
                    RunState { phase: Phase::DetectCollisions, content_changes, renames },
                    Action::CheckCollisions,
                ),
                _ => (RunState { phase: Phase::Failed, ..state }, Action::Stop),
            },
            Phase::DetectCollisions => match event {
                Event::CollisionsChecked { blocking } => {
                    if blocking > 0 {
                        (RunState { phase: Phase::Aborted, ..state }, Action::Stop)
                    } else {
                        (
                            RunState { phase: Phase::Confirm, ..state },
                            Action::Summarize { ask: asks && !state.plans_nothing() },
                        )
                    }
                },
                _ => (RunState { phase: Phase::Failed, ..state }, Action::Stop),
            },
            Phase::Confirm => match event {
                Event::Confirmed { accepted } => {
                    if state.plans_nothing() {
                        (
                            RunState { phase: Phase::Report, ..state },
                            Action::Report { outcome: Outcome::NoChanges },
                        )
                    } else if asks && !accepted {
                        (RunState { phase: Phase::Aborted, ..state }, Action::Stop)
                    } else {
                        (
                            RunState { phase: Phase::ExecuteContent, ..state },
                            Action::RewriteContent {
                                mutate: !self.config.dry_run && state.content_changes > 0
                                    && self.mode.should_process_content(),
                                parallel: self.rewrites_in_parallel(),
                            },
                        )
                    }
                },
                _ => (RunState { phase: Phase::Failed, ..state }, Action::Stop),
            },
            Phase::ExecuteContent => match event {
                Event::ContentDone => (
                    RunState { phase: Phase::ExecuteRenames, ..state },
                    Action::RenameItems {
                        mutate: !self.config.dry_run && state.renames > 0
                            && self.mode.should_process_names(),
                    },
                ),
                _ => (RunState { phase: Phase::Failed, ..state }, Action::Stop),
            },
            Phase::ExecuteRenames => match event {
                Event::RenamesDone => (
                    RunState { phase: Phase::Report, ..state },
                    Action::Report {
                        outcome: if self.config.dry_run {
                            Outcome::DryRun
                        } else {
                            Outcome::Applied
                        },
                    },
                ),
                _ => (RunState { phase: Phase::Failed, ..state }, Action::Stop),
            },
            Phase::Report => match event {
                Event::Reported => (RunState { phase: Phase::Completed, ..state }, Action::Stop),
                _ => (RunState { phase: Phase::Failed, ..state }, Action::Stop),
            },
        }
    }
}

/// Phases only move forward: every step of a run that is not over leads to
/// a later phase, and a run that is over stays where it is.
pub proof fn lemma_phases_move_forward(engine: RenameEngine, state: RunState, event: Event)
    ensures
        state.phase.is_terminal() ==> engine.next(state, event).0 == state,
        !state.phase.is_terminal() ==> engine.next(state, event).0.phase.rank() > state.phase.rank(),
{
}

/// A dry run changes nothing: no step of it asks for a change to the file
/// system.
pub proof fn lemma_dry_run_changes_nothing(engine: RenameEngine, state: RunState, event: Event)
    requires
        engine.config.dry_run,
    ensures
        !engine.next(state, event).1.mutates(),
{
}

/// A blocking conflict aborts the run on the spot, and nothing is changed:
/// changes are asked for only in steps that come after the search for
/// conflicts has found none that blocks.
pub proof fn lemma_conflicts_abort_before_any_change(
    engine: RenameEngine,
    state: RunState,
    event: Event,
)
    ensures
        state.phase is DetectCollisions && (event matches Event::CollisionsChecked { blocking }
            && blocking > 0) ==> engine.next(state, event) == (
            RunState { phase: Phase::Aborted, ..state },
            Action::Stop,
        ),
        engine.next(state, event).1.mutates() ==> state.phase.rank() > Phase::DetectCollisions.rank(),
{
}

/// A run with nothing planned goes from its summary straight to the report
/// that nothing was to be done, whatever was answered, and the user is not
/// asked.
pub proof fn lemma_empty_plan_goes_to_report(engine: RenameEngine, state: RunState, accepted: bool)
    requires
        state.is_empty(),
    ensures
        state.phase is DetectCollisions ==> engine.next(
            state,
            Event::CollisionsChecked { blocking: 0 },
        ) == (RunState { phase: Phase::Confirm, ..state }, Action::Summarize { ask: false }),
        state.phase is Confirm ==> engine.next(state, Event::Confirmed { accepted }) == (
            RunState { phase: Phase::Report, ..state },
            Action::Report { outcome: Outcome::NoChanges },
        ),
{
}

/// A run that plans nothing changes nothing: where the walk finds nothing
/// to do, no step of the run asks for a change to the file system, and the
/// plan stays empty to the end.
pub proof fn lemma_run_without_plan_changes_nothing(
    engine: RenameEngine,
    state: RunState,
    event: Event,
)
    requires
        state.is_empty(),
        event matches Event::Discovered { content_changes, renames } ==> content_changes == 0
            && renames == 0,
    ensures
        engine.next(state, event).0.is_empty(),
        !engine.next(state, event).1.mutates(),
{
}

} // verus!
