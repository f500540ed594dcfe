//! The live-schema runner's control state: what each watcher event makes
//! the runner do next.  The file watching, parsing and printing happen at
//! the caller's side; this is the decision table they drive.
use vstd::prelude::*;

verus! {

#[derive(Debug, PartialEq, Eq, Structural, Copy, Clone)]
pub enum RunnerState {
    Watching,
    Parsing,
    Evaluating,
    Terminated,
}

#[derive(Debug, PartialEq, Eq, Structural, Copy, Clone)]
pub enum RunnerEvent {
    FileWritten,
    ParseOk,
    ParseFailed,
    EvalDone,
    EvalFailed,
    WatchFailed,
}

#[derive(Debug, PartialEq, Eq, Structural, Copy, Clone)]
pub enum RunnerAction {
    Wait,
    ParseConfig,
    EvaluateConfig,
    EmitDiagnostic,
    Stop,
}

/// The transition table: a write event starts a parse; a successful
/// parse starts an evaluation; a parse or evaluation failure reports a
/// diagnostic and resumes watching; a watcher failure terminates.
pub open spec fn runner_step_spec(state: RunnerState, event: RunnerEvent) -> (
    RunnerState,
    RunnerAction,
) {
    match (state, event) {
        (RunnerState::Watching, RunnerEvent::FileWritten) => (
            RunnerState::Parsing,
            RunnerAction::ParseConfig,
        ),
        (RunnerState::Watching, RunnerEvent::WatchFailed) => (
            RunnerState::Terminated,
            RunnerAction::Stop,
        ),
        (RunnerState::Parsing, RunnerEvent::ParseOk) => (
            RunnerState::Evaluating,
            RunnerAction::EvaluateConfig,
        ),
        (RunnerState::Parsing, RunnerEvent::ParseFailed) => (
            RunnerState::Watching,
            RunnerAction::EmitDiagnostic,
        ),
        (RunnerState::Evaluating, RunnerEvent::EvalDone) => (
            RunnerState::Watching,
            RunnerAction::Wait,
        ),
        (RunnerState::Evaluating, RunnerEvent::EvalFailed) => (
            RunnerState::Watching,
            RunnerAction::EmitDiagnostic,
        ),
        (RunnerState::Terminated, _) => (RunnerState::Terminated, RunnerAction::Stop),
        (s, _) => (s, RunnerAction::Wait),
    }
}

/// Advance the runner by one event.
pub fn runner_step(state: RunnerState, event: RunnerEvent) -> (r: (RunnerState, RunnerAction))
    ensures
        r == runner_step_spec(state, event),
{
    match (state, event) {
        (RunnerState::Watching, RunnerEvent::FileWritten) => (
            RunnerState::Parsing,
            RunnerAction::ParseConfig,
        ),
        (RunnerState::Watching, RunnerEvent::WatchFailed) => (
            RunnerState::Terminated,
            RunnerAction::Stop,
        ),
        (RunnerState::Parsing, RunnerEvent::ParseOk) => (
            RunnerState::Evaluating,
            RunnerAction::EvaluateConfig,
        ),
        (RunnerState::Parsing, RunnerEvent::ParseFailed) => (
            RunnerState::Watching,
            RunnerAction::EmitDiagnostic,
        ),
        (RunnerState::Evaluating, RunnerEvent::EvalDone) => (
            RunnerState::Watching,
            RunnerAction::Wait,
        ),
        (RunnerState::Evaluating, RunnerEvent::EvalFailed) => (
            RunnerState::Watching,
            RunnerAction::EmitDiagnostic,
        ),
        (RunnerState::Terminated, _) => (RunnerState::Terminated, RunnerAction::Stop),
        (s, _) => (s, RunnerAction::Wait),
    }
}

} // verus!
