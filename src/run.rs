//! The decisions of one run: probe the build tool, read and update the
//! configuration, then run the build commands in order, stopping at the first
//! failure. The caller performs each action and reports what came of it.

use vstd::prelude::*;

verus! {

/// The number of build commands run after the configuration is updated.
pub const PIPELINE_LEN: usize = 4;

/// Why a run failed.
#[derive(Clone, Copy, Debug, PartialEq, Eq, Structural)]
pub enum RunError {
    ExternalToolNotFound,
    ConfigNotFound,
    ConfigParseError,
    ConfigWriteError,
    /// The build command at this position failed.
    ExternalCommandFailed(usize),
}

/// Where a run stands.
#[derive(Clone, Copy, Debug, PartialEq, Eq, Structural)]
pub enum RunState {
    CheckingTool,
    ReadingConfig,
    UpdatingConfig,
    RunningStep(usize),
    Finished,
    Failed,
}

/// What came of the last action.
#[derive(Clone, Copy, Debug, PartialEq, Eq, Structural)]
pub enum Event {
    ToolFound,
    ToolMissing,
    ConfigRead,
    ConfigMissing,
    ConfigInvalid,
    ConfigWritten,
    ConfigWriteFailed,
    StepSucceeded,
    StepFailed,
}

/// What the caller does next.
#[derive(Clone, Copy, Debug, PartialEq, Eq, Structural)]
pub enum Action {
    ProbeTool,
    ReadConfig,
    /// Scan the sources, update the document, write and normalize it.
    UpdateConfig,
    RunStep(usize),
    Finish,
    Fail(RunError),
}

/// `event` answers the action that `state` waits on.
pub open spec fn event_fits(state: RunState, event: Event) -> bool {
    match state {
        RunState::CheckingTool => event == Event::ToolFound || event == Event::ToolMissing,
        RunState::ReadingConfig => event == Event::ConfigRead || event == Event::ConfigMissing
            || event == Event::ConfigInvalid,
        RunState::UpdatingConfig => event == Event::ConfigWritten || event == Event::ConfigWriteFailed,
        RunState::RunningStep(i) => i < PIPELINE_LEN && (event == Event::StepSucceeded || event
            == Event::StepFailed),
        RunState::Finished => false,
        RunState::Failed => false,
    }
}

/// The state and action that follow `event` in `state`.
pub open spec fn next(state: RunState, event: Event) -> (RunState, Action) {
    match (state, event) {
        (RunState::CheckingTool, Event::ToolFound) => (RunState::ReadingConfig, Action::ReadConfig),
        (RunState::CheckingTool, _) => (RunState::Failed, Action::Fail(RunError::ExternalToolNotFound)),
        (RunState::ReadingConfig, Event::ConfigRead) => (RunState::UpdatingConfig, Action::UpdateConfig),
        (RunState::ReadingConfig, Event::ConfigMissing) => (RunState::Failed, Action::Fail(RunError::ConfigNotFound)),
        (RunState::ReadingConfig, _) => (RunState::Failed, Action::Fail(RunError::ConfigParseError)),
        (RunState::UpdatingConfig, Event::ConfigWritten) => (RunState::RunningStep(0), Action::RunStep(0)),
        (RunState::UpdatingConfig, _) => (RunState::Failed, Action::Fail(RunError::ConfigWriteError)),
        (RunState::RunningStep(i), Event::StepSucceeded) => if i + 1 < PIPELINE_LEN {
            (RunState::RunningStep((i + 1) as usize), Action::RunStep((i + 1) as usize))
        } else {
            (RunState::Finished, Action::Finish)
        },
        (RunState::RunningStep(i), _) => (RunState::Failed, Action::Fail(RunError::ExternalCommandFailed(i))),
        (s, _) => (s, Action::Finish),
    }
}

/// The first state of a run and its first action: probing the build tool.
pub fn start() -> (r: (RunState, Action))
    ensures
        r == (RunState::CheckingTool, Action::ProbeTool),
{
    (RunState::CheckingTool, Action::ProbeTool)
}

/// The state and action that follow `event` (see `next`).
pub fn step(state: RunState, event: Event) -> (r: (RunState, Action))
    requires
        event_fits(state, event),
    ensures
        r == next(state, event),
{
    match state {
        RunState::CheckingTool => match event {
            Event::ToolFound => (RunState::ReadingConfig, Action::ReadConfig),
            _ => (RunState::Failed, Action::Fail(RunError::ExternalToolNotFound)),
        },
        RunState::ReadingConfig => match event {
            Event::ConfigRead => (RunState::UpdatingConfig, Action::UpdateConfig),
            Event::ConfigMissing => (RunState::Failed, Action::Fail(RunError::ConfigNotFound)),
            _ => (RunState::Failed, Action::Fail(RunError::ConfigParseError)),
        },
        RunState::UpdatingConfig => match event {
            Event::ConfigWritten => (RunState::RunningStep(0), Action::RunStep(0)),
            _ => (RunState::Failed, Action::Fail(RunError::ConfigWriteError)),
        },
        RunState::RunningStep(i) => match event {
            Event::StepSucceeded => if i + 1 < PIPELINE_LEN {
                (RunState::RunningStep(i + 1), Action::RunStep(i + 1))
            } else {
                (RunState::Finished, Action::Finish)
            },
            _ => (RunState::Failed, Action::Fail(RunError::ExternalCommandFailed(i))),
        },
        s => (s, Action::Finish),
    }
}

/// The arguments of the build command at position `i`: clean, upgrade the
/// dependencies, fetch them, run code generation overwriting conflicts.
pub fn pipeline_args(i: usize) -> (r: Vec<&'static str>)
    requires
        i < PIPELINE_LEN,
    ensures
        r@.map_values(|a: &str| a@) == pipeline_args_of(i),
{
    let mut r: Vec<&'static str> = Vec::new();
    if i == 0 {
        r.push("clean");
    } else if i == 1 {
        r.push("pub");
        r.push("upgrade");
    } else if i == 2 {
        r.push("pub");
        r.push("get");
    } else {
        r.push("pub");
        r.push("run");
        r.push("build_runner");
        r.push("build");
        r.push("--delete-conflicting-outputs");
    }
    assert(r@.map_values(|a: &str| a@) =~= pipeline_args_of(i));
    r
}

/// The arguments of the build command at position `i`.
pub open spec fn pipeline_args_of(i: usize) -> Seq<Seq<char>> {
    if i == 0 {
        seq!["clean"@]
    } else if i == 1 {
        seq!["pub"@, "upgrade"@]
    } else if i == 2 {
        seq!["pub"@, "get"@]
    } else {
        seq!["pub"@, "run"@, "build_runner"@, "build"@, "--delete-conflicting-outputs"@]
    }
}

/// The build tool's executable: `flutter.bat` on Windows, else `flutter`.
pub fn build_tool(windows: bool) -> (r: &'static str)
    ensures
        r@ == (if windows { "flutter.bat"@ } else { "flutter"@ }),
{
    if windows {
        "flutter.bat"
    } else {
        "flutter"
    }
}

/// A missing build tool fails the run at once, before the configuration is
/// read: the run's first action is the probe, and its failure ends the run.
pub proof fn lemma_tool_missing_stops()
    ensures
        next(RunState::CheckingTool, Event::ToolMissing) == (RunState::Failed, Action::Fail(RunError::ExternalToolNotFound)),
        forall|e: Event| !event_fits(RunState::Failed, e),
{
}

/// A missing configuration fails the run with `ConfigNotFound`, before any
/// scan or build command, and nothing follows.
pub proof fn lemma_config_missing_stops()
    ensures
        next(RunState::ReadingConfig, Event::ConfigMissing) == (RunState::Failed, Action::Fail(RunError::ConfigNotFound)),
        forall|e: Event| !event_fits(RunState::Failed, e),
{
}

/// A failing build command ends the run: the commands after it are not run.
pub proof fn lemma_step_failure_stops(i: usize)
    requires
        i < PIPELINE_LEN,
    ensures
        next(RunState::RunningStep(i), Event::StepFailed) == (RunState::Failed, Action::Fail(RunError::ExternalCommandFailed(i))),
{
}

} // verus!
