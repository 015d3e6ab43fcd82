use build_yaml_gen::run::{build_tool, pipeline_args, start, step, Action, Event, RunError, RunState};

#[test]
fn missing_tool_fails_before_config() {
    let (s, a) = start();
    assert_eq!(a, Action::ProbeTool);
    let (s, a) = step(s, Event::ToolMissing);
    assert_eq!(s, RunState::Failed);
    assert_eq!(a, Action::Fail(RunError::ExternalToolNotFound));
}

#[test]
fn missing_config_fails_before_scan_or_commands() {
    let (s, _) = start();
    let (s, a) = step(s, Event::ToolFound);
    assert_eq!(a, Action::ReadConfig);
    let (s, a) = step(s, Event::ConfigMissing);
    assert_eq!(s, RunState::Failed);
    assert_eq!(a, Action::Fail(RunError::ConfigNotFound));
}

#[test]
fn invalid_config_is_a_parse_error() {
    let (s, a) = step(RunState::ReadingConfig, Event::ConfigInvalid);
    assert_eq!((s, a), (RunState::Failed, Action::Fail(RunError::ConfigParseError)));
}

#[test]
fn pipeline_runs_four_commands_in_order() {
    let (s, _) = start();
    let (s, _) = step(s, Event::ToolFound);
    let (s, a) = step(s, Event::ConfigRead);
    assert_eq!(a, Action::UpdateConfig);
    let (mut s, mut a) = step(s, Event::ConfigWritten);
    let mut seen = Vec::new();
    while let Action::RunStep(i) = a {
        seen.push(pipeline_args(i));
        let n = step(s, Event::StepSucceeded);
        s = n.0;
        a = n.1;
    }
    assert_eq!(a, Action::Finish);
    assert_eq!(s, RunState::Finished);
    assert_eq!(
        seen,
        vec![
            vec!["clean"],
            vec!["pub", "upgrade"],
            vec!["pub", "get"],
            vec!["pub", "run", "build_runner", "build", "--delete-conflicting-outputs"],
        ]
    );
}

#[test]
fn failing_command_stops_the_pipeline() {
    let (s, a) = step(RunState::RunningStep(1), Event::StepFailed);
    assert_eq!((s, a), (RunState::Failed, Action::Fail(RunError::ExternalCommandFailed(1))));
    let (_, a) = step(RunState::UpdatingConfig, Event::ConfigWriteFailed);
    assert_eq!(a, Action::Fail(RunError::ConfigWriteError));
}

#[test]
fn tool_name_depends_on_platform() {
    assert_eq!(build_tool(true), "flutter.bat");
    assert_eq!(build_tool(false), "flutter");
}
