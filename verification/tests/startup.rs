use grimoire::config::{
    crashes_subdir, decide_timeout, exit_status, judge_output_dir, judge_seed_dir,
    output_dir_failure, parse_millis, plan_startup, queue_subdir, Arguments, OutputDir,
    SetupFailure, Startup,
};
use grimoire::supervisor::{supervise, Action, Event, Phase};

fn args(output: Option<&str>, input: Option<&str>, timeout: Option<&str>, remaining: &[&str]) -> Arguments {
    Arguments {
        output: output.map(String::from),
        input: input.map(String::from),
        tokens: None,
        timeout: timeout.map(String::from),
        remaining: remaining.iter().map(|s| s.to_string()).collect(),
    }
}

#[test]
fn timeout_text_is_a_decimal_number() {
    assert_eq!(parse_millis("12000"), Some(12000));
    assert_eq!(parse_millis("0"), Some(0));
    assert_eq!(parse_millis("+15"), Some(15));
    assert_eq!(parse_millis("007"), Some(7));
    assert_eq!(parse_millis("18446744073709551615"), Some(u64::MAX));
    assert_eq!(parse_millis("18446744073709551616"), None);
    assert_eq!(parse_millis("99999999999999999999999"), None);
    assert_eq!(parse_millis(""), None);
    assert_eq!(parse_millis("+"), None);
    assert_eq!(parse_millis("-1"), None);
    assert_eq!(parse_millis("12s"), None);
    assert_eq!(parse_millis(" 12"), None);
    assert_eq!(parse_millis("1.5"), None);
}

#[test]
fn files_on_the_command_line_ask_for_replay() {
    match plan_startup(args(None, None, Some("junk"), &["a.bin", "b.bin"])) {
        Startup::Replay(files) => assert_eq!(files, vec!["a.bin".to_string(), "b.bin".to_string()]),
        other => panic!("{:?}", other),
    }
}

#[test]
fn fuzzing_needs_an_output_directory() {
    assert!(matches!(plan_startup(args(None, Some("in"), None, &[])), Startup::MissingOutput));
}

#[test]
fn plan_carries_the_rest_as_given() {
    match plan_startup(args(Some("out"), None, Some("soon"), &[])) {
        Startup::Fuzz(plan) => {
            assert_eq!(plan.output_dir, "out");
            assert_eq!(plan.seed_dir, None);
            assert_eq!(plan.token_file, None);
            assert_eq!(plan.timeout, Some("soon".to_string()));
        }
        other => panic!("{:?}", other),
    }
    let mut with_tokens = args(Some("o"), Some("i"), Some("250"), &[]);
    with_tokens.tokens = Some("dict.txt".to_string());
    match plan_startup(with_tokens) {
        Startup::Fuzz(plan) => {
            assert_eq!(plan.seed_dir, Some("i".to_string()));
            assert_eq!(plan.token_file, Some("dict.txt".to_string()));
            assert_eq!(decide_timeout(&plan.timeout), Ok(250));
        }
        other => panic!("{:?}", other),
    }
}

#[test]
fn default_timeout_is_twelve_seconds() {
    assert_eq!(decide_timeout(&None), Ok(12000));
    assert_eq!(decide_timeout(&Some("7".to_string())), Ok(7));
    assert_eq!(decide_timeout(&Some("soon".to_string())), Err(SetupFailure::BadTimeout));
    assert_eq!(decide_timeout(&Some("".to_string())), Err(SetupFailure::BadTimeout));
}

#[test]
fn seed_directory_is_judged_after_the_output_directory() {
    assert_eq!(judge_seed_dir(false, false), Some(SetupFailure::MissingInput));
    assert_eq!(judge_seed_dir(false, true), Some(SetupFailure::MissingInput));
    assert_eq!(judge_seed_dir(true, false), Some(SetupFailure::SeedDirInvalid));
    assert_eq!(judge_seed_dir(true, true), None);
}

#[test]
fn setup_failures_end_with_a_non_zero_status() {
    for failure in [
        SetupFailure::MissingOutput,
        SetupFailure::OutputDirInvalid,
        SetupFailure::MissingInput,
        SetupFailure::SeedDirInvalid,
        SetupFailure::BadTimeout,
        SetupFailure::SeedLoadFailed,
    ] {
        assert_eq!(exit_status(failure), 1);
    }
    assert_eq!(output_dir_failure(OutputDir::Invalid), Some(SetupFailure::OutputDirInvalid));
    assert_eq!(output_dir_failure(OutputDir::Created), None);
    assert_eq!(output_dir_failure(OutputDir::Existing), None);
}

#[test]
fn output_directory_verdicts() {
    assert_eq!(judge_output_dir(true, true), OutputDir::Created);
    assert_eq!(judge_output_dir(false, true), OutputDir::Existing);
    assert_eq!(judge_output_dir(false, false), OutputDir::Invalid);
    assert_eq!(queue_subdir(), "queue");
    assert_eq!(crashes_subdir(), "crashes");
}

#[test]
fn first_launch_builds_fresh_state() {
    assert_eq!(supervise(Phase::Launch, Event::SnapshotAbsent), (Phase::FreshState, Action::BuildState));
    assert_eq!(supervise(Phase::FreshState, Event::StateReady), (Phase::FuzzLoop, Action::RunFuzzLoop));
}

#[test]
fn death_of_the_child_leads_to_respawn_and_restore() {
    assert_eq!(supervise(Phase::FuzzLoop, Event::ChildDied), (Phase::Launch, Action::Respawn));
    assert_eq!(supervise(Phase::FuzzLoop, Event::ChildExited), (Phase::Launch, Action::Respawn));
    assert_eq!(supervise(Phase::Launch, Event::SnapshotPresent), (Phase::RestoredState, Action::RestoreState));
    assert_eq!(supervise(Phase::RestoredState, Event::StateReady), (Phase::FuzzLoop, Action::RunFuzzLoop));
}

#[test]
fn shutdown_is_terminal_with_exit_code_zero() {
    for phase in [Phase::Launch, Phase::FreshState, Phase::RestoredState, Phase::FuzzLoop, Phase::Stopped] {
        assert_eq!(supervise(phase, Event::Shutdown), (Phase::Stopped, Action::Exit(0)));
    }
    for event in [Event::SnapshotAbsent, Event::SnapshotPresent, Event::StateReady, Event::ChildDied, Event::ChildExited] {
        assert_eq!(supervise(Phase::Stopped, event), (Phase::Stopped, Action::Exit(0)));
    }
}

#[test]
fn events_out_of_place_change_nothing() {
    assert_eq!(supervise(Phase::Launch, Event::ChildDied), (Phase::Launch, Action::Wait));
    assert_eq!(supervise(Phase::FuzzLoop, Event::SnapshotPresent), (Phase::FuzzLoop, Action::Wait));
    assert_eq!(supervise(Phase::FreshState, Event::SnapshotAbsent), (Phase::FreshState, Action::Wait));
}
