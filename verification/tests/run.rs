use cargo_tarball::run::advance;
use cargo_tarball::run::begin;
use cargo_tarball::run::level_for;
use cargo_tarball::run::own_format;
use cargo_tarball::run::record_line;
use cargo_tarball::run::status_on_failure;
use cargo_tarball::run::Command;
use cargo_tarball::run::Event;
use cargo_tarball::run::ExitStatus;
use cargo_tarball::run::Level;
use cargo_tarball::run::Phase;

fn play(count: usize, dry_run: bool) -> Vec<Command> {
    let (mut phase, first) = begin();
    let mut commands = vec![first];
    loop {
        let event = if phase == Phase::Planning { Event::Planned(count) } else { Event::Done };
        let (next, command) = advance(phase, event, dry_run);
        commands.push(command);
        phase = next;
        if let Command::Exit(_) = command {
            return commands;
        }
        assert!(commands.len() < 100);
    }
}

#[test]
fn verbosity_selects_the_level() {
    assert_eq!(level_for(0), Level::Error);
    assert_eq!(level_for(1), Level::Warn);
    assert_eq!(level_for(2), Level::Info);
    assert_eq!(level_for(3), Level::Debug);
    assert_eq!(level_for(4), Level::Trace);
    assert_eq!(level_for(5), Level::Trace);
    assert_eq!(level_for(255), Level::Trace);
}

#[test]
fn records_are_prefixed_with_their_level() {
    assert_eq!(record_line(Level::Warn, "Invalid data file path"), "[warn] Invalid data file path");
    assert_eq!(record_line(Level::Error, ""), "[error] ");
    assert_eq!(record_line(Level::Debug, "copy a to b"), "[debug] copy a to b");
    assert_eq!(Level::Info.label(), "info");
    assert_eq!(Level::Trace.label(), "trace");
}

#[test]
fn only_trace_keeps_the_loggers_own_format() {
    assert!(own_format(Level::Trace));
    assert!(!own_format(Level::Debug));
    assert!(!own_format(Level::Error));
}

#[test]
fn a_run_goes_through_every_step() {
    assert_eq!(
        play(2, false),
        vec![
            Command::Merge,
            Command::Prime,
            Command::LoadStage,
            Command::Render,
            Command::CreateStagingDir,
            Command::Plan,
            Command::Log(0),
            Command::Perform(0),
            Command::Log(1),
            Command::Perform(1),
            Command::Archive,
            Command::Exit(ExitStatus::Success),
        ]
    );
}

#[test]
fn a_dry_run_logs_and_does_not_perform() {
    assert_eq!(
        play(3, true),
        vec![
            Command::Merge,
            Command::Prime,
            Command::LoadStage,
            Command::Render,
            Command::CreateStagingDir,
            Command::Plan,
            Command::Log(0),
            Command::Log(1),
            Command::Log(2),
            Command::Exit(ExitStatus::Success),
        ]
    );
}

#[test]
fn dry_and_wet_runs_log_the_same_actions() {
    for count in [0usize, 1, 2, 5] {
        let logs = |dry: bool| -> Vec<Command> {
            play(count, dry).into_iter().filter(|c| matches!(c, Command::Log(_))).collect()
        };
        assert_eq!(logs(true), logs(false));
        assert_eq!(logs(true).len(), count);
        assert!(!play(count, true).iter().any(|c| matches!(c, Command::Perform(_))));
        assert!(!play(count, true).iter().any(|c| matches!(c, Command::Archive)));
        assert_eq!(play(count, false).iter().filter(|c| matches!(c, Command::Archive)).count(), 1);
        assert_eq!(play(count, true).last(), Some(&Command::Exit(ExitStatus::Success)));
    }
}

#[test]
fn a_plan_without_actions_goes_to_the_archive() {
    assert_eq!(advance(Phase::Planning, Event::Planned(0), false), (Phase::Archiving, Command::Archive));
    assert_eq!(
        advance(Phase::Planning, Event::Planned(1), true),
        (Phase::Logging { next: 0, count: 1 }, Command::Log(0))
    );
    assert_eq!(
        advance(Phase::Planning, Event::Planned(0), true),
        (Phase::Finished(ExitStatus::Success), Command::Exit(ExitStatus::Success))
    );
}

#[test]
fn failures_end_the_run_with_their_status() {
    let cases = [
        (Phase::Merging, ExitStatus::DataError),
        (Phase::Priming, ExitStatus::Software),
        (Phase::Loading, ExitStatus::Software),
        (Phase::Rendering, ExitStatus::DataError),
        (Phase::Allocating, ExitStatus::Software),
        (Phase::Planning, ExitStatus::IoError),
        (Phase::Logging { next: 0, count: 2 }, ExitStatus::Software),
        (Phase::Performing { next: 1, count: 2 }, ExitStatus::Software),
        (Phase::Archiving, ExitStatus::Software),
    ];
    for (phase, status) in cases {
        for dry in [false, true] {
            assert_eq!(advance(phase, Event::Failed, dry), (Phase::Finished(status), Command::Exit(status)));
        }
        assert_eq!(status_on_failure(phase), status);
    }
}

#[test]
fn a_failed_action_stops_the_staging() {
    let (phase, command) = advance(Phase::Logging { next: 0, count: 3 }, Event::Done, false);
    assert_eq!(command, Command::Perform(0));
    let (phase, command) = advance(phase, Event::Failed, false);
    assert_eq!(command, Command::Exit(ExitStatus::Software));
    assert_eq!(phase, Phase::Finished(ExitStatus::Software));
}

#[test]
fn an_unexpected_event_is_a_software_error() {
    assert_eq!(
        advance(Phase::Merging, Event::Planned(3), false),
        (Phase::Finished(ExitStatus::Software), Command::Exit(ExitStatus::Software))
    );
    assert_eq!(
        advance(Phase::Planning, Event::Done, false),
        (Phase::Finished(ExitStatus::Software), Command::Exit(ExitStatus::Software))
    );
}

#[test]
fn a_finished_run_stays_finished() {
    for event in [Event::Done, Event::Failed, Event::Planned(2)] {
        assert_eq!(
            advance(Phase::Finished(ExitStatus::DataError), event, false),
            (Phase::Finished(ExitStatus::DataError), Command::Exit(ExitStatus::DataError))
        );
    }
    assert_eq!(status_on_failure(Phase::Finished(ExitStatus::Success)), ExitStatus::Success);
}

#[test]
fn the_last_action_leads_to_the_archive() {
    assert_eq!(
        advance(Phase::Performing { next: 1, count: 2 }, Event::Done, false),
        (Phase::Archiving, Command::Archive)
    );
    assert_eq!(
        advance(Phase::Logging { next: usize::MAX, count: usize::MAX }, Event::Done, true),
        (Phase::Finished(ExitStatus::Success), Command::Exit(ExitStatus::Success))
    );
    assert_eq!(
        advance(Phase::Logging { next: 1, count: 2 }, Event::Done, true),
        (Phase::Finished(ExitStatus::Success), Command::Exit(ExitStatus::Success))
    );
    assert_eq!(
        advance(Phase::Performing { next: 0, count: 2 }, Event::Done, false),
        (Phase::Logging { next: 1, count: 2 }, Command::Log(1))
    );
}
