//! The course of a run: which step comes next, and with which status the
//! run ends.
//!
//! The steps themselves (reading files, rendering, staging, writing the
//! archive) are carried out by the caller. After each step the caller
//! reports how it went and is told what to do next.

use vstd::prelude::*;
use vstd::string::StringExecFns;

verus! {

/// Severity up to which records are logged.
#[derive(Debug, Clone, Copy, PartialEq, Eq, Structural)]
pub enum Level {
    Error,
    Warn,
    Info,
    Debug,
    Trace,
}

impl Level {
    /// The place of the level in the order from `Error` to `Trace`.
    pub open spec fn rank(self) -> int {
        match self {
            Level::Error => 0,
            Level::Warn => 1,
            Level::Info => 2,
            Level::Debug => 3,
            Level::Trace => 4,
        }
    }

    /// The name of the level in lower case.
    pub open spec fn spec_label(self) -> Seq<char> {
        match self {
            Level::Error => "error"@,
            Level::Warn => "warn"@,
            Level::Info => "info"@,
            Level::Debug => "debug"@,
            Level::Trace => "trace"@,
        }
    }

    /// The name of the level in lower case.
    pub fn label(self) -> (r: &'static str)
        ensures
            r@ == self.spec_label(),
    {
        match self {
            Level::Error => "error",
            Level::Warn => "warn",
            Level::Info => "info",
            Level::Debug => "debug",
            Level::Trace => "trace",
        }
    }
}

/// The level that a number of verbosity flags asks for.
pub open spec fn level_of(verbosity: u8) -> Level {
    if verbosity == 0 {
        Level::Error
    } else if verbosity == 1 {
        Level::Warn
    } else if verbosity == 2 {
        Level::Info
    } else if verbosity == 3 {
        Level::Debug
    } else {
        Level::Trace
    }
}

/// The level that a number of verbosity flags asks for: none logs errors
/// only, four or more log everything.
pub fn level_for(verbosity: u8) -> (r: Level)
    ensures
        r == level_of(verbosity),
        r.rank() == (if verbosity < 4 {
            verbosity as int
        } else {
            4
        }),
{
    match verbosity {
        0 => Level::Error,
        1 => Level::Warn,
        2 => Level::Info,
        3 => Level::Debug,
        _ => Level::Trace,
    }
}

/// More verbosity flags never log less.
pub proof fn lemma_level_monotone(a: u8, b: u8)
    requires
        a <= b,
    ensures
        level_of(a).rank() <= level_of(b).rank(),
{
}

/// Whether records at this filter level are written in the logger's own
/// format, without time stamps, rather than as `[level] message`.
pub fn own_format(filter: Level) -> (r: bool)
    ensures
        r == (filter == Level::Trace),
{
    match filter {
        Level::Trace => true,
        _ => false,
    }
}

/// A log record as one line: the level in square brackets, then the message.
pub fn record_line(level: Level, message: &str) -> (r: String)
    ensures
        r@ == seq!['['] + level.spec_label() + seq![']', ' '] + message@,
{
    let mut r = String::from_str("[");
    r.append(level.label());
    r.append("] ");
    r.append(message);
    proof {
        reveal_strlit("[");
        reveal_strlit("] ");
        assert("["@ =~= seq!['[']);
        assert("] "@ =~= seq![']', ' ']);
    }
    r
}

/// The class of status with which a run ends.
#[derive(Debug, Clone, Copy, PartialEq, Eq, Structural)]
pub enum ExitStatus {
    /// The archive was written.
    Success,
    /// The input is malformed, collides, or cannot be rendered.
    DataError,
    /// The staging plan could not be laid out on the file system.
    IoError,
    /// Anything else went wrong.
    Software,
}

/// Where a run stands: the step that is under way.
#[derive(Debug, Clone, Copy, PartialEq, Eq, Structural)]
pub enum Phase {
    /// The data files are being merged into the namespace.
    Merging,
    /// The template engine is being set up over the namespace.
    Priming,
    /// The staging specification is being loaded.
    Loading,
    /// The staging specification is being rendered.
    Rendering,
    /// The staging directory is being created.
    Allocating,
    /// The rendered specification is being laid out as actions.
    Planning,
    /// Action `next` of `count` is being logged.
    Logging { next: usize, count: usize },
    /// Action `next` of `count` is being performed.
    Performing { next: usize, count: usize },
    /// The staging directory is being archived.
    Archiving,
    /// The run is over.
    Finished(ExitStatus),
}

/// How the step under way went.
#[derive(Debug, Clone, Copy, PartialEq, Eq, Structural)]
pub enum Event {
    /// It succeeded.
    Done,
    /// Planning succeeded with this many actions.
    Planned(usize),
    /// It failed.
    Failed,
}

/// What the caller is to do next.
#[derive(Debug, Clone, Copy, PartialEq, Eq, Structural)]
pub enum Command {
    Merge,
    Prime,
    LoadStage,
    Render,
    CreateStagingDir,
    Plan,
    /// Log the action with this index.
    Log(usize),
    /// Perform the action with this index.
    Perform(usize),
    Archive,
    /// End the run with this status.
    Exit(ExitStatus),
}

/// The end of a run with the given status.
pub open spec fn ended(status: ExitStatus) -> (Phase, Command) {
    (Phase::Finished(status), Command::Exit(status))
}

/// What follows the last action: the archive, or, in a dry run, the end
/// of the run, for a dry run writes nothing.
pub open spec fn after_staging(dry_run: bool) -> (Phase, Command) {
    if dry_run {
        ended(ExitStatus::Success)
    } else {
        (Phase::Archiving, Command::Archive)
    }
}

/// What follows action `next` of `count`: the log of the next action, or
/// what follows the last.
pub open spec fn after_action(next: usize, count: usize, dry_run: bool) -> (Phase, Command) {
    if next < count && count - next > 1 {
        (Phase::Logging { next: (next + 1) as usize, count }, Command::Log((next + 1) as usize))
    } else {
        after_staging(dry_run)
    }
}

/// The phase and command that follow `phase` on `event`.
///
/// A failed merge or rendering ends the run with a data error, a failed
/// planning with an I/O error, any other failure and any event that the
/// phase does not expect with a software error. Actions are logged one by
/// one in order; each is performed after it is logged, unless the run is
/// dry. When every action is through, the archive is made; a dry run ends
/// there instead, with success and without an archive.
pub open spec fn next_of(phase: Phase, event: Event, dry_run: bool) -> (Phase, Command) {
    match phase {
        Phase::Merging => match event {
            Event::Done => (Phase::Priming, Command::Prime),
            Event::Failed => ended(ExitStatus::DataError),
            _ => ended(ExitStatus::Software),
        },
        Phase::Priming => match event {
            Event::Done => (Phase::Loading, Command::LoadStage),
            _ => ended(ExitStatus::Software),
        },
        Phase::Loading => match event {
            Event::Done => (Phase::Rendering, Command::Render),
            _ => ended(ExitStatus::Software),
        },
        Phase::Rendering => match event {
            Event::Done => (Phase::Allocating, Command::CreateStagingDir),
            Event::Failed => ended(ExitStatus::DataError),
            _ => ended(ExitStatus::Software),
        },
        Phase::Allocating => match event {
            Event::Done => (Phase::Planning, Command::Plan),
            _ => ended(ExitStatus::Software),
        },
        Phase::Planning => match event {
            Event::Planned(count) => if count > 0 {
                (Phase::Logging { next: 0, count }, Command::Log(0))
            } else {
                after_staging(dry_run)
            },
            Event::Failed => ended(ExitStatus::IoError),
            _ => ended(ExitStatus::Software),
        },
        Phase::Logging { next, count } => match event {
            Event::Done => if dry_run {
                after_action(next, count, dry_run)
            } else {
                (Phase::Performing { next, count }, Command::Perform(next))
            },
            _ => ended(ExitStatus::Software),
        },
        Phase::Performing { next, count } => match event {
            Event::Done => after_action(next, count, dry_run),
            _ => ended(ExitStatus::Software),
        },
        Phase::Archiving => match event {
            Event::Done => ended(ExitStatus::Success),
            _ => ended(ExitStatus::Software),
        },
        Phase::Finished(status) => ended(status),
    }
}

/// The first phase of a run and the command that opens it.
pub fn begin() -> (r: (Phase, Command))
    ensures
        r == (Phase::Merging, Command::Merge),
{
    (Phase::Merging, Command::Merge)
}

/// Takes the outcome of the step under way and says what comes next.
pub fn advance(phase: Phase, event: Event, dry_run: bool) -> (r: (Phase, Command))
    ensures
        r == next_of(phase, event, dry_run),
        dry_run ==> !(r.1 is Perform) && !(r.1 is Archive),
{
    match phase {
        Phase::Merging => match event {
            Event::Done => (Phase::Priming, Command::Prime),
            Event::Failed => finish(ExitStatus::DataError),
            _ => finish(ExitStatus::Software),
        },
        Phase::Priming => match event {
            Event::Done => (Phase::Loading, Command::LoadStage),
            _ => finish(ExitStatus::Software),
        },
        Phase::Loading => match event {
            Event::Done => (Phase::Rendering, Command::Render),
            _ => finish(ExitStatus::Software),
        },
        Phase::Rendering => match event {
            Event::Done => (Phase::Allocating, Command::CreateStagingDir),
            Event::Failed => finish(ExitStatus::DataError),
            _ => finish(ExitStatus::Software),
        },
        Phase::Allocating => match event {
            Event::Done => (Phase::Planning, Command::Plan),
            _ => finish(ExitStatus::Software),
        },
        Phase::Planning => match event {
            Event::Planned(count) => if count > 0 {
                (Phase::Logging { next: 0, count }, Command::Log(0))
            } else {
                wrap_up(dry_run)
            },
            Event::Failed => finish(ExitStatus::IoError),
            _ => finish(ExitStatus::Software),
        },
        Phase::Logging { next, count } => match event {
            Event::Done => if dry_run {
                step_on(next, count, dry_run)
            } else {
                (Phase::Performing { next, count }, Command::Perform(next))
            },
            _ => finish(ExitStatus::Software),
        },
        Phase::Performing { next, count } => match event {
            Event::Done => step_on(next, count, dry_run),
            _ => finish(ExitStatus::Software),
        },
        Phase::Archiving => match event {
            Event::Done => finish(ExitStatus::Success),
            _ => finish(ExitStatus::Software),
        },
        Phase::Finished(status) => finish(status),
    }
}

/// Ends the run with the given status.
fn finish(status: ExitStatus) -> (r: (Phase, Command))
    ensures
        r == ended(status),
{
    (Phase::Finished(status), Command::Exit(status))
}

/// Goes on after the last action.
fn wrap_up(dry_run: bool) -> (r: (Phase, Command))
    ensures
        r == after_staging(dry_run),
{
    if dry_run {
        finish(ExitStatus::Success)
    } else {
        (Phase::Archiving, Command::Archive)
    }
}

/// Goes on after action `next` of `count`.
fn step_on(next: usize, count: usize, dry_run: bool) -> (r: (Phase, Command))
    ensures
        r == after_action(next, count, dry_run),
{
    if next < count && count - next > 1 {
        (Phase::Logging { next: next + 1, count }, Command::Log(next + 1))
    } else {
        wrap_up(dry_run)
    }
}

/// The status with which a run ends when the given step fails.
pub fn status_on_failure(phase: Phase) -> (r: ExitStatus)
    ensures
        next_of(phase, Event::Failed, false) == ended(r),
        next_of(phase, Event::Failed, true) == ended(r),
{
    match phase {
        Phase::Merging => ExitStatus::DataError,
        Phase::Rendering => ExitStatus::DataError,
        Phase::Planning => ExitStatus::IoError,
        Phase::Finished(status) => status,
        _ => ExitStatus::Software,
    }
}

/// How far a run is from the end of staging while its actions go through.
pub open spec fn distance(phase: Phase) -> nat {
    match phase {
        Phase::Logging { next, count } => if next < count {
            (2 * (count - next)) as nat
        } else {
            0
        },
        Phase::Performing { next, count } => if next < count {
            (2 * (count - next) - 1) as nat
        } else {
            0
        },
        _ => 0,
    }
}

/// The commands given from `phase` on while every step succeeds, up to
/// and with the one that follows the last action.
pub open spec fn staging_commands(phase: Phase, dry_run: bool) -> Seq<Command>
    decreases distance(phase),
{
    if distance(phase) == 0 {
        Seq::empty()
    } else {
        seq![next_of(phase, Event::Done, dry_run).1] + staging_commands(
            next_of(phase, Event::Done, dry_run).0,
            dry_run,
        )
    }
}

/// The indices of the actions that a list of commands logs, in order.
pub open spec fn logged(commands: Seq<Command>) -> Seq<usize>
    decreases commands.len(),
{
    if commands.len() == 0 {
        Seq::empty()
    } else {
        match commands[0] {
            Command::Log(i) => seq![i] + logged(commands.drop_first()),
            _ => logged(commands.drop_first()),
        }
    }
}

/// The indices of the actions that a list of commands performs, in order.
pub open spec fn performed(commands: Seq<Command>) -> Seq<usize>
    decreases commands.len(),
{
    if commands.len() == 0 {
        Seq::empty()
    } else {
        match commands[0] {
            Command::Perform(i) => seq![i] + performed(commands.drop_first()),
            _ => performed(commands.drop_first()),
        }
    }
}

/// How many times a list of commands asks for the archive.
pub open spec fn archived(commands: Seq<Command>) -> nat
    decreases commands.len(),
{
    if commands.len() == 0 {
        0
    } else {
        match commands[0] {
            Command::Archive => 1 + archived(commands.drop_first()),
            _ => archived(commands.drop_first()),
        }
    }
}

/// The indices from `from` up to `count`, in order.
pub open spec fn indices(from: int, count: int) -> Seq<usize> {
    Seq::new((if from <= count { count - from } else { 0 }) as nat, |i: int| (from + i) as usize)
}

/// What a command in front adds to the logged and performed actions.
proof fn lemma_front(c: Command, rest: Seq<Command>)
    ensures
        logged(seq![c] + rest) == (match c {
            Command::Log(i) => seq![i] + logged(rest),
            _ => logged(rest),
        }),
        performed(seq![c] + rest) == (match c {
            Command::Perform(i) => seq![i] + performed(rest),
            _ => performed(rest),
        }),
        archived(seq![c] + rest) == (match c {
            Command::Archive => 1 + archived(rest),
            _ => archived(rest),
        }),
{
    assert((seq![c] + rest).drop_first() =~= rest);
    assert((seq![c] + rest)[0] == c);
}

/// The indices from `from` on start with `from`.
proof fn lemma_indices_front(from: usize, count: usize)
    requires
        from < count,
    ensures
        indices(from as int, count as int) == seq![from] + indices(from + 1, count as int),
        indices(count as int, count as int) == Seq::<usize>::empty(),
{
    assert(indices(from as int, count as int) =~= seq![from] + indices(from + 1, count as int));
    assert(indices(count as int, count as int) =~= Seq::<usize>::empty());
}

/// After the log of action `next`, the remaining actions are logged in
/// order whether the run is dry or not; a dry run performs none of them,
/// another run performs each of them, `next` included, in order.
proof fn lemma_staging(next: usize, count: usize, dry_run: bool)
    requires
        next < count,
    ensures
        logged(staging_commands(Phase::Logging { next, count }, dry_run)) == indices(
            next + 1,
            count as int,
        ),
        dry_run ==> performed(staging_commands(Phase::Logging { next, count }, dry_run))
            == Seq::<usize>::empty(),
        !dry_run ==> performed(staging_commands(Phase::Logging { next, count }, dry_run))
            == indices(next as int, count as int),
        archived(staging_commands(Phase::Logging { next, count }, dry_run)) == (if dry_run {
            0nat
        } else {
            1nat
        }),
    decreases count - next,
{
    let start = Phase::Logging { next, count };
    let all = staging_commands(start, dry_run);
    let last = count - next == 1;
    let (p2, c2) = after_action(next, count, dry_run);
    let tail2 = staging_commands(p2, dry_run);
    lemma_indices_front(next, count);
    if last {
        assert(tail2 =~= Seq::<Command>::empty());
        assert(logged(tail2) =~= Seq::<usize>::empty());
        assert(performed(tail2) =~= Seq::<usize>::empty());
        assert(archived(tail2) == 0);
    } else {
        lemma_staging((next + 1) as usize, count, dry_run);
        lemma_indices_front((next + 1) as usize, count);
    }
    lemma_front(c2, tail2);
    if dry_run {
        assert(all == seq![c2] + tail2);
    } else {
        let p1 = Phase::Performing { next, count };
        let c1 = Command::Perform(next);
        let tail1 = staging_commands(p1, dry_run);
        assert(all == seq![c1] + tail1);
        assert(tail1 == seq![c2] + tail2);
        lemma_front(c1, tail1);
    }
}

/// The commands of a run from the end of planning on, where planning
/// gave `count` actions and every step succeeds.
pub open spec fn planned_commands(count: usize, dry_run: bool) -> Seq<Command> {
    seq![next_of(Phase::Planning, Event::Planned(count), dry_run).1] + staging_commands(
        next_of(Phase::Planning, Event::Planned(count), dry_run).0,
        dry_run,
    )
}

/// A dry run logs the same actions in the same order as a run that
/// performs them, every action of the plan once, performs none and never
/// asks for the archive; the other run performs exactly the actions it
/// logs, in that order, and asks for the archive once.
pub proof fn lemma_dry_run_logs_the_same(count: usize)
    ensures
        logged(planned_commands(count, true)) == logged(planned_commands(count, false)),
        logged(planned_commands(count, true)) == indices(0, count as int),
        performed(planned_commands(count, true)) == Seq::<usize>::empty(),
        performed(planned_commands(count, false)) == indices(0, count as int),
        archived(planned_commands(count, true)) == 0,
        archived(planned_commands(count, false)) == 1,
{
    if count == 0 {
        let none = Seq::<Command>::empty();
        assert(staging_commands(Phase::Archiving, false) =~= none);
        assert(staging_commands(Phase::Finished(ExitStatus::Success), true) =~= none);
        lemma_front(Command::Archive, none);
        lemma_front(Command::Exit(ExitStatus::Success), none);
        assert(logged(none) =~= Seq::<usize>::empty());
        assert(performed(none) =~= Seq::<usize>::empty());
        assert(archived(none) == 0);
        assert(indices(0, 0) =~= Seq::<usize>::empty());
    } else {
        let start = Phase::Logging { next: 0, count };
        lemma_staging(0, count, true);
        lemma_staging(0, count, false);
        lemma_front(Command::Log(0), staging_commands(start, true));
        lemma_front(Command::Log(0), staging_commands(start, false));
        lemma_indices_front(0, count);
    }
}

} // verus!
