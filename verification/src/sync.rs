//! Keeping the repository up to date: the decisions of the background loop.
//!
//! The loop itself runs elsewhere. It does what an action says, reports
//! what happened as an event, and asks `step` what comes next.

use crate::cmd::{tool_failure_of, words, Cmd};
use crate::response_status::{Failure, ResponseStatus};
use crate::traits::{ProcessOutcome, ProcessResult};
use vstd::prelude::*;
use vstd::utf8::encode_utf8;

verus! {

/// Half an hour: the pause between two pulls where none is configured.
pub const DEFAULT_PULL_INTERVAL_SECS: u64 = 1800;

/// Where the loop stands.
#[derive(Clone, Copy, Debug, PartialEq, Eq, Structural)]
pub enum SyncState {
    /// Nothing has been done yet.
    Starting,
    /// The first clone is running.
    Cloning,
    /// A pull is running.
    Pulling,
    /// The loop sleeps between two pulls.
    Sleeping,
    /// The clone failed: there is nothing to serve.
    Stopped,
}

/// How loud a pull is reported.
#[derive(Clone, Copy, Debug, PartialEq, Eq, Structural)]
pub enum LogLevel {
    Info,
    Error,
}

/// What happened since the last action.
pub enum SyncEvent {
    /// The repository path was looked at.
    Checked { exists: bool },
    /// The command was run, or could not be started.
    Ran(Result<ProcessResult, ResponseStatus>),
    /// The pause is over.
    Woke,
}

/// What the loop is to do next.
pub enum SyncAction {
    /// Run the command in the repository path, which is to be made first
    /// where `create_directory` says so, and report with `Ran`.
    Run { create_directory: bool, command: Vec<String> },
    /// Log the two streams at `level`, sleep for `seconds` and report with
    /// `Woke`.
    Sleep { level: LogLevel, stdout: Vec<u8>, stderr: Vec<u8>, seconds: u64 },
    /// Give up: the server cannot start.
    Stop(ResponseStatus),
    /// The event was not waited for: go on waiting.
    Wait,
}

/// A `SyncEvent` as contracts speak of it.
pub enum Happened {
    Checked { exists: bool },
    Ran(Result<ProcessOutcome, Failure>),
    Woke,
}

/// A `SyncAction` as contracts speak of it.
pub enum Step {
    Run { create_directory: bool, command: Seq<Seq<char>> },
    Sleep { level: LogLevel, stdout: Seq<u8>, stderr: Seq<u8>, seconds: u64 },
    Stop(Failure),
    Wait,
}

impl View for SyncEvent {
    type V = Happened;

    open spec fn view(&self) -> Happened {
        match *self {
            SyncEvent::Checked { exists } => Happened::Checked { exists },
            SyncEvent::Ran(Ok(result)) => Happened::Ran(Ok(result@)),
            SyncEvent::Ran(Err(e)) => Happened::Ran(Err(e@)),
            SyncEvent::Woke => Happened::Woke,
        }
    }
}

/// The words of a command, as text.
pub open spec fn texts(command: Seq<String>) -> Seq<Seq<char>> {
    command.map_values(|w: String| w@)
}

impl View for SyncAction {
    type V = Step;

    open spec fn view(&self) -> Step {
        match *self {
            SyncAction::Run { create_directory, command } => Step::Run {
                create_directory,
                command: texts(command@),
            },
            SyncAction::Sleep { level, stdout, stderr, seconds } => Step::Sleep {
                level,
                stdout: stdout@,
                stderr: stderr@,
                seconds,
            },
            SyncAction::Stop(e) => Step::Stop(e@),
            SyncAction::Wait => Step::Wait,
        }
    }
}

/// `git pull --ff-only`.
pub open spec fn pull_command() -> Seq<Seq<char>> {
    seq!["git"@, "pull"@, "--ff-only"@]
}

/// `git clone <remote> .`.
pub open spec fn clone_command(remote: Seq<char>) -> Seq<Seq<char>> {
    seq!["git"@, "clone"@, remote, "."@]
}

/// The pull that starts a round.
pub open spec fn pull_step() -> Step {
    Step::Run { create_directory: false, command: pull_command() }
}

/// What ends a round: the report of the pull, and the pause. A pull that
/// ran and succeeded is reported as information, every other as an error;
/// a pull that could not be started is reported by the message of its
/// error.
pub open spec fn report_step(run: Result<ProcessOutcome, Failure>, seconds: u64) -> Step {
    match run {
        Ok(out) => Step::Sleep {
            level: if out.success {
                LogLevel::Info
            } else {
                LogLevel::Error
            },
            stdout: out.stdout,
            stderr: out.stderr,
            seconds,
        },
        Err(e) => Step::Sleep {
            level: LogLevel::Error,
            stdout: Seq::empty(),
            stderr: encode_utf8(e.message),
            seconds,
        },
    }
}

/// The state after an event, and the action that the event calls for.
///
/// A missing repository is cloned first, and a clone that fails stops the
/// loop for good. After that a pull follows at once, every pull is
/// followed by a pause whether it succeeded or not, and every pause by the
/// next pull. An event that the state does not wait for changes nothing.
pub open spec fn next(remote: Seq<char>, seconds: u64, state: SyncState, event: Happened) -> (
    SyncState,
    Step,
) {
    match (state, event) {
        (SyncState::Starting, Happened::Checked { exists }) => if exists {
            (SyncState::Pulling, pull_step())
        } else {
            (
                SyncState::Cloning,
                Step::Run { create_directory: true, command: clone_command(remote) },
            )
        },
        (SyncState::Cloning, Happened::Ran(Ok(out))) => if out.success {
            (SyncState::Pulling, pull_step())
        } else {
            (SyncState::Stopped, Step::Stop(tool_failure_of("git clone"@, out.stderr)))
        },
        (SyncState::Cloning, Happened::Ran(Err(e))) => (SyncState::Stopped, Step::Stop(e)),
        (SyncState::Pulling, Happened::Ran(run)) => (
            SyncState::Sleeping,
            report_step(run, seconds),
        ),
        (SyncState::Sleeping, Happened::Woke) => (SyncState::Pulling, pull_step()),
        _ => (state, Step::Wait),
    }
}

/// The loop that keeps the repository in step with `remote`.
pub struct SyncDaemon {
    pub remote: String,
    pub interval_secs: u64,
}

fn owned(command: Vec<&str>) -> (r: Vec<String>)
    ensures
        texts(r@) == words(command@),
{
    let mut r: Vec<String> = Vec::new();
    let mut i: usize = 0;
    while i < command.len()
        invariant
            0 <= i <= command@.len(),
            r@.len() == i,
            forall|k: int| 0 <= k < i ==> (#[trigger] r@[k])@ == command@[k]@,
        decreases command@.len() - i,
    {
        let word: &str = command[i];
        r.push(word.to_owned());
        i += 1;
    }
    assert(texts(r@) =~= words(command@));
    r
}

impl SyncDaemon {
    /// A daemon for `remote` that pauses for the default interval.
    pub fn new(remote: String) -> (r: Self)
        ensures
            r.remote == remote,
            r.interval_secs == DEFAULT_PULL_INTERVAL_SECS,
    {
        SyncDaemon { remote, interval_secs: DEFAULT_PULL_INTERVAL_SECS }
    }

    /// The state in which the loop begins. Its first action is to look
    /// whether the repository path exists, and to report with `Checked`.
    pub fn start() -> (s: SyncState)
        ensures
            s == SyncState::Starting,
    {
        SyncState::Starting
    }

    fn pull_action() -> (a: SyncAction)
        ensures
            a@ == pull_step(),
    {
        SyncAction::Run { create_directory: false, command: owned(Cmd::pull()) }
    }

    fn report(&self, run: Result<ProcessResult, ResponseStatus>) -> (a: SyncAction)
        ensures
            a@ == report_step(
                match run {
                    Ok(result) => Ok(result@),
                    Err(e) => Err(e@),
                },
                self.interval_secs,
            ),
    {
        match run {
            Ok(result) => SyncAction::Sleep {
                level: if result.success {
                    LogLevel::Info
                } else {
                    LogLevel::Error
                },
                stdout: result.stdout,
                stderr: result.stderr,
                seconds: self.interval_secs,
            },
            Err(e) => SyncAction::Sleep {
                level: LogLevel::Error,
                stdout: Vec::new(),
                stderr: e.message.as_str().as_bytes_vec(),
                seconds: self.interval_secs,
            },
        }
    }

    /// What comes after `event` in `state`.
    pub fn step(&self, state: SyncState, event: SyncEvent) -> (r: (SyncState, SyncAction))
        ensures
            (r.0, r.1@) == next(self.remote@, self.interval_secs, state, event@),
    {
        match (state, event) {
            (SyncState::Starting, SyncEvent::Checked { exists }) => {
                if exists {
                    (SyncState::Pulling, SyncDaemon::pull_action())
                } else {
                    let command = owned(Cmd::clone_from(self.remote.as_str()));
                    (SyncState::Cloning, SyncAction::Run { create_directory: true, command })
                }
            },
            (SyncState::Cloning, SyncEvent::Ran(Ok(result))) => {
                if result.success {
                    (SyncState::Pulling, SyncDaemon::pull_action())
                } else {
                    (
                        SyncState::Stopped,
                        SyncAction::Stop(Cmd::tool_failure("git clone", result.stderr.as_slice())),
                    )
                }
            },
            (SyncState::Cloning, SyncEvent::Ran(Err(e))) => (
                SyncState::Stopped,
                SyncAction::Stop(e),
            ),
            (SyncState::Pulling, SyncEvent::Ran(run)) => (SyncState::Sleeping, self.report(run)),
            (SyncState::Sleeping, SyncEvent::Woke) => (
                SyncState::Pulling,
                SyncDaemon::pull_action(),
            ),
            (state, _) => (state, SyncAction::Wait),
        }
    }
}

/// A pull never stops the loop: whatever came of it, a pause follows.
pub proof fn lemma_pull_is_never_fatal(
    remote: Seq<char>,
    seconds: u64,
    run: Result<ProcessOutcome, Failure>,
)
    ensures
        next(remote, seconds, SyncState::Pulling, Happened::Ran(run)).0 == SyncState::Sleeping,
        next(remote, seconds, SyncState::Pulling, Happened::Ran(run)).1 is Sleep,
        next(remote, seconds, SyncState::Pulling, Happened::Ran(run)).1->Sleep_seconds == seconds,
{
}

/// The loop sleeps only after a pull: never before the first one.
pub proof fn lemma_sleep_follows_a_pull(
    remote: Seq<char>,
    seconds: u64,
    state: SyncState,
    event: Happened,
)
    requires
        next(remote, seconds, state, event).1 is Sleep,
    ensures
        state == SyncState::Pulling,
        event is Ran,
{
}

/// The loop stops only where the first clone failed.
pub proof fn lemma_only_a_failed_clone_stops(
    remote: Seq<char>,
    seconds: u64,
    state: SyncState,
    event: Happened,
)
    requires
        state != SyncState::Stopped,
    ensures
        next(remote, seconds, state, event).0 == SyncState::Stopped <==> state
            == SyncState::Cloning && (event matches Happened::Ran(run) && !(run matches Ok(out)
            && out.success)),
{
}

} // verus!
