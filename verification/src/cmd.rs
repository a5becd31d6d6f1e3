//! The commands that are ever run, and what is said when one cannot start.
//!
//! A command is a program and its arguments, word by word: no shell reads
//! it, so no word is ever split or expanded.

use crate::response_status::{ErrorKind, Failure, ResponseStatus};
use crate::text::decode_text;
use vstd::prelude::*;
use vstd::utf8::{decode_utf8, valid_utf8};

verus! {

/// Where commands are run: the working directory of each.
#[derive(Clone, Debug)]
pub struct Cmd {
    pub cwd: String,
}

/// The words of a command, as text.
pub open spec fn words(cmd: Seq<&str>) -> Seq<Seq<char>> {
    cmd.map_values(|w: &str| w@)
}

/// The words with `sep` between each two.
pub open spec fn joined(parts: Seq<Seq<char>>, sep: Seq<char>) -> Seq<char>
    decreases parts.len(),
{
    if parts.len() == 0 {
        Seq::empty()
    } else if parts.len() == 1 {
        parts[0]
    } else {
        joined(parts.drop_last(), sep) + sep + parts.last()
    }
}

/// The message for a program that could not be started: the program and
/// its arguments, each in quotes, and the reason.
pub open spec fn launch_failure_message(
    program: Seq<char>,
    args: Seq<Seq<char>>,
    error: Seq<char>,
) -> Seq<char> {
    "Failed to execute `'"@ + program + "' '"@ + joined(args, "' '"@) + "'`: "@ + error
}

/// What stands for the error output of a program where that is no text.
pub open spec fn unreadable_stderr() -> Seq<char> {
    "Error message not available due to non-UTF8 characters"@
}

/// The error for a program that ran and exited with failure: it names the
/// command and carries what the program wrote to its error output.
pub open spec fn tool_failure_of(what: Seq<char>, stderr: Seq<u8>) -> Failure {
    Failure {
        kind: ErrorKind::ExternalTool,
        message: "Failed to execute '"@ + what + "' due to: "@ + (if valid_utf8(stderr) {
            decode_utf8(stderr)
        } else {
            unreadable_stderr()
        }),
    }
}

impl Cmd {
    /// The error for the command `what`, which ran and exited with failure.
    pub fn tool_failure(what: &str, stderr: &[u8]) -> (r: ResponseStatus)
        ensures
            r@ == tool_failure_of(what@, stderr@),
    {
        let reason = match decode_text(stderr) {
            Some(text) => text,
            None => "Error message not available due to non-UTF8 characters".to_string(),
        };
        let message = "Failed to execute '".to_string().concat(what).concat("' due to: ").concat(
            reason.as_str(),
        );
        ResponseStatus::new(ErrorKind::ExternalTool, message)
    }

    /// The command that lists what git tracks.
    pub fn ls_files() -> (cmd: Vec<&'static str>)
        ensures
            words(cmd@) == seq!["git"@, "ls-files"@],
    {
        let cmd: Vec<&'static str> = vec!["git", "ls-files"];
        assert(words(cmd@) =~= seq!["git"@, "ls-files"@]);
        cmd
    }

    /// The command that brings the repository up to date, and only where
    /// that takes no merge.
    pub fn pull() -> (cmd: Vec<&'static str>)
        ensures
            words(cmd@) == seq!["git"@, "pull"@, "--ff-only"@],
    {
        let cmd: Vec<&'static str> = vec!["git", "pull", "--ff-only"];
        assert(words(cmd@) =~= seq!["git"@, "pull"@, "--ff-only"@]);
        cmd
    }

    /// The command that clones `remote` into the working directory.
    pub fn clone_from<'a>(remote: &'a str) -> (cmd: Vec<&'a str>)
        ensures
            words(cmd@) == seq!["git"@, "clone"@, remote@, "."@],
    {
        let cmd: Vec<&'a str> = vec!["git", "clone", remote, "."];
        assert(words(cmd@) =~= seq!["git"@, "clone"@, remote@, "."@]);
        cmd
    }

    /// The program of a command and its arguments. A command without a
    /// single word cannot be started.
    pub fn split_command<'a>(cmd: &Vec<&'a str>) -> (r: Result<
        (&'a str, Vec<&'a str>),
        ResponseStatus,
    >)
        ensures
            match r {
                Ok((program, args)) => cmd@.len() > 0 && program@ == cmd@[0]@ && args@
                    == cmd@.skip(1),
                Err(e) => cmd@.len() == 0 && e@ == (Failure {
                    kind: ErrorKind::ProcessLaunch,
                    message: Seq::empty(),
                }),
            },
    {
        if cmd.len() == 0 {
            return Err(ResponseStatus::new(ErrorKind::ProcessLaunch, String::new()));
        }
        let mut args: Vec<&'a str> = Vec::new();
        let mut i: usize = 1;
        while i < cmd.len()
            invariant
                1 <= i <= cmd@.len(),
                args@ == cmd@.subrange(1, i as int),
            decreases cmd@.len() - i,
        {
            args.push(cmd[i]);
            assert(args@ =~= cmd@.subrange(1, i + 1));
            i += 1;
        }
        assert(args@ =~= cmd@.skip(1));
        Ok((cmd[0], args))
    }

    /// The error for a program that could not be started.
    pub fn launch_failure(program: &str, args: &Vec<&str>, error: &str) -> (r: ResponseStatus)
        ensures
            r@ == (Failure {
                kind: ErrorKind::ProcessLaunch,
                message: launch_failure_message(program@, words(args@), error@),
            }),
    {
        let mut all = String::new();
        let mut i: usize = 0;
        while i < args.len()
            invariant
                0 <= i <= args@.len(),
                all@ == joined(words(args@).take(i as int), "' '"@),
            decreases args@.len() - i,
        {
            proof {
                let next = words(args@).take(i + 1);
                assert(next.drop_last() =~= words(args@).take(i as int));
                assert(next.last() == args@[i as int]@);
            }
            if i > 0 {
                all = all.concat("' '");
            }
            all = all.concat(args[i]);
            i += 1;
        }
        assert(words(args@).take(i as int) =~= words(args@));
        let message = "Failed to execute `'".to_string().concat(program).concat("' '").concat(
            all.as_str(),
        ).concat("'`: ").concat(error);
        ResponseStatus::new(ErrorKind::ProcessLaunch, message)
    }
}

} // verus!
