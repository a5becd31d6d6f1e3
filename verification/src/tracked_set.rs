//! The paths that git tracks, as one listing of the index reports them.

use crate::cmd::{tool_failure_of, Cmd};
use crate::response_status::{Failure, ResponseStatus};
use crate::text::{bytes_eq, utf8_text};
use vstd::prelude::*;
use vstd::utf8::{encode_utf8, valid_utf8};

verus! {

/// The lines of a text: what stands between its newlines. A text with `k`
/// newlines has `k + 1` lines, the last one empty where the text ends in a
/// newline.
pub open spec fn lines_of(text: Seq<u8>) -> Seq<Seq<u8>>
    decreases text.len(),
{
    if text.len() == 0 {
        seq![Seq::<u8>::empty()]
    } else {
        let before = lines_of(text.drop_last());
        if text.last() == 10u8 {
            before.push(Seq::<u8>::empty())
        } else {
            before.drop_last().push(before.last().push(text.last()))
        }
    }
}

/// The paths that a listing of the index names: its lines but the empty
/// ones. Output that is no text names nothing.
pub open spec fn tracked_paths(stdout: Seq<u8>) -> Set<Seq<char>> {
    if valid_utf8(stdout) {
        Set::new(|p: Seq<char>| p.len() > 0 && lines_of(stdout).contains(encode_utf8(p)))
    } else {
        Set::empty()
    }
}

/// The error for a listing of the index that exited with failure: it
/// carries what the tool wrote to its error output.
pub open spec fn ls_files_failure(stderr: Seq<u8>) -> Failure {
    tool_failure_of("git ls-files"@, stderr)
}

/// The lines with a newline between each two: the text they were cut from.
pub open spec fn unlines(lines: Seq<Seq<u8>>) -> Seq<u8>
    decreases lines.len(),
{
    if lines.len() == 0 {
        Seq::empty()
    } else if lines.len() == 1 {
        lines[0]
    } else {
        unlines(lines.drop_last()) + seq![10u8] + lines.last()
    }
}

/// Cutting a text into lines loses nothing and leaves no newline behind:
/// there is a line, no line holds a newline, and the lines with newlines
/// between them are the text again.
pub proof fn lemma_lines_of(text: Seq<u8>)
    ensures
        lines_of(text).len() > 0,
        forall|i: int, k: int|
            0 <= i < lines_of(text).len() && 0 <= k < lines_of(text)[i].len() ==> #[trigger] lines_of(
                text,
            )[i][k] != 10u8,
        unlines(lines_of(text)) == text,
    decreases text.len(),
{
    if text.len() == 0 {
        assert(unlines(lines_of(text)) =~= text);
    } else {
        let before = lines_of(text.drop_last());
        let lines = lines_of(text);
        lemma_lines_of(text.drop_last());
        if text.last() == 10u8 {
            assert(lines.drop_last() =~= before);
            assert(unlines(lines) =~= text);
        } else {
            let line = before.last().push(text.last());
            assert(lines.last() == line);
            assert(lines.drop_last() =~= before.drop_last());
            if before.len() == 1 {
                assert(unlines(lines) =~= text);
            } else {
                assert(unlines(lines) =~= unlines(before.drop_last()) + seq![10u8] + line);
                assert(unlines(before) =~= unlines(before.drop_last()) + seq![10u8]
                    + before.last());
                assert(unlines(lines) =~= unlines(before).push(text.last()));
                assert(unlines(lines) =~= text);
            }
        }
        assert forall|i: int, k: int|
            0 <= i < lines.len() && 0 <= k < lines[i].len() implies #[trigger] lines[i][k]
            != 10u8 by {
            if i < lines.len() - 1 {
                assert(lines[i] == before[i]);
            } else if text.last() != 10u8 {
                if k < before.last().len() {
                    assert(lines[i][k] == before.last()[k]);
                }
            }
        }
    }
}

/// The set of tracked paths, fixed for the request it was listed for.
pub struct TrackedSet {
    lines: Vec<Vec<u8>>,
}

spec fn line_views(lines: Seq<Vec<u8>>) -> Seq<Seq<u8>> {
    lines.map_values(|l: Vec<u8>| l@)
}

impl View for TrackedSet {
    type V = Set<Seq<char>>;

    closed spec fn view(&self) -> Set<Seq<char>> {
        Set::new(
            |p: Seq<char>| p.len() > 0 && line_views(self.lines@).contains(encode_utf8(p)),
        )
    }
}

impl TrackedSet {
    /// The set that tracks nothing.
    pub fn empty() -> (r: Self)
        ensures
            r@ == Set::<Seq<char>>::empty(),
    {
        let r = TrackedSet { lines: Vec::new() };
        assert(r@ =~= Set::<Seq<char>>::empty());
        r
    }

    /// The paths named by the output of a listing of the index.
    pub fn parse(stdout: &[u8]) -> (r: Self)
        ensures
            r@ == tracked_paths(stdout@),
    {
        if utf8_text(stdout).is_none() {
            return TrackedSet::empty();
        }
        let mut done: Vec<Vec<u8>> = Vec::new();
        let mut current: Vec<u8> = Vec::new();
        let mut i: usize = 0;
        while i < stdout.len()
            invariant
                0 <= i <= stdout@.len(),
                line_views(done@).push(current@) == lines_of(stdout@.take(i as int)),
            decreases stdout@.len() - i,
        {
            let byte = stdout[i];
            proof {
                let next = stdout@.take(i + 1);
                assert(next.drop_last() == stdout@.take(i as int));
                assert(next.last() == byte);
            }
            if byte == 10u8 {
                let ghost before = line_views(done@);
                let ghost line = current@;
                done.push(current);
                current = Vec::new();
                assert(line_views(done@) =~= before.push(line));
            } else {
                let ghost before = line_views(done@).push(current@);
                current.push(byte);
                assert(before.drop_last() =~= line_views(done@));
            }
            i += 1;
        }
        let ghost before = line_views(done@);
        let ghost line = current@;
        done.push(current);
        assert(line_views(done@) =~= before.push(line));
        assert(stdout@.take(i as int) == stdout@);
        let r = TrackedSet { lines: done };
        assert(r@ =~= tracked_paths(stdout@));
        r
    }

    /// The answer to a listing of the index that has run: the tracked set
    /// where it exited with success, and else the error that carries its
    /// error output.
    pub fn from_output(success: bool, stdout: &[u8], stderr: &[u8]) -> (r: Result<
        Self,
        ResponseStatus,
    >)
        ensures
            match r {
                Ok(listed) => success && listed@ == tracked_paths(stdout@),
                Err(e) => !success && e@ == ls_files_failure(stderr@),
            },
    {
        if success {
            Ok(TrackedSet::parse(stdout))
        } else {
            Err(Cmd::tool_failure("git ls-files", stderr))
        }
    }

    /// Whether `path` is tracked.
    pub fn contains(&self, path: &str) -> (r: bool)
        ensures
            r == self@.contains(path@),
    {
        if path.is_empty() {
            return false;
        }
        let wanted = path.as_bytes();
        let mut i: usize = 0;
        while i < self.lines.len()
            invariant
                0 <= i <= self.lines@.len(),
                wanted@ == encode_utf8(path@),
                path@.len() > 0,
                forall|k: int| 0 <= k < i ==> line_views(self.lines@)[k] != wanted@,
            decreases self.lines@.len() - i,
        {
            if bytes_eq(self.lines[i].as_slice(), wanted) {
                assert(line_views(self.lines@)[i as int] == wanted@);
                return true;
            }
            i += 1;
        }
        false
    }
}

} // verus!
