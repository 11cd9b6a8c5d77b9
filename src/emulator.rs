//! One interpreter session: its directory and history, and how a line
//! becomes a plan.
use vstd::prelude::*;
use vstd::string::*;

use crate::command::{
    cd_of, echo_of, list_job_of, output_split, output_split_of, plain_job, plain_job_of,
    Job, JobModel, ShellError, Target, cd_target, echo_result, list_job, result_view,
};
use crate::history::{join_lines, recorded, History};
use crate::path::{join, join_path};
use crate::sort::{sort_text, sorted_text};
use crate::text::{
    chars_of, count_char, count_of, ends_with, text_of, trim, trim_bounds,
};

verus! {

/// What a command line comes to: the job, and where its result goes when it
/// is redirected to a file.
pub struct Plan {
    pub job: Job,
    pub target: Option<Target>,
}

impl Plan {
    pub open spec fn target_view(&self) -> Option<(Seq<char>, bool)> {
        match self.target {
            Some(t) => Some((t.path@, t.append)),
            None => None,
        }
    }
}

/// What the host found at a path.
#[derive(Clone, Copy, Debug, PartialEq, Eq, Structural)]
pub enum PathKind {
    Missing,
    Directory,
    Other,
}

/// The history after `line`, what `line` asks for, and the file its result
/// goes to, if any, with whether it is appended to.
pub open spec fn outcome(cwd: Seq<char>, h: Seq<Seq<char>>, line: Seq<char>) -> (
    Seq<Seq<char>>,
    JobModel,
    Option<(Seq<char>, bool)>,
) {
    let h1 = recorded(h, line);
    let t = trim(line);
    if count_of(t, '>') == 0 {
        (h1, plain_job(cwd, h1, t), None)
    } else {
        match output_split(t) {
            None => (h1, JobModel::Finished(Err(ShellError::OutputUsage)), None),
            Some((op, file, append)) => {
                let h2 = recorded(h1, op);
                let j = plain_job(cwd, h2, op);
                match j {
                    JobModel::Exit => (h2, j, None),
                    JobModel::Finished(Err(_)) => (h2, j, None),
                    _ => (h2, j, Some((join_path(cwd, file), append))),
                }
            },
        }
    }
}

/// For a line that ends in `" &"`: the command to run in the background.
pub open spec fn background_of(line: Seq<char>) -> Option<Seq<char>> {
    if ends_with(trim(line), seq![' ', '&']) {
        Some(trim(line).subrange(0, trim(line).len() - 2))
    } else {
        None
    }
}

/// The current directory after `cd` to `target`, where the host found `kind`.
pub open spec fn cd_effect(cwd: Seq<char>, target: Seq<char>, kind: PathKind) -> Seq<char> {
    if kind == PathKind::Directory {
        target
    } else {
        cwd
    }
}

/// What a file holds after a redirection of `result` to it, where it held `before`.
pub open spec fn written(before: Seq<char>, result: Seq<char>, append: bool) -> Seq<char> {
    if append {
        before + result.push('\n')
    } else {
        result.push('\n')
    }
}

/// The state of one interpreter: its current directory and its history.
pub struct Emulator {
    pub path: String,
    pub history: History,
}

impl Emulator {
    pub open spec fn wf(&self) -> bool {
        self.history.wf()
    }

    /// A new interpreter in directory `path`, with an empty history.
    pub fn new(path: String) -> (r: Emulator)
        ensures
            r.wf(),
            r.path == path,
            r.history@ == Seq::<Seq<char>>::empty(),
    {
        Emulator { path, history: History::new() }
    }

    /// An independent copy, for a job that runs in the background.
    pub fn clone(&self) -> (r: Emulator)
        requires
            self.wf(),
        ensures
            r.wf(),
            r.path@ == self.path@,
            r.history@ == self.history@,
    {
        Emulator { path: String::from_str(self.path.as_str()), history: self.history.duplicate() }
    }

    /// Keeps `command` in the history, trimmed, unless it is blank.
    pub fn record_history(&mut self, command: &str)
        requires
            old(self).wf(),
        ensures
            final(self).wf(),
            final(self).path == old(self).path,
            final(self).history@ == recorded(old(self).history@, command@),
    {
        self.history.record(command);
    }

    /// The history, oldest first, one command per line.
    pub fn history(&self) -> (r: Result<String, ShellError>)
        ensures
            result_view(r) == Ok::<Seq<char>, ShellError>(join_lines(self.history@)),
    {
        Ok(self.history.render())
    }

    /// `echo <text>`: the text as it stands; `echo` alone: empty.
    pub fn echo(&self, command: &str) -> (r: Result<String, ShellError>)
        ensures
            result_view(r) == echo_result(trim(command@)),
    {
        let v = chars_of(command);
        let (lo, hi) = trim_bounds(&v);
        echo_of(command, &v, lo, hi)
    }

    /// `ls` or `ls -l`: whether the listing is the long one.
    pub fn list_directory(&self, command: &str) -> (r: Result<bool, ShellError>)
        ensures
            match list_job(trim(command@)) {
                JobModel::List(long) => r == Ok::<bool, ShellError>(long),
                _ => r == Err::<bool, ShellError>(ShellError::ListUsage),
            },
    {
        let v = chars_of(command);
        let (lo, hi) = trim_bounds(&v);
        match list_job_of(&v, lo, hi) {
            Job::List { long } => Ok(long),
            _ => Err(ShellError::ListUsage),
        }
    }

    /// `cd <dir>`: the path of the directory it names.
    pub fn change_directory_target(&self, command: &str) -> (r: Result<String, ShellError>)
        ensures
            result_view(r) == cd_target(self.path@, trim(command@)),
    {
        let v = chars_of(command);
        let (lo, hi) = trim_bounds(&v);
        cd_of(self.path.as_str(), command, &v, lo, hi)
    }

    /// Moves to `path` if the host found a directory there.
    pub fn change_directory(&mut self, path: String, kind: PathKind) -> (r: Result<
        String,
        ShellError,
    >)
        ensures
            final(self).history == old(self).history,
            final(self).path@ == cd_effect(old(self).path@, path@, kind),
            kind == PathKind::Directory ==> final(self).path == path && r is Ok && r->Ok_0@
                == Seq::<char>::empty(),
            kind == PathKind::Missing ==> final(self).path == old(self).path && r
                == Err::<String, ShellError>(ShellError::PathMissing),
            kind == PathKind::Other ==> final(self).path == old(self).path && r
                == Err::<String, ShellError>(ShellError::NotADirectory),
    {
        match kind {
            PathKind::Missing => Err(ShellError::PathMissing),
            PathKind::Other => Err(ShellError::NotADirectory),
            PathKind::Directory => {
                self.path = path;
                Ok(String::new())
            },
        }
    }

    /// Reads `command` and records it: what it asks for, and where its
    /// result goes.
    pub fn process_command(&mut self, command: &str) -> (r: Plan)
        requires
            old(self).wf(),
        ensures
            final(self).wf(),
            final(self).path == old(self).path,
            (final(self).history@, r.job@, r.target_view()) == outcome(
                old(self).path@,
                old(self).history@,
                command@,
            ),
    {
        self.history.record(command);
        let v = chars_of(command);
        let (lo, hi) = trim_bounds(&v);
        if count_char(&v, lo, hi, '>') == 0 {
            let job = plain_job_of(self.path.as_str(), &self.history, command, &v, lo, hi);
            return Plan { job, target: None };
        }
        match output_split_of(&v, lo, hi) {
            None => Plan { job: Job::Finished(Err(ShellError::OutputUsage)), target: None },
            Some(sp) => {
                let op = text_of(command, sp.op_lo, sp.op_hi);
                let file = text_of(command, sp.file_lo, sp.file_hi);
                self.history.record(op.as_str());
                let ov = chars_of(op.as_str());
                assert(ov@.subrange(0, ov@.len() as int) =~= ov@);
                let job = plain_job_of(
                    self.path.as_str(),
                    &self.history,
                    op.as_str(),
                    &ov,
                    0,
                    ov.len(),
                );
                match job {
                    Job::Exit => Plan { job, target: None },
                    Job::Finished(Err(e)) => Plan { job: Job::Finished(Err(e)), target: None },
                    _ => {
                        let path = join(self.path.as_str(), file.as_str());
                        Plan { job, target: Some(Target { path, append: sp.append }) }
                    },
                }
            },
        }
    }

    /// `sort < file` on the text of the file: its lines in order.
    pub fn process_sort_command(&self, buffer: &str) -> (r: Result<String, ShellError>)
        ensures
            result_view(r) == Ok::<Seq<char>, ShellError>(sorted_text(buffer@)),
    {
        Ok(sort_text(buffer))
    }

    /// The result of `<operation> < file`, given the text of the file.
    pub fn input_result(&self, sort: bool, contents: &str) -> (r: Result<String, ShellError>)
        ensures
            sort ==> result_view(r) == Ok::<Seq<char>, ShellError>(sorted_text(contents@)),
            !sort ==> r == Err::<String, ShellError>(ShellError::CommandNotFound),
    {
        if sort {
            self.process_sort_command(contents)
        } else {
            Err(ShellError::CommandNotFound)
        }
    }

    /// Whether `rm` (or, with `directory`, `rmdir`) may go on with what the
    /// host found at the path.
    pub fn removal_check(kind: PathKind, directory: bool) -> (r: Result<(), ShellError>)
        ensures
            kind == PathKind::Missing ==> r == Err::<(), ShellError>(ShellError::OpenFailed),
            kind == PathKind::Directory && !directory ==> r == Err::<(), ShellError>(
                ShellError::IsADirectory,
            ),
            kind != PathKind::Missing && (kind != PathKind::Directory || directory) ==> r is Ok,
    {
        match kind {
            PathKind::Missing => Err(ShellError::OpenFailed),
            PathKind::Directory => if directory {
                Ok(())
            } else {
                Err(ShellError::IsADirectory)
            },
            PathKind::Other => Ok(()),
        }
    }

    /// What a redirection writes to its file: the result and a newline.
    pub fn redirect_payload(result: &str) -> (r: String)
        ensures
            r@ == result@.push('\n'),
    {
        let mut r = String::from_str(result);
        proof {
            reveal_strlit("\n");
        }
        r.append("\n");
        r
    }

    /// The text written to the terminal for `output`.
    pub fn print_to_stdout(output: &str, new_line: bool) -> (r: String)
        ensures
            new_line ==> r@ == output@.push('\n'),
            !new_line ==> r@ == output@,
    {
        if new_line {
            Self::redirect_payload(output)
        } else {
            String::from_str(output)
        }
    }

    /// The prompt.
    pub fn print_prompt() -> (r: String)
        ensures
            r@ == seq!['$', ' '],
    {
        proof {
            reveal_strlit("$ ");
        }
        String::from_str("$ ")
    }

    /// For a line that ends in `" &"`, the command to run in the background:
    /// the trimmed line without that one marker.
    pub fn background_command(line: &str) -> (r: Option<String>)
        ensures
            match background_of(line@) {
                Some(c) => r is Some && r->Some_0@ == c,
                None => r is None,
            },
    {
        let v = chars_of(line);
        let (lo, hi) = trim_bounds(&v);
        let ghost t = v@.subrange(lo as int, hi as int);
        if !(hi - lo >= 2 && v[hi - 2] == ' ' && v[hi - 1] == '&') {
            assert(!ends_with(t, seq![' ', '&'])) by {
                if ends_with(t, seq![' ', '&']) {
                    assert(t.subrange(t.len() - 2, t.len() as int)[0] == ' ');
                    assert(t.subrange(t.len() - 2, t.len() as int)[1] == '&');
                }
            }
            return None;
        }
        assert(t.subrange(t.len() - 2, t.len() as int) =~= seq![' ', '&']);
        let r = text_of(line, lo, hi - 2);
        assert(r@ =~= t.subrange(0, t.len() - 2));
        Some(r)
    }
}

} // verus!
