//! Reading a command line: errors, the jobs a line can ask for, and the
//! rules that decide which.
use vstd::prelude::*;

use crate::history::{join_lines, History};
use crate::path::{join, join_path};
use crate::text::{
    count_char, count_of, find_char, first_index, has_prefix, is_word,
    lemma_first_index, starts_with, text_of, trim, trim_range,
};

verus! {

/// Why a command failed.
#[derive(Clone, Copy, Debug, PartialEq, Eq, Structural)]
pub enum ShellError {
    CommandNotFound,
    InputUsage,
    OutputUsage,
    ListUsage,
    EchoUsage,
    ChangeDirectoryUsage,
    PathMissing,
    NotADirectory,
    SleepUsage,
    SleepDuration,
    CatUsage,
    RemoveUsage,
    IsADirectory,
    OpenFailed,
    ReadFailed,
    WriteFailed,
    RemoveFailed,
    TimestampOutOfRange,
}

impl ShellError {
    /// The text shown to the user.
    pub fn message(&self) -> &'static str {
        match self {
            ShellError::CommandNotFound => "mini-shell: command not found",
            ShellError::InputUsage => "Invalid command. Correct usage `command < file`",
            ShellError::OutputUsage => "Invalid command. Correct usage `command > file` OR `command >> file`",
            ShellError::ListUsage => "Invalid ls command. Only `ls` and `ls -l` are supported",
            ShellError::EchoUsage => "Invalid echo command. Correct usage: `echo <message>`",
            ShellError::ChangeDirectoryUsage => "correct usage: `cd <directory>`",
            ShellError::PathMissing => "Path does not exist",
            ShellError::NotADirectory => "Path is not a directory",
            ShellError::SleepUsage => "correct usage: `sleep <duration>`",
            ShellError::SleepDuration => "sleep duration should be a positive integer",
            ShellError::CatUsage => "correct usage: `cat <file>`",
            ShellError::RemoveUsage => "correct usage: `rm <file> OR rmdir <directory>`",
            ShellError::IsADirectory => "rm: cannot remove directory. Use `rmdir` instead",
            ShellError::OpenFailed => "Failed to open file",
            ShellError::ReadFailed => "Failed to read from file",
            ShellError::WriteFailed => "Failed to write to file",
            ShellError::RemoveFailed => "Failed to remove",
            ShellError::TimestampOutOfRange => "Error while formatting SystemTime to DateTime<Utc>",
        }
    }
}

pub open spec fn lit_exit() -> Seq<char> { seq!['e', 'x', 'i', 't'] }
pub open spec fn lit_history() -> Seq<char> { seq!['h', 'i', 's', 't', 'o', 'r', 'y'] }
pub open spec fn lit_pwd() -> Seq<char> { seq!['p', 'w', 'd'] }
pub open spec fn lit_ls() -> Seq<char> { seq!['l', 's'] }
pub open spec fn lit_ls_long() -> Seq<char> { seq!['l', 's', ' ', '-', 'l'] }
pub open spec fn lit_echo() -> Seq<char> { seq!['e', 'c', 'h', 'o'] }
pub open spec fn lit_cd() -> Seq<char> { seq!['c', 'd'] }
pub open spec fn lit_sleep() -> Seq<char> { seq!['s', 'l', 'e', 'e', 'p'] }
pub open spec fn lit_cat() -> Seq<char> { seq!['c', 'a', 't'] }
pub open spec fn lit_rmdir() -> Seq<char> { seq!['r', 'm', 'd', 'i', 'r'] }
pub open spec fn lit_rm() -> Seq<char> { seq!['r', 'm'] }
pub open spec fn lit_sort() -> Seq<char> { seq!['s', 'o', 'r', 't'] }

/// `verb` followed by a space.
pub open spec fn spaced(verb: Seq<char>) -> Seq<char> {
    verb.push(' ')
}

/// What follows `verb` and its space in `t`.
pub open spec fn operand(t: Seq<char>, verb: Seq<char>) -> Seq<char> {
    t.subrange(verb.len() + 1 as int, t.len() as int)
}

/// What a command asks for, over plain values.
pub enum JobModel {
    Exit,
    Finished(Result<Seq<char>, ShellError>),
    List(bool),
    ChangeDirectory(Seq<char>),
    Sleep(u64),
    ReadFile(Seq<char>),
    Remove(Seq<char>, bool),
    Input(Seq<char>, bool),
}

/// What a command asks of its host, or its result where it needs nothing.
pub enum Job {
    /// The process ends.
    Exit,
    /// The result is known.
    Finished(Result<String, ShellError>),
    /// The current directory is listed, in long form or not.
    List { long: bool },
    /// The current directory becomes `path`, if that is a directory.
    ChangeDirectory { path: String },
    /// The caller waits `seconds` seconds; the result is empty.
    Sleep { seconds: u64 },
    /// The result is what the file at `path` holds.
    ReadFile { path: String },
    /// The file, or with `directory` the empty directory, at `path` is removed.
    Remove { path: String, directory: bool },
    /// The file at `path` is read; with `sort` its lines come back sorted,
    /// else the command is unknown.
    Input { path: String, sort: bool },
}

pub open spec fn result_view(r: Result<String, ShellError>) -> Result<Seq<char>, ShellError> {
    match r {
        Ok(s) => Ok(s@),
        Err(e) => Err(e),
    }
}

impl View for Job {
    type V = JobModel;

    open spec fn view(&self) -> JobModel {
        match self {
            Job::Exit => JobModel::Exit,
            Job::Finished(r) => JobModel::Finished(result_view(*r)),
            Job::List { long } => JobModel::List(*long),
            Job::ChangeDirectory { path } => JobModel::ChangeDirectory(path@),
            Job::Sleep { seconds } => JobModel::Sleep(*seconds),
            Job::ReadFile { path } => JobModel::ReadFile(path@),
            Job::Remove { path, directory } => JobModel::Remove(path@, *directory),
            Job::Input { path, sort } => JobModel::Input(path@, *sort),
        }
    }
}

/// Where a result goes instead of the terminal.
pub struct Target {
    pub path: String,
    pub append: bool,
}

/// `ls`, `ls -l`.
pub open spec fn list_job(t: Seq<char>) -> JobModel {
    if t == lit_ls() {
        JobModel::List(false)
    } else if t == lit_ls_long() {
        JobModel::List(true)
    } else {
        JobModel::Finished(Err(ShellError::ListUsage))
    }
}

/// `echo`, `echo <text>`.
pub open spec fn echo_result(t: Seq<char>) -> Result<Seq<char>, ShellError> {
    if t == lit_echo() {
        Ok(Seq::empty())
    } else if starts_with(t, spaced(lit_echo())) {
        Ok(operand(t, lit_echo()))
    } else {
        Err(ShellError::EchoUsage)
    }
}

/// `cd <dir>`: the directory it names, resolved against `cwd`.
pub open spec fn cd_target(cwd: Seq<char>, t: Seq<char>) -> Result<Seq<char>, ShellError> {
    if starts_with(t, spaced(lit_cd())) {
        Ok(join_path(cwd, operand(t, lit_cd())))
    } else {
        Err(ShellError::ChangeDirectoryUsage)
    }
}

pub open spec fn is_digit(c: char) -> bool {
    '0' <= c && c <= '9'
}

/// The number that the decimal digits `d` write.
pub open spec fn digits_value(d: Seq<char>) -> int
    decreases d.len(),
{
    if d.len() == 0 {
        0
    } else {
        digits_value(d.subrange(0, d.len() - 1)) * 10 + (d.last() as int - '0' as int)
    }
}

/// `s` without one leading `+`.
pub open spec fn unsigned_digits(s: Seq<char>) -> Seq<char> {
    if s.len() > 0 && s[0] == '+' {
        s.subrange(1, s.len() as int)
    } else {
        s
    }
}

/// A `u64` written in decimal, with an optional leading `+`, as `u64`'s
/// `from_str` reads it.
pub open spec fn parse_u64(s: Seq<char>) -> Option<u64> {
    let d = unsigned_digits(s);
    if d.len() > 0 && (forall|i: int| 0 <= i < d.len() ==> is_digit(#[trigger] d[i]))
        && digits_value(d) <= u64::MAX {
        Some(digits_value(d) as u64)
    } else {
        None
    }
}

/// `sleep <seconds>`.
pub open spec fn sleep_job(t: Seq<char>) -> JobModel {
    if starts_with(t, spaced(lit_sleep())) {
        match parse_u64(operand(t, lit_sleep())) {
            Some(n) => JobModel::Sleep(n),
            None => JobModel::Finished(Err(ShellError::SleepDuration)),
        }
    } else {
        JobModel::Finished(Err(ShellError::SleepUsage))
    }
}

/// `cat <file>`.
pub open spec fn cat_job(cwd: Seq<char>, t: Seq<char>) -> JobModel {
    if starts_with(t, spaced(lit_cat())) {
        JobModel::ReadFile(join_path(cwd, operand(t, lit_cat())))
    } else {
        JobModel::Finished(Err(ShellError::CatUsage))
    }
}

/// `rm <file>`, or with `directory` `rmdir <dir>`.
pub open spec fn remove_job(cwd: Seq<char>, t: Seq<char>, directory: bool) -> JobModel {
    let verb = if directory {
        lit_rmdir()
    } else {
        lit_rm()
    };
    if starts_with(t, spaced(verb)) {
        JobModel::Remove(join_path(cwd, operand(t, verb)), directory)
    } else {
        JobModel::Finished(Err(ShellError::RemoveUsage))
    }
}

/// `<operation> < <file>`: the operation and the file, both trimmed.
pub open spec fn input_split(t: Seq<char>) -> Option<(Seq<char>, Seq<char>)> {
    let k = first_index(t, '<');
    let op = trim(t.subrange(0, k));
    let file = trim(t.subrange(k + 1, t.len() as int));
    if count_of(t, '<') != 1 || op.len() == 0 || file.len() == 0 {
        None
    } else {
        Some((op, file))
    }
}

/// `<operation> > <file>` or `<operation> >> <file>`: the operation, the file,
/// and whether the file is appended to.
pub open spec fn output_split(t: Seq<char>) -> Option<(Seq<char>, Seq<char>, bool)> {
    let n = count_of(t, '>');
    let k = first_index(t, '>');
    let skip: int = if n == 2 {
        2
    } else {
        1
    };
    let op = trim(t.subrange(0, k));
    let file = trim(t.subrange(k + skip, t.len() as int));
    if n == 0 || n > 2 || (n == 2 && !(k + 1 < t.len() && t[k + 1] == '>')) || op.len() == 0
        || file.len() == 0 {
        None
    } else {
        Some((op, file, n == 2))
    }
}

/// `<operation> < <file>`.
pub open spec fn input_job(cwd: Seq<char>, t: Seq<char>) -> JobModel {
    match input_split(t) {
        Some((op, file)) => JobModel::Input(join_path(cwd, file), op == lit_sort()),
        None => JobModel::Finished(Err(ShellError::InputUsage)),
    }
}

/// What the trimmed command `t` asks for, where `cwd` is the current
/// directory and `h` the history with `t` already in it; output redirection
/// is not handled here.
pub open spec fn plain_job(cwd: Seq<char>, h: Seq<Seq<char>>, t: Seq<char>) -> JobModel {
    if t == lit_exit() {
        JobModel::Exit
    } else if t == lit_history() {
        JobModel::Finished(Ok(join_lines(h)))
    } else if t == lit_pwd() {
        JobModel::Finished(Ok(cwd))
    } else if count_of(t, '<') > 0 {
        input_job(cwd, t)
    } else if starts_with(t, lit_ls()) {
        list_job(t)
    } else if starts_with(t, lit_echo()) {
        JobModel::Finished(echo_result(t))
    } else if starts_with(t, lit_cd()) {
        match cd_target(cwd, t) {
            Ok(p) => JobModel::ChangeDirectory(p),
            Err(e) => JobModel::Finished(Err(e)),
        }
    } else if starts_with(t, lit_sleep()) {
        sleep_job(t)
    } else if starts_with(t, lit_cat()) {
        cat_job(cwd, t)
    } else if starts_with(t, lit_rmdir()) {
        remove_job(cwd, t, true)
    } else if starts_with(t, lit_rm()) {
        remove_job(cwd, t, false)
    } else {
        JobModel::Finished(Err(ShellError::CommandNotFound))
    }
}

} // verus!

verus! {

proof fn lemma_digits_value_grows(d: Seq<char>, i: int)
    requires
        0 <= i <= d.len(),
        forall|m: int| 0 <= m < d.len() ==> is_digit(#[trigger] d[m]),
    ensures
        0 <= digits_value(d.subrange(0, i)) <= digits_value(d),
    decreases d.len(),
{
    if i == d.len() {
        assert(d.subrange(0, i) =~= d);
        if d.len() > 0 {
            lemma_digits_value_grows(d.subrange(0, d.len() - 1), d.len() - 1);
            assert(d.subrange(0, d.len() - 1).subrange(0, d.len() - 1) =~= d.subrange(
                0,
                d.len() - 1,
            ));
        }
    } else {
        let init = d.subrange(0, d.len() - 1);
        lemma_digits_value_grows(init, i);
        assert(init.subrange(0, i) =~= d.subrange(0, i));
        lemma_digits_value_grows(init, init.len() as int);
        assert(init.subrange(0, init.len() as int) =~= init);
    }
}

/// Reads `v@[lo..hi]` as `u64`'s `from_str` does.
pub fn parse_seconds(v: &Vec<char>, lo: usize, hi: usize) -> (r: Option<u64>)
    requires
        lo <= hi <= v@.len(),
    ensures
        r == parse_u64(v@.subrange(lo as int, hi as int)),
{
    let ghost s = v@.subrange(lo as int, hi as int);
    let mut start = lo;
    if lo < hi && v[lo] == '+' {
        start = lo + 1;
    }
    let ghost d = v@.subrange(start as int, hi as int);
    assert(d =~= unsigned_digits(s));
    if start == hi {
        return None;
    }
    let mut acc: u64 = 0;
    let mut k: usize = start;
    while k < hi
        invariant
            lo <= start <= k <= hi <= v@.len(),
            d == v@.subrange(start as int, hi as int),
            d == unsigned_digits(s),
            s == v@.subrange(lo as int, hi as int),
            forall|m: int| start <= m < k ==> is_digit(#[trigger] v@[m]),
            acc as int == digits_value(v@.subrange(start as int, k as int)),
        decreases hi - k,
    {
        let c = v[k];
        if !('0' <= c && c <= '9') {
            assert(!is_digit(d[k - start]));
            return None;
        }
        let digit = (c as u32 - '0' as u32) as u64;
        assert(v@.subrange(start as int, k + 1).subrange(0, k - start) =~= v@.subrange(
            start as int,
            k as int,
        ));
        if acc > (u64::MAX - digit) / 10 {
            proof {
                assert(acc * 10 + digit > u64::MAX) by (nonlinear_arith)
                    requires
                        acc > (u64::MAX - digit) / 10,
                        digit <= 9,
                ;
                assert(forall|m: int| 0 <= m < d.len() ==> #[trigger] d[m] == v@[start + m]);
                if forall|m: int| 0 <= m < d.len() ==> is_digit(#[trigger] d[m]) {
                    lemma_digits_value_grows(d, k + 1 - start);
                    assert(d.subrange(0, k + 1 - start) =~= v@.subrange(start as int, k + 1));
                }
            }
            return None;
        }
        acc = acc * 10 + digit;
        k += 1;
    }
    assert(v@.subrange(start as int, hi as int) =~= d);
    Some(acc)
}

} // verus!

verus! {

/// The text after `verb` and its space in `s@[lo..hi]`.
fn operand_of(s: &str, lo: usize, hi: usize, verb_len: usize) -> (r: String)
    requires
        lo + verb_len + 1 <= hi <= s@.len(),
    ensures
        r@ == s@.subrange(lo as int, hi as int).subrange(verb_len + 1, hi - lo),
{
    let r = text_of(s, lo + verb_len + 1, hi);
    assert(r@ =~= s@.subrange(lo as int, hi as int).subrange(verb_len + 1, hi - lo));
    r
}

pub fn list_job_of(v: &Vec<char>, lo: usize, hi: usize) -> (r: Job)
    requires
        lo <= hi <= v@.len(),
    ensures
        r@ == list_job(v@.subrange(lo as int, hi as int)),
{
    let w = ['l', 's'];
    assert(w@ =~= lit_ls());
    let wl = ['l', 's', ' ', '-', 'l'];
    assert(wl@ =~= lit_ls_long());
    if is_word(v, lo, hi, &w) {
        Job::List { long: false }
    } else if is_word(v, lo, hi, &wl) {
        Job::List { long: true }
    } else {
        Job::Finished(Err(ShellError::ListUsage))
    }
}

pub fn echo_of(s: &str, v: &Vec<char>, lo: usize, hi: usize) -> (r: Result<String, ShellError>)
    requires
        v@ == s@,
        lo <= hi <= v@.len(),
    ensures
        result_view(r) == echo_result(v@.subrange(lo as int, hi as int)),
{
    let w = ['e', 'c', 'h', 'o'];
    assert(w@ =~= lit_echo());
    let ws = ['e', 'c', 'h', 'o', ' '];
    assert(ws@ =~= spaced(lit_echo()));
    if is_word(v, lo, hi, &w) {
        let r = String::new();
        assert(r@ =~= Seq::<char>::empty());
        Ok(r)
    } else if has_prefix(v, lo, hi, &ws) {
        Ok(operand_of(s, lo, hi, 4))
    } else {
        Err(ShellError::EchoUsage)
    }
}

pub fn cd_of(cwd: &str, s: &str, v: &Vec<char>, lo: usize, hi: usize) -> (r: Result<
    String,
    ShellError,
>)
    requires
        v@ == s@,
        lo <= hi <= v@.len(),
    ensures
        result_view(r) == cd_target(cwd@, v@.subrange(lo as int, hi as int)),
{
    let ws = ['c', 'd', ' '];
    assert(ws@ =~= spaced(lit_cd()));
    if has_prefix(v, lo, hi, &ws) {
        let p = operand_of(s, lo, hi, 2);
        Ok(join(cwd, p.as_str()))
    } else {
        Err(ShellError::ChangeDirectoryUsage)
    }
}

pub fn sleep_job_of(v: &Vec<char>, lo: usize, hi: usize) -> (r: Job)
    requires
        lo <= hi <= v@.len(),
    ensures
        r@ == sleep_job(v@.subrange(lo as int, hi as int)),
{
    let ws = ['s', 'l', 'e', 'e', 'p', ' '];
    assert(ws@ =~= spaced(lit_sleep()));
    if has_prefix(v, lo, hi, &ws) {
        let r = parse_seconds(v, lo + 6, hi);
        assert(v@.subrange(lo + 6, hi as int) =~= operand(
            v@.subrange(lo as int, hi as int),
            lit_sleep(),
        ));
        match r {
            Some(n) => Job::Sleep { seconds: n },
            None => Job::Finished(Err(ShellError::SleepDuration)),
        }
    } else {
        Job::Finished(Err(ShellError::SleepUsage))
    }
}

pub fn cat_job_of(cwd: &str, s: &str, v: &Vec<char>, lo: usize, hi: usize) -> (r: Job)
    requires
        v@ == s@,
        lo <= hi <= v@.len(),
    ensures
        r@ == cat_job(cwd@, v@.subrange(lo as int, hi as int)),
{
    let ws = ['c', 'a', 't', ' '];
    assert(ws@ =~= spaced(lit_cat()));
    if has_prefix(v, lo, hi, &ws) {
        let p = operand_of(s, lo, hi, 3);
        Job::ReadFile { path: join(cwd, p.as_str()) }
    } else {
        Job::Finished(Err(ShellError::CatUsage))
    }
}

pub fn remove_job_of(cwd: &str, s: &str, v: &Vec<char>, lo: usize, hi: usize, directory: bool) -> (r:
    Job)
    requires
        v@ == s@,
        lo <= hi <= v@.len(),
    ensures
        r@ == remove_job(cwd@, v@.subrange(lo as int, hi as int), directory),
{
    let wd = ['r', 'm', 'd', 'i', 'r', ' '];
    assert(wd@ =~= spaced(lit_rmdir()));
    let wf = ['r', 'm', ' '];
    assert(wf@ =~= spaced(lit_rm()));
    let matched = if directory {
        has_prefix(v, lo, hi, &wd)
    } else {
        has_prefix(v, lo, hi, &wf)
    };
    if matched {
        let verb_len: usize = if directory {
            5
        } else {
            2
        };
        let p = operand_of(s, lo, hi, verb_len);
        Job::Remove { path: join(cwd, p.as_str()), directory }
    } else {
        Job::Finished(Err(ShellError::RemoveUsage))
    }
}

} // verus!

verus! {

pub fn input_job_of(cwd: &str, s: &str, v: &Vec<char>, lo: usize, hi: usize) -> (r: Job)
    requires
        v@ == s@,
        lo <= hi <= v@.len(),
    ensures
        r@ == input_job(cwd@, v@.subrange(lo as int, hi as int)),
{
    let ghost t = v@.subrange(lo as int, hi as int);
    let count = count_char(v, lo, hi, '<');
    let k = find_char(v, lo, hi, '<');
    proof {
        lemma_first_index(t, '<');
    }
    if count != 1 {
        return Job::Finished(Err(ShellError::InputUsage));
    }
    let (a, b) = trim_range(v, lo, lo + k);
    let (c, d) = trim_range(v, lo + k + 1, hi);
    assert(v@.subrange(lo as int, lo + k) =~= t.subrange(0, k as int));
    assert(v@.subrange(lo + k + 1, hi as int) =~= t.subrange(k + 1, t.len() as int));
    if a == b || c == d {
        return Job::Finished(Err(ShellError::InputUsage));
    }
    let w = ['s', 'o', 'r', 't'];
    assert(w@ =~= lit_sort());
    let sort = is_word(v, a, b, &w);
    let file = text_of(s, c, d);
    Job::Input { path: join(cwd, file.as_str()), sort }
}

/// Where the operation and the file of an output redirection stand.
pub struct OutputSplit {
    pub op_lo: usize,
    pub op_hi: usize,
    pub file_lo: usize,
    pub file_hi: usize,
    pub append: bool,
}

impl OutputSplit {
    pub open spec fn wf(&self, v: Seq<char>) -> bool {
        self.op_lo <= self.op_hi <= v.len() && self.file_lo <= self.file_hi <= v.len()
    }
}

/// For `<operation> > <file>` or `<operation> >> <file>` in `v@[lo..hi]`: the
/// bounds of the operation and of the file, and whether the file is appended to.
pub fn output_split_of(v: &Vec<char>, lo: usize, hi: usize) -> (r: Option<OutputSplit>)
    requires
        lo <= hi <= v@.len(),
    ensures
        match output_split(v@.subrange(lo as int, hi as int)) {
            Some((op, file, append)) => {
                &&& r is Some
                &&& r.unwrap().wf(v@)
                &&& v@.subrange(r.unwrap().op_lo as int, r.unwrap().op_hi as int) == op
                &&& v@.subrange(r.unwrap().file_lo as int, r.unwrap().file_hi as int) == file
                &&& r.unwrap().append == append
            },
            None => r is None,
        },
{
    let ghost t = v@.subrange(lo as int, hi as int);
    let count = count_char(v, lo, hi, '>');
    let k = find_char(v, lo, hi, '>');
    proof {
        lemma_first_index(t, '>');
    }
    if count == 0 || count > 2 {
        return None;
    }
    if count == 2 && !(k + 1 < hi - lo && v[lo + k + 1] == '>') {
        return None;
    }
    let skip: usize = if count == 2 {
        2
    } else {
        1
    };
    let (a, b) = trim_range(v, lo, lo + k);
    let (c, d) = trim_range(v, lo + k + skip, hi);
    assert(v@.subrange(lo as int, lo + k) =~= t.subrange(0, k as int));
    assert(v@.subrange(lo + k + skip, hi as int) =~= t.subrange(k + skip, t.len() as int));
    if a == b || c == d {
        return None;
    }
    Some(OutputSplit { op_lo: a, op_hi: b, file_lo: c, file_hi: d, append: count == 2 })
}

} // verus!

verus! {

/// What the trimmed command `s@[lo..hi]` asks for; output redirection aside.
pub fn plain_job_of(cwd: &str, h: &History, s: &str, v: &Vec<char>, lo: usize, hi: usize) -> (r:
    Job)
    requires
        v@ == s@,
        lo <= hi <= v@.len(),
    ensures
        r@ == plain_job(cwd@, h@, v@.subrange(lo as int, hi as int)),
{
    let w_exit = ['e', 'x', 'i', 't'];
    assert(w_exit@ =~= lit_exit());
    let w_history = ['h', 'i', 's', 't', 'o', 'r', 'y'];
    assert(w_history@ =~= lit_history());
    let w_pwd = ['p', 'w', 'd'];
    assert(w_pwd@ =~= lit_pwd());
    let w_ls = ['l', 's'];
    assert(w_ls@ =~= lit_ls());
    let w_echo = ['e', 'c', 'h', 'o'];
    assert(w_echo@ =~= lit_echo());
    let w_cd = ['c', 'd'];
    assert(w_cd@ =~= lit_cd());
    let w_sleep = ['s', 'l', 'e', 'e', 'p'];
    assert(w_sleep@ =~= lit_sleep());
    let w_cat = ['c', 'a', 't'];
    assert(w_cat@ =~= lit_cat());
    let w_rmdir = ['r', 'm', 'd', 'i', 'r'];
    assert(w_rmdir@ =~= lit_rmdir());
    let w_rm = ['r', 'm'];
    assert(w_rm@ =~= lit_rm());
    if is_word(v, lo, hi, &w_exit) {
        Job::Exit
    } else if is_word(v, lo, hi, &w_history) {
        Job::Finished(Ok(h.render()))
    } else if is_word(v, lo, hi, &w_pwd) {
        Job::Finished(Ok(String::from_str(cwd)))
    } else if count_char(v, lo, hi, '<') > 0 {
        input_job_of(cwd, s, v, lo, hi)
    } else if has_prefix(v, lo, hi, &w_ls) {
        list_job_of(v, lo, hi)
    } else if has_prefix(v, lo, hi, &w_echo) {
        Job::Finished(echo_of(s, v, lo, hi))
    } else if has_prefix(v, lo, hi, &w_cd) {
        match cd_of(cwd, s, v, lo, hi) {
            Ok(p) => Job::ChangeDirectory { path: p },
            Err(e) => Job::Finished(Err(e)),
        }
    } else if has_prefix(v, lo, hi, &w_sleep) {
        sleep_job_of(v, lo, hi)
    } else if has_prefix(v, lo, hi, &w_cat) {
        cat_job_of(cwd, s, v, lo, hi)
    } else if has_prefix(v, lo, hi, &w_rmdir) {
        remove_job_of(cwd, s, v, lo, hi, true)
    } else if has_prefix(v, lo, hi, &w_rm) {
        remove_job_of(cwd, s, v, lo, hi, false)
    } else {
        Job::Finished(Err(ShellError::CommandNotFound))
    }
}

} // verus!
