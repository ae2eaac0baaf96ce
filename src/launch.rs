//! Launch planning: what program a job runs, with which arguments, and the
//! guard that keeps launching in the supervisor's own process.
use vstd::prelude::*;

use crate::error::WorkerError;
use crate::job::Project;

verus! {

/// The words that `shlex::split` makes of a command line, or `None` where it
/// reports the line as erroneous (an unterminated quote, a trailing escape).
pub uninterp spec fn shell_words(line: Seq<char>) -> Option<Seq<Seq<char>>>;

/// The text of each string in `v`.
pub open spec fn texts(v: Seq<String>) -> Seq<Seq<char>> {
    v.map_values(|w: String| w@)
}

/// Relies on `shlex::split`: the shell words of `line`, or `None` where the
/// line cannot be split.
#[verifier::external_body]
fn split_words(line: &str) -> (r: Option<Vec<String>>)
    ensures
        match r {
            Some(v) => shell_words(line@) == Some(texts(v@)),
            None => shell_words(line@) is None,
        },
{
    shlex::split(line)
}

/// How a job's process is started.
pub struct LaunchPlan {
    /// The program: the first word of the command line.
    pub program: String,
    /// Its arguments: the remaining words.
    pub args: Vec<String>,
    /// Name of the job's log file in the log directory: the job's name.
    pub log_name: String,
}

/// What the words of a command line make: the first is the program, the
/// rest its arguments. No words at all, or a line that could not be split,
/// is an invalid command.
pub fn plan_from_words(words: Option<Vec<String>>) -> (r: Result<(String, Vec<String>), WorkerError>)
    ensures
        match words {
            Some(w) => if w@.len() > 0 {
                r matches Ok((program, args)) && program@ == w@[0]@ && texts(args@) == texts(w@).skip(1)
            } else {
                r == Err::<(String, Vec<String>), WorkerError>(WorkerError::InvalidCommand)
            },
            None => r == Err::<(String, Vec<String>), WorkerError>(WorkerError::InvalidCommand),
        },
{
    match words {
        None => Err(WorkerError::InvalidCommand),
        Some(w) => {
            if w.len() == 0 {
                return Err(WorkerError::InvalidCommand);
            }
            let program = w[0].clone();
            let mut args: Vec<String> = Vec::new();
            let mut i: usize = 1;
            while i < w.len()
                invariant
                    1 <= i <= w@.len(),
                    texts(args@) == texts(w@).subrange(1, i as int),
                decreases w@.len() - i,
            {
                let word = w[i].clone();
                assert(word@ == w@[i as int]@);
                let ghost before = args@;
                args.push(word);
                assert(args@ == before.push(word));
                assert(texts(args@) =~= texts(before).push(word@));
                i = i + 1;
                assert(texts(args@) =~= texts(w@).subrange(1, i as int));
            }
            assert(texts(w@).subrange(1, w@.len() as int) =~= texts(w@).skip(1));
            Ok((program, args))
        },
    }
}

/// Plans the launch of `project`: its command line is split as a POSIX shell
/// splits words; the log is named after the job.
pub fn launch_plan(project: &Project) -> (r: Result<LaunchPlan, WorkerError>)
    ensures
        match shell_words(project.command@) {
            Some(w) => if w.len() > 0 {
                r matches Ok(plan) && plan.program@ == w[0] && texts(plan.args@) == w.skip(1)
                    && plan.log_name@ == project.name@
            } else {
                r == Err::<LaunchPlan, WorkerError>(WorkerError::InvalidCommand)
            },
            None => r == Err::<LaunchPlan, WorkerError>(WorkerError::InvalidCommand),
        },
{
    let words = split_words(project.command.as_str());
    match plan_from_words(words) {
        Ok((program, args)) => Ok(LaunchPlan { program, args, log_name: project.name.clone() }),
        Err(e) => Err(e),
    }
}

/// Relies on `sysinfo::get_current_pid`: the id of the calling process, or an
/// error where the platform gives none.
#[verifier::external_body]
fn current_pid() -> (r: Option<u32>) {
    match sysinfo::get_current_pid() {
        Ok(pid) => Some(pid.as_u32()),
        Err(_) => None,
    }
}

/// Whether the process now running is the one that began launching: both ids
/// must be known and equal.
pub fn same_process(origin: Option<u32>, current: Option<u32>) -> (r: bool)
    ensures
        r == (origin is Some && origin == current),
{
    match (origin, current) {
        (Some(a), Some(b)) => a == b,
        _ => false,
    }
}

/// Keeps a sequence of launches in the process that began it: a process that
/// is not the original one must not go on to launch the next job.
pub struct LaunchGuard {
    origin: Option<u32>,
}

impl LaunchGuard {
    /// The id noted when the guard was made, if the platform gave one.
    pub closed spec fn origin_pid(&self) -> Option<u32> {
        self.origin
    }

    /// Notes the id of the calling process.
    pub fn new() -> (r: LaunchGuard) {
        LaunchGuard { origin: current_pid() }
    }

    /// Whether the calling process is the one that made this guard; `false`
    /// where either id is unknown.
    pub fn is_original(&self) -> (r: bool)
        ensures
            r ==> self.origin_pid() is Some,
    {
        let current = current_pid();
        same_process(self.origin, current)
    }
}

} // verus!
