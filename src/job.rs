//! Job definitions, as read from the configuration and kept in state records.
use std::collections::HashMap;

use vstd::prelude::*;
use vstd::string::*;

verus! {

/// A named, long-running job.
#[derive(Clone, Debug)]
pub struct Project {
    /// Unique key of the job; also the name of its log file.
    pub name: String,
    /// Command line, split into words as a POSIX shell would.
    pub command: String,
    /// Working directory of the job's process.
    pub cwd: String,
    /// Name shown in reports, where it differs from `name`.
    pub display: Option<String>,
    /// Environment variables set on top of the supervisor's own.
    pub envs: Option<HashMap<String, String>>,
}

/// The name under which a job is reported: its display name, else its name.
pub open spec fn shown_name(p: Project) -> Seq<char> {
    match p.display {
        Some(d) => d@,
        None => p.name@,
    }
}

/// The first position at or after `k` of a job called `name`.
pub open spec fn find_from(ps: Seq<Project>, name: Seq<char>, k: int) -> Option<int>
    decreases ps.len() - k,
{
    if k < 0 || k >= ps.len() {
        None
    } else if ps[k].name@ == name {
        Some(k)
    } else {
        find_from(ps, name, k + 1)
    }
}

/// The first position of a job called `name`.
pub open spec fn position_of(ps: Seq<Project>, name: Seq<char>) -> Option<int> {
    find_from(ps, name, 0)
}

/// Whether some job in `ps` is called `name`.
pub open spec fn names_job(ps: Seq<Project>, name: Seq<char>) -> bool {
    position_of(ps, name) is Some
}

proof fn lemma_find_from(ps: Seq<Project>, name: Seq<char>, k: int)
    requires
        0 <= k <= ps.len(),
    ensures
        find_from(ps, name, k) is Some <==> exists|j: int| k <= j < ps.len() && #[trigger] ps[j].name@ == name,
        find_from(ps, name, k) matches Some(j) ==> k <= j < ps.len() && ps[j].name@ == name,
    decreases ps.len() - k,
{
    if k < ps.len() {
        lemma_find_from(ps, name, k + 1);
    }
}

/// `names_job` holds exactly when some job in the list carries the name.
pub proof fn lemma_names_job(ps: Seq<Project>, name: Seq<char>)
    ensures
        names_job(ps, name) <==> exists|j: int| 0 <= j < ps.len() && #[trigger] ps[j].name@ == name,
        position_of(ps, name) matches Some(j) ==> 0 <= j < ps.len() && ps[j].name@ == name,
{
    lemma_find_from(ps, name, 0);
}

impl Project {
    /// The name under which this job is reported.
    pub fn display_name(&self) -> (r: String)
        ensures
            r@ == shown_name(*self),
    {
        match &self.display {
            Some(d) => d.clone(),
            None => self.name.clone(),
        }
    }
}

/// Position of the first job called `name`, as configuration lookup and
/// `stop` use it.
pub fn find_project(projects: &Vec<Project>, name: &str) -> (r: Option<usize>)
    ensures
        r is Some <==> position_of(projects@, name@) is Some,
        r matches Some(i) ==> position_of(projects@, name@) == Some(i as int),
{
    let key = String::from_str(name);
    let mut i: usize = 0;
    while i < projects.len()
        invariant
            i <= projects@.len(),
            key@ == name@,
            find_from(projects@, name@, 0) == find_from(projects@, name@, i as int),
        decreases projects@.len() - i,
    {
        if projects[i].name == key {
            return Some(i);
        }
        i = i + 1;
    }
    None
}

} // verus!
