//! Decisions of the lifecycle commands. The state directory is read, and
//! liveness probed, by the caller; these functions decide what is reported,
//! what is signalled and which records are removed.
use vstd::prelude::*;
use vstd::string::*;

use crate::error::WorkerError;
use crate::job::{find_project, lemma_names_job, names_job, position_of, shown_name, Project};
use crate::launch::texts;
use crate::record::{parse_record_name, record_name, lemma_record_name_round_trip};

verus! {

broadcast use vstd::seq_lib::group_seq_properties;

/// How long `stop` waits for signalled instances to exit.
pub const STOP_TIMEOUT_MS: u64 = 5000;

/// The positions below `n` at which `p` holds, in increasing order.
pub open spec fn indices_where(n: int, p: spec_fn(int) -> bool) -> Seq<usize>
    decreases n,
{
    if n <= 0 {
        Seq::empty()
    } else {
        let r = indices_where(n - 1, p);
        if p(n - 1) {
            r.push((n - 1) as usize)
        } else {
            r
        }
    }
}

/// `indices_where` lists exactly the positions at which `p` holds.
pub proof fn lemma_indices_where(n: int, p: spec_fn(int) -> bool)
    requires
        n <= usize::MAX + 1,
    ensures
        forall|j: int| 0 <= j <= usize::MAX ==>
            (#[trigger] indices_where(n, p).contains(j as usize) <==> (j < n && p(j))),
    decreases n,
{
    if n > 0 {
        lemma_indices_where(n - 1, p);
        let r = indices_where(n - 1, p);
        assert forall|j: int| 0 <= j <= usize::MAX implies
            (#[trigger] indices_where(n, p).contains(j as usize) <==> (j < n && p(j))) by {
            assert(r.contains(j as usize) <==> (j < n - 1 && p(j)));
        }
    }
}

/// What a status read learned of one state record: the job definition it
/// holds, and whether its process is alive.
pub struct Observed {
    pub project: Project,
    pub alive: bool,
}

/// The outcome of `status`: the names of running jobs, each once, and the
/// positions of the records whose process is gone, to be removed.
pub struct StatusReport {
    pub running: Vec<String>,
    pub stale: Vec<usize>,
}

/// Some live record among the first `n` of `es` is reported under `d`.
pub open spec fn reported_upto(es: Seq<Observed>, n: int, d: Seq<char>) -> bool {
    exists|i: int| 0 <= i < n && i < es.len() && (#[trigger] es[i]).alive && shown_name(es[i].project) == d
}

/// Some live record of `es` is reported under `d`.
pub open spec fn reported(es: Seq<Observed>, d: Seq<char>) -> bool {
    reported_upto(es, es.len() as int, d)
}

/// Positions of the records of `es` whose process is gone.
pub open spec fn stale_of(es: Seq<Observed>) -> Seq<usize> {
    indices_where(es.len() as int, |i: int| !es[i].alive)
}

fn contains_text(v: &Vec<String>, s: &String) -> (r: bool)
    ensures
        r == texts(v@).contains(s@),
{
    let mut i: usize = 0;
    while i < v.len()
        invariant
            i <= v@.len(),
            forall|k: int| 0 <= k < i ==> v@[k]@ != s@,
        decreases v@.len() - i,
    {
        if v[i] == *s {
            assert(texts(v@)[i as int] == s@);
            return true;
        }
        i = i + 1;
    }
    proof {
        if texts(v@).contains(s@) {
            let k = choose|k: int| 0 <= k < texts(v@).len() && texts(v@)[k] == s@;
            assert(v@[k]@ == s@);
        }
    }
    false
}

/// Adds `s` to `v` unless a string with its text is there already.
fn insert_text(v: &mut Vec<String>, s: String)
    requires
        texts(old(v)@).no_duplicates(),
    ensures
        texts(final(v)@).no_duplicates(),
        forall|d: Seq<char>| texts(final(v)@).contains(d) <==> (texts(old(v)@).contains(d) || d == s@),
{
    if !contains_text(v, &s) {
        let ghost before = v@;
        v.push(s);
        assert(texts(v@) =~= texts(before).push(s@));
        assert forall|a: int, b: int| 0 <= a < b < texts(v@).len() implies texts(v@)[a] != texts(v@)[b] by {
            if b == before.len() {
                assert(texts(before)[a] == texts(v@)[a]);
            }
        }
    }
}

/// Decides the outcome of `status` over all state records: every record
/// with a live process is reported by its job's display name, each name
/// once; every record whose process is gone is marked for removal.
pub fn status_report(entries: &Vec<Observed>) -> (r: StatusReport)
    ensures
        forall|d: Seq<char>| texts(r.running@).contains(d) <==> reported(entries@, d),
        texts(r.running@).no_duplicates(),
        r.stale@ == stale_of(entries@),
{
    let ghost es = entries@;
    let ghost dead = |i: int| !es[i].alive;
    let mut running: Vec<String> = Vec::new();
    let mut stale: Vec<usize> = Vec::new();
    let mut i: usize = 0;
    while i < entries.len()
        invariant
            es == entries@,
            dead == (|i: int| !es[i].alive),
            i <= es.len(),
            texts(running@).no_duplicates(),
            forall|d: Seq<char>| texts(running@).contains(d) <==> reported_upto(es, i as int, d),
            stale@ == indices_where(i as int, dead),
        decreases es.len() - i,
    {
        let ghost prev = running@;
        if entries[i].alive {
            let name = entries[i].project.display_name();
            assert(name@ == shown_name(es[i as int].project));
            insert_text(&mut running, name);
        } else {
            stale.push(i);
        }
        proof {
            assert forall|d: Seq<char>| reported_upto(es, i + 1, d) <==> (reported_upto(es, i as int, d)
                || (es[i as int].alive && shown_name(es[i as int].project) == d)) by {
                if reported_upto(es, i + 1, d) {
                    let j = choose|j: int| 0 <= j < i + 1 && j < es.len() && (#[trigger] es[j]).alive
                        && shown_name(es[j].project) == d;
                    if j < i {
                        assert(reported_upto(es, i as int, d));
                    }
                }
                if reported_upto(es, i as int, d) {
                    let j = choose|j: int| 0 <= j < i && j < es.len() && (#[trigger] es[j]).alive
                        && shown_name(es[j].project) == d;
                    assert(0 <= j < i + 1 && es[j].alive);
                }
                if es[i as int].alive && shown_name(es[i as int].project) == d {
                    assert(0 <= i < i + 1 && es[i as int].alive);
                }
            }
            assert forall|d: Seq<char>| texts(running@).contains(d) <==> reported_upto(es, i + 1, d) by {
                assert(texts(prev).contains(d) <==> reported_upto(es, i as int, d));
            }
        }
        i = i + 1;
    }
    StatusReport { running, stale }
}

/// The line that `status` prints for a running job.
pub fn running_line(name: &str) -> (r: String)
    ensures
        r@ == name@ + " is running"@,
{
    let mut r = String::from_str(name);
    r.append(" is running");
    r
}

/// The line that `stop` prints for a job still running at the timeout.
pub fn not_stopped_line(name: &str) -> (r: String)
    ensures
        r@ == "Was not able to stop "@ + name@,
{
    let mut r = String::from_str("Was not able to stop ");
    r.append(name);
    r
}

/// Positions of the listed record names that belong to a requested job.
pub open spec fn targets_of(requested: Seq<Project>, names: Seq<String>) -> Seq<usize> {
    indices_where(names.len() as int, |i: int| names_job(requested, names[i]@))
}

/// The first step of `stop`: which of the listed state records (by the job
/// name read from each record's name) belong to a requested job and get a
/// termination signal.
pub fn stop_targets(requested: &Vec<Project>, names: &Vec<String>) -> (r: Vec<usize>)
    ensures
        r@ == targets_of(requested@, names@),
{
    let ghost pick = |i: int| names_job(requested@, names@[i]@);
    let mut r: Vec<usize> = Vec::new();
    let mut i: usize = 0;
    while i < names.len()
        invariant
            i <= names@.len(),
            pick == (|i: int| names_job(requested@, names@[i]@)),
            r@ == indices_where(i as int, pick),
        decreases names@.len() - i,
    {
        if find_project(requested, names[i].as_str()).is_some() {
            r.push(i);
        }
        i = i + 1;
    }
    r
}

/// One state record as a polling round of `stop` sees it: the job name read
/// from the record's name, and whether its process is alive.
pub struct Listed {
    pub name: String,
    pub alive: bool,
}

/// The outcome of one polling round of `stop`.
pub struct StopRound {
    /// Positions of the records of requested jobs whose process is gone:
    /// the record and the job's log file are removed.
    pub reap: Vec<usize>,
    /// Display names of the requested jobs with an instance still alive,
    /// each once.
    pub pending: Vec<String>,
    /// No instance of a requested job is alive.
    pub finished: bool,
}

/// The name under which the requested job called `name` is reported.
pub open spec fn requested_shown(requested: Seq<Project>, name: Seq<char>) -> Option<Seq<char>> {
    match position_of(requested, name) {
        Some(k) => Some(shown_name(requested[k])),
        None => None,
    }
}

/// Some live record among the first `n` of `es` belongs to a requested job
/// reported under `d`.
pub open spec fn pending_upto(requested: Seq<Project>, es: Seq<Listed>, n: int, d: Seq<char>) -> bool {
    exists|i: int| 0 <= i < n && i < es.len() && (#[trigger] es[i]).alive
        && requested_shown(requested, es[i].name@) == Some(d)
}

/// Some record of `es` belongs to a requested job and is alive.
pub open spec fn busy(requested: Seq<Project>, es: Seq<Listed>) -> bool {
    exists|i: int| 0 <= i < es.len() && (#[trigger] es[i]).alive && names_job(requested, es[i].name@)
}

/// Positions of the records of requested jobs whose process is gone.
pub open spec fn reap_of(requested: Seq<Project>, es: Seq<Listed>) -> Seq<usize> {
    indices_where(es.len() as int, |i: int| names_job(requested, es[i].name@) && !es[i].alive)
}

/// Decides one polling round of `stop` over all listed state records.
/// Records of jobs that were not requested are left alone.
pub fn stop_round(requested: &Vec<Project>, entries: &Vec<Listed>) -> (r: StopRound)
    ensures
        r.reap@ == reap_of(requested@, entries@),
        forall|d: Seq<char>| texts(r.pending@).contains(d)
            <==> pending_upto(requested@, entries@, entries@.len() as int, d),
        texts(r.pending@).no_duplicates(),
        r.finished == !busy(requested@, entries@),
{
    let ghost es = entries@;
    let ghost req = requested@;
    let ghost pick = |i: int| names_job(req, es[i].name@) && !es[i].alive;
    let mut reap: Vec<usize> = Vec::new();
    let mut pending: Vec<String> = Vec::new();
    let mut finished = true;
    let mut i: usize = 0;
    while i < entries.len()
        invariant
            es == entries@,
            req == requested@,
            pick == (|i: int| names_job(req, es[i].name@) && !es[i].alive),
            i <= es.len(),
            reap@ == indices_where(i as int, pick),
            texts(pending@).no_duplicates(),
            forall|d: Seq<char>| texts(pending@).contains(d) <==> pending_upto(req, es, i as int, d),
            finished == !(exists|j: int| 0 <= j < i && (#[trigger] es[j]).alive && names_job(req, es[j].name@)),
        decreases es.len() - i,
    {
        let ghost prev = pending@;
        let ghost name = es[i as int].name@;
        proof {
            lemma_names_job(req, name);
        }
        match find_project(requested, entries[i].name.as_str()) {
            Some(k) => {
                if entries[i].alive {
                    finished = false;
                    let shown = requested[k].display_name();
                    assert(requested_shown(req, name) == Some(shown@));
                    insert_text(&mut pending, shown);
                } else {
                    reap.push(i);
                }
            },
            None => {},
        }
        proof {
            assert forall|d: Seq<char>| texts(pending@).contains(d) <==> pending_upto(req, es, i + 1, d) by {
                assert(texts(prev).contains(d) <==> pending_upto(req, es, i as int, d));
                if pending_upto(req, es, i + 1, d) {
                    let j = choose|j: int| 0 <= j < i + 1 && j < es.len() && (#[trigger] es[j]).alive
                        && requested_shown(req, es[j].name@) == Some(d);
                    if j < i {
                        assert(pending_upto(req, es, i as int, d));
                    }
                }
                if pending_upto(req, es, i as int, d) {
                    let j = choose|j: int| 0 <= j < i && j < es.len() && (#[trigger] es[j]).alive
                        && requested_shown(req, es[j].name@) == Some(d);
                    assert(0 <= j < i + 1 && es[j].alive);
                }
                if es[i as int].alive && requested_shown(req, name) == Some(d) {
                    assert(0 <= i < i + 1 && es[i as int].alive);
                }
            }
            if !finished {
                if es[i as int].alive && names_job(req, name) {
                    assert(0 <= i < i + 1 && es[i as int].alive);
                }
            }
        }
        i = i + 1;
    }
    StopRound { reap, pending, finished }
}

/// Whether `stop` polls once more after a round: only while some instance
/// is alive and the timeout has not run out.
pub fn keep_polling(elapsed_ms: u64, finished: bool) -> (r: bool)
    ensures
        r == (!finished && elapsed_ms < STOP_TIMEOUT_MS),
{
    !finished && elapsed_ms < STOP_TIMEOUT_MS
}

/// The outcome of a termination signal as `stop` takes it: a process that is
/// already gone counts as stopped; any other failure stands.
pub fn signal_outcome(sent: Result<(), WorkerError>) -> (r: Result<(), WorkerError>)
    ensures
        r == (match sent {
            Err(WorkerError::NoSuchProcess) => Ok(()),
            other => other,
        }),
{
    match sent {
        Err(WorkerError::NoSuchProcess) => Ok(()),
        other => other,
    }
}

/// Where `p` holds at no position below `n`, no position is listed.
proof fn lemma_indices_none(n: int, p: spec_fn(int) -> bool)
    requires
        forall|i: int| 0 <= i < n ==> !#[trigger] p(i),
    ensures
        indices_where(n, p) == Seq::<usize>::empty(),
    decreases n,
{
    if n > 0 {
        lemma_indices_none(n - 1, p);
    }
}

/// A job just started, whose name holds no `-`, is reported by the next
/// `status` wherever its record is listed: its record's name reads back as
/// the job's name and pid, and a live record of the job makes its display
/// name reported.
pub proof fn lemma_started_job_is_reported(es: Seq<Observed>, at: int, p: Project, pid: i32)
    requires
        !p.name@.contains('-'),
        0 <= at <= es.len(),
    ensures
        parse_record_name(record_name(p.name@, pid)) == Some((p.name@, pid)),
        reported(es.insert(at, Observed { project: p, alive: true }), shown_name(p)),
{
    lemma_record_name_round_trip(p.name@, pid);
    let all = es.insert(at, Observed { project: p, alive: true });
    assert(all[at].alive && shown_name(all[at].project) == shown_name(p));
}

/// After a polling round of `stop` in which no instance of a requested job
/// is alive, the records removed are exactly those of requested jobs: no
/// record of a requested job is left for a later `status` to report, and no
/// other record is touched.
pub proof fn lemma_stopped_jobs_leave_no_record(requested: Seq<Project>, es: Seq<Listed>)
    requires
        !busy(requested, es),
        es.len() <= usize::MAX,
    ensures
        forall|j: int| 0 <= j < es.len() ==>
            (#[trigger] reap_of(requested, es).contains(j as usize) <==> names_job(requested, es[j].name@)),
{
    let pick = |i: int| names_job(requested, es[i].name@) && !es[i].alive;
    lemma_indices_where(es.len() as int, pick);
    assert forall|j: int| 0 <= j < es.len() implies
        (#[trigger] reap_of(requested, es).contains(j as usize) <==> names_job(requested, es[j].name@)) by {
        if names_job(requested, es[j].name@) {
            assert(!es[j].alive);
        }
    }
}

/// `stop` of jobs with no state record is a quiet success: nothing is
/// signalled, nothing removed, nothing left pending, and the first round
/// already finds every requested job stopped.
pub proof fn lemma_stop_without_instances(requested: Seq<Project>, names: Seq<String>, es: Seq<Listed>)
    requires
        forall|i: int| 0 <= i < names.len() ==> !names_job(requested, #[trigger] names[i]@),
        forall|i: int| 0 <= i < es.len() ==> !names_job(requested, (#[trigger] es[i]).name@),
    ensures
        targets_of(requested, names) == Seq::<usize>::empty(),
        reap_of(requested, es) == Seq::<usize>::empty(),
        forall|d: Seq<char>| !pending_upto(requested, es, es.len() as int, d),
        !busy(requested, es),
{
    lemma_indices_none(names.len() as int, |i: int| names_job(requested, names[i]@));
    lemma_indices_none(es.len() as int, |i: int| names_job(requested, es[i].name@) && !es[i].alive);
    assert forall|d: Seq<char>| !pending_upto(requested, es, es.len() as int, d) by {
        if pending_upto(requested, es, es.len() as int, d) {
            let i = choose|i: int| 0 <= i < es.len() && i < es.len() && (#[trigger] es[i]).alive
                && requested_shown(requested, es[i].name@) == Some(d);
            assert(!names_job(requested, es[i].name@));
        }
    }
}

/// The records of `es` whose process is alive, in order: what is left of
/// the state directory after `status` removed the stale ones.
pub open spec fn live_of(es: Seq<Observed>) -> Seq<Observed>
    decreases es.len(),
{
    if es.len() == 0 {
        es
    } else {
        let r = live_of(es.drop_last());
        if es.last().alive {
            r.push(es.last())
        } else {
            r
        }
    }
}

proof fn lemma_reported_push(es: Seq<Observed>, e: Observed, d: Seq<char>)
    ensures
        reported(es.push(e), d) <==> (reported(es, d) || (e.alive && shown_name(e.project) == d)),
{
    let all = es.push(e);
    if reported(all, d) {
        let i = choose|i: int| 0 <= i < all.len() && i < all.len() && (#[trigger] all[i]).alive
            && shown_name(all[i].project) == d;
        if i < es.len() {
            assert(es[i] == all[i]);
        }
    }
    if reported(es, d) {
        let i = choose|i: int| 0 <= i < es.len() && i < es.len() && (#[trigger] es[i]).alive
            && shown_name(es[i].project) == d;
        assert(all[i] == es[i]);
    }
    if e.alive && shown_name(e.project) == d {
        assert(all[es.len() as int] == e);
    }
}

proof fn lemma_live_of(es: Seq<Observed>)
    ensures
        forall|i: int| 0 <= i < live_of(es).len() ==> (#[trigger] live_of(es)[i]).alive,
        forall|d: Seq<char>| reported(live_of(es), d) <==> reported(es, d),
    decreases es.len(),
{
    if es.len() > 0 {
        let init = es.drop_last();
        let e = es.last();
        lemma_live_of(init);
        assert(es =~= init.push(e));
        assert forall|d: Seq<char>| reported(live_of(es), d) <==> reported(es, d) by {
            lemma_reported_push(init, e, d);
            lemma_reported_push(live_of(init), e, d);
        }
        let r = live_of(init);
        if e.alive {
            assert forall|i: int| 0 <= i < live_of(es).len() implies (#[trigger] live_of(es)[i]).alive by {
                if i < r.len() {
                    assert(live_of(es)[i] == r[i]);
                }
            }
        }
    }
}

/// `status` reclaims stale records for good: it removes exactly the records
/// whose process is gone, and a `status` over what is left removes nothing
/// and reports the same names.
pub proof fn lemma_status_reclaims_stale(es: Seq<Observed>)
    requires
        es.len() <= usize::MAX,
    ensures
        forall|j: int| 0 <= j < es.len() ==> (#[trigger] stale_of(es).contains(j as usize) <==> !es[j].alive),
        stale_of(live_of(es)) == Seq::<usize>::empty(),
        forall|d: Seq<char>| reported(live_of(es), d) <==> reported(es, d),
{
    lemma_indices_where(es.len() as int, |i: int| !es[i].alive);
    lemma_live_of(es);
    let kept = live_of(es);
    lemma_indices_none(kept.len() as int, |i: int| !kept[i].alive);
}

} // verus!
