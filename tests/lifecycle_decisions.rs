use worker::error::WorkerError;
use worker::job::Project;
use worker::lifecycle::{
    keep_polling, not_stopped_line, running_line, signal_outcome, status_report, stop_round,
    stop_targets, Listed, Observed, STOP_TIMEOUT_MS,
};
use worker::record::{parse_state_filename, state_filename};

fn job(name: &str, display: Option<&str>) -> Project {
    Project {
        name: name.to_string(),
        command: "sleep 100".to_string(),
        cwd: ".".to_string(),
        display: display.map(|d| d.to_string()),
        envs: None,
    }
}

fn seen(name: &str, display: Option<&str>, alive: bool) -> Observed {
    Observed { project: job(name, display), alive }
}

fn listed(name: &str, alive: bool) -> Listed {
    Listed { name: name.to_string(), alive }
}

#[test]
fn started_job_is_reported_running() {
    let record = state_filename("web", 4321);
    let (name, pid) = parse_state_filename(&record).unwrap();
    assert_eq!((name.as_str(), pid), ("web", 4321));
    let report = status_report(&vec![seen("web", None, true)]);
    assert_eq!(report.running, vec!["web".to_string()]);
    assert!(report.stale.is_empty());
    assert_eq!(running_line(&report.running[0]), "web is running");
}

#[test]
fn display_name_is_reported() {
    let report = status_report(&vec![seen("web", Some("Web"), true), seen("db", None, true)]);
    assert_eq!(report.running, vec!["Web".to_string(), "db".to_string()]);
}

#[test]
fn duplicate_start_reports_one_line() {
    let a = state_filename("web", 100);
    let b = state_filename("web", 200);
    assert_ne!(a, b);
    let report = status_report(&vec![seen("web", None, true), seen("web", None, true)]);
    assert_eq!(report.running, vec!["web".to_string()]);
    assert!(report.stale.is_empty());
}

#[test]
fn stale_record_is_reclaimed() {
    assert_eq!(parse_state_filename("web-999999"), Ok(("web".to_string(), 999999)));
    let report = status_report(&vec![seen("web", None, false)]);
    assert!(report.running.is_empty());
    assert_eq!(report.stale, vec![0]);
    let again = status_report(&vec![]);
    assert!(again.running.is_empty());
    assert!(again.stale.is_empty());
}

#[test]
fn status_mixes_live_and_stale() {
    let entries = vec![
        seen("web", None, false),
        seen("db", None, true),
        seen("web", None, true),
        seen("cache", None, false),
    ];
    let report = status_report(&entries);
    assert_eq!(report.running, vec!["db".to_string(), "web".to_string()]);
    assert_eq!(report.stale, vec![0, 3]);
    let kept: Vec<Observed> = entries.into_iter().filter(|e| e.alive).collect();
    let next = status_report(&kept);
    assert_eq!(next.running, vec!["db".to_string(), "web".to_string()]);
    assert!(next.stale.is_empty());
}

#[test]
fn stop_signals_only_requested_jobs() {
    let requested = vec![job("web", None)];
    let names = vec!["db".to_string(), "web".to_string(), "webx".to_string(), "web".to_string()];
    assert_eq!(stop_targets(&requested, &names), vec![1, 3]);
}

#[test]
fn stop_reaps_exited_instances() {
    let requested = vec![job("web", None)];
    let first = stop_round(&requested, &vec![listed("web", true), listed("db", true)]);
    assert!(!first.finished);
    assert_eq!(first.pending, vec!["web".to_string()]);
    assert!(first.reap.is_empty());
    assert!(keep_polling(100, first.finished));
    let second = stop_round(&requested, &vec![listed("web", false), listed("db", true)]);
    assert!(second.finished);
    assert!(second.pending.is_empty());
    assert_eq!(second.reap, vec![0]);
    assert!(!keep_polling(200, second.finished));
}

#[test]
fn stop_reports_survivors_by_display_name() {
    let requested = vec![job("web", Some("Web")), job("db", None)];
    let round = stop_round(
        &requested,
        &vec![listed("web", true), listed("web", true), listed("db", false), listed("db", true)],
    );
    assert!(!round.finished);
    assert_eq!(round.pending, vec!["Web".to_string(), "db".to_string()]);
    assert_eq!(round.reap, vec![2]);
    assert_eq!(not_stopped_line(&round.pending[0]), "Was not able to stop Web");
}

#[test]
fn stop_without_instances_is_a_no_op() {
    let requested = vec![job("web", None)];
    assert!(stop_targets(&requested, &vec!["db-1".to_string(), "db".to_string()]).is_empty());
    let round = stop_round(&requested, &vec![listed("db", true)]);
    assert!(round.finished);
    assert!(round.pending.is_empty());
    assert!(round.reap.is_empty());
    let empty = stop_round(&requested, &vec![]);
    assert!(empty.finished);
}

#[test]
fn polling_ends_at_the_timeout() {
    assert_eq!(STOP_TIMEOUT_MS, 5000);
    assert!(keep_polling(0, false));
    assert!(keep_polling(4999, false));
    assert!(!keep_polling(5000, false));
    assert!(!keep_polling(0, true));
}

#[test]
fn gone_process_counts_as_stopped() {
    assert_eq!(signal_outcome(Ok(())), Ok(()));
    assert_eq!(signal_outcome(Err(WorkerError::NoSuchProcess)), Ok(()));
    assert_eq!(signal_outcome(Err(WorkerError::PermissionDenied)), Err(WorkerError::PermissionDenied));
}
