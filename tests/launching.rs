use worker::error::WorkerError;
use worker::job::{find_project, Project};
use worker::launch::{launch_plan, plan_from_words, same_process, LaunchGuard};

fn job(name: &str, command: &str, display: Option<&str>) -> Project {
    Project {
        name: name.to_string(),
        command: command.to_string(),
        cwd: ".".to_string(),
        display: display.map(|d| d.to_string()),
        envs: None,
    }
}

#[test]
fn plan_splits_command_into_program_and_args() {
    let plan = launch_plan(&job("web", "sleep 100", None)).unwrap();
    assert_eq!(plan.program, "sleep");
    assert_eq!(plan.args, vec!["100".to_string()]);
    assert_eq!(plan.log_name, "web");
}

#[test]
fn plan_follows_shell_quoting() {
    let plan = launch_plan(&job("echo", "sh -c 'echo \"a  b\"; sleep 1'", None)).unwrap();
    assert_eq!(plan.program, "sh");
    assert_eq!(plan.args, vec!["-c".to_string(), "echo \"a  b\"; sleep 1".to_string()]);
}

#[test]
fn unsplittable_or_empty_command_is_invalid() {
    assert_eq!(launch_plan(&job("a", "echo 'open", None)).err(), Some(WorkerError::InvalidCommand));
    assert_eq!(launch_plan(&job("a", "", None)).err(), Some(WorkerError::InvalidCommand));
    assert_eq!(launch_plan(&job("a", "   ", None)).err(), Some(WorkerError::InvalidCommand));
}

#[test]
fn plan_from_words_cases() {
    assert_eq!(plan_from_words(None), Err(WorkerError::InvalidCommand));
    assert_eq!(plan_from_words(Some(vec![])), Err(WorkerError::InvalidCommand));
    assert_eq!(
        plan_from_words(Some(vec!["ls".to_string()])),
        Ok(("ls".to_string(), vec![]))
    );
    assert_eq!(
        plan_from_words(Some(vec!["ls".to_string(), "-l".to_string(), "/tmp".to_string()])),
        Ok(("ls".to_string(), vec!["-l".to_string(), "/tmp".to_string()]))
    );
}

#[test]
fn launching_stays_in_the_original_process() {
    assert!(same_process(Some(7), Some(7)));
    assert!(!same_process(Some(7), Some(8)));
    assert!(!same_process(None, Some(7)));
    assert!(!same_process(Some(7), None));
    assert!(!same_process(None, None));
    let guard = LaunchGuard::new();
    assert!(guard.is_original());
}

#[test]
fn display_name_falls_back_to_name() {
    assert_eq!(job("web", "x", None).display_name(), "web");
    assert_eq!(job("web", "x", Some("Web server")).display_name(), "Web server");
}

#[test]
fn find_project_takes_first_match() {
    let jobs = vec![job("web", "a", None), job("db", "b", None), job("web", "c", None)];
    assert_eq!(find_project(&jobs, "web"), Some(0));
    assert_eq!(find_project(&jobs, "db"), Some(1));
    assert_eq!(find_project(&jobs, "cache"), None);
    assert_eq!(find_project(&vec![], "web"), None);
}
