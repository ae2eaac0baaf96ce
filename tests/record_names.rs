use worker::error::WorkerError;
use worker::record::{parse_pid, parse_state_filename, state_filename};

#[test]
fn filename_joins_name_and_pid() {
    assert_eq!(state_filename("web", 1234), "web-1234");
    assert_eq!(state_filename("web", 0), "web-0");
    assert_eq!(state_filename("db", -17), "db--17");
    assert_eq!(state_filename("x", i32::MAX), "x-2147483647");
    assert_eq!(state_filename("x", i32::MIN), "x--2147483648");
}

#[test]
fn filename_round_trips() {
    for pid in [0, 1, 9, 10, 4242, 999999, -1, i32::MAX, i32::MIN] {
        let name = state_filename("web", pid);
        assert_eq!(parse_state_filename(&name), Ok(("web".to_string(), pid)));
    }
}

#[test]
fn parse_splits_on_first_dash() {
    assert_eq!(parse_state_filename("web-999999"), Ok(("web".to_string(), 999999)));
    assert_eq!(parse_state_filename("web--5"), Ok(("web".to_string(), -5)));
    assert_eq!(parse_state_filename("web-+7"), Ok(("web".to_string(), 7)));
    assert_eq!(parse_state_filename("-12"), Ok(("".to_string(), 12)));
    assert_eq!(parse_state_filename("web-007"), Ok(("web".to_string(), 7)));
}

#[test]
fn dashed_job_name_does_not_round_trip() {
    let name = state_filename("my-web", 5);
    assert_eq!(name, "my-web-5");
    assert_eq!(parse_state_filename(&name), Err(WorkerError::CorruptState));
}

#[test]
fn malformed_filenames_are_corrupt_state() {
    for bad in ["web", "", "web-", "web-abc", "web-12a", "web- 12", "web-+", "web--", "web-2147483648", "web-99999999999"] {
        assert_eq!(parse_state_filename(bad), Err(WorkerError::CorruptState), "{}", bad);
    }
}

#[test]
fn parse_pid_follows_i32_parsing() {
    for text in ["0", "42", "-42", "+42", "0042", "2147483647", "-2147483648", "", "-", "+", "2147483648", "-2147483649", "1_000", " 1", "١٢"] {
        assert_eq!(parse_pid(text), text.parse::<i32>().ok(), "{}", text);
    }
}

#[test]
fn error_messages_are_distinct() {
    let all = [
        WorkerError::InvalidCommand,
        WorkerError::IoError,
        WorkerError::CorruptState,
        WorkerError::SpawnFailed,
        WorkerError::PermissionDenied,
        WorkerError::NoSuchProcess,
    ];
    for (i, a) in all.iter().enumerate() {
        for b in all.iter().skip(i + 1) {
            assert_ne!(a.message(), b.message());
        }
    }
    assert_eq!(WorkerError::CorruptState.message(), "corrupt state record");
}
