//! Process-lifecycle core of a local job supervisor: state-record names,
//! launch planning, and the decisions behind `start`, `stop` and `status`.

pub mod error;
pub mod job;
pub mod launch;
pub mod lifecycle;
pub mod record;
