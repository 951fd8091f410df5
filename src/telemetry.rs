use vstd::prelude::*;
use vstd::string::StringExecFns;

verus! {

/// How a long-running task ended.
#[derive(Debug)]
pub enum TaskExit {
    /// It returned normally.
    Completed,
    /// It returned an error, given as text.
    Failed(String),
    /// It could not run to completion (it panicked or was cancelled).
    Aborted(String),
}

#[derive(Clone, Copy, Debug, PartialEq, Eq, Structural)]
pub enum LogLevel {
    Info,
    Error,
}

/// The log event for a task's end.
#[derive(Debug)]
pub struct ExitReport {
    pub level: LogLevel,
    pub message: String,
    pub cause: Option<String>,
}

pub fn report_exit(task_name: &str, outcome: TaskExit) -> (r: ExitReport)
    ensures
        match outcome {
            TaskExit::Completed => r.level == LogLevel::Info && r.message@ == task_name@
                + " has exited"@ && r.cause is None,
            TaskExit::Failed(e) => r.level == LogLevel::Error && r.message@ == task_name@
                + " failed"@ && (r.cause matches Some(c) && c@ == e@),
            TaskExit::Aborted(e) => r.level == LogLevel::Error && r.message@ == task_name@
                + " task failed to complete"@ && (r.cause matches Some(c) && c@ == e@),
        },
{
    match outcome {
        TaskExit::Completed => ExitReport {
            level: LogLevel::Info,
            message: String::from_str(task_name).concat(" has exited"),
            cause: None,
        },
        TaskExit::Failed(e) => ExitReport {
            level: LogLevel::Error,
            message: String::from_str(task_name).concat(" failed"),
            cause: Some(e),
        },
        TaskExit::Aborted(e) => ExitReport {
            level: LogLevel::Error,
            message: String::from_str(task_name).concat(" task failed to complete"),
            cause: Some(e),
        },
    }
}

} // verus!
