//! Why a task did not succeed.
use vstd::prelude::*;
use crate::exec::model::TaskStatus;
use crate::text::{decimal, decimal_text};

verus! {

broadcast use vstd::string::group_string_axioms;

/// Why a task did not succeed.
#[derive(Debug, PartialEq)]
pub enum RuntimeError {
    /// Something that was named does not exist.
    Lookup(String),
    /// A file or a stream could not be used.
    Io(String),
    /// A command could not be run, or failed.
    Exec { cmd: String, detail: String },
    /// A command ran for too long.
    Timeout { cmd: String, secs: u64 },
    /// The task was stopped because of another.
    Cancelled(String),
}

/// The contents of a [`RuntimeError`].
pub enum RuntimeErrorView {
    Lookup(Seq<char>),
    Io(Seq<char>),
    Exec { cmd: Seq<char>, detail: Seq<char> },
    Timeout { cmd: Seq<char>, secs: u64 },
    Cancelled(Seq<char>),
}

impl RuntimeErrorView {
    /// What the error says.
    pub open spec fn message(self) -> Seq<char> {
        match self {
            RuntimeErrorView::Lookup(s) => "lookup error: "@ + s,
            RuntimeErrorView::Io(s) => "IO error: "@ + s,
            RuntimeErrorView::Exec { cmd, detail } => "execution failed: "@ + cmd + ": "@ + detail,
            RuntimeErrorView::Timeout { cmd, secs } => "timeout: command timed out after "@
                + decimal(secs as nat) + "s: "@ + cmd,
            RuntimeErrorView::Cancelled(s) => "cancelled: "@ + s,
        }
    }

    /// The line that shows the error.
    pub open spec fn line(self) -> Seq<char> {
        "Error: "@ + self.message()
    }

    /// The status of a task that ended with the error.
    pub open spec fn status(self) -> TaskStatus {
        if self is Cancelled {
            TaskStatus::Cancelled
        } else {
            TaskStatus::Error
        }
    }
}

/// How a task ended.
pub type Outcome = Result<(), RuntimeErrorView>;

/// The status of a task that ended.
pub open spec fn ended(outcome: Outcome) -> TaskStatus {
    match outcome {
        Ok(_) => TaskStatus::Success,
        Err(e) => e.status(),
    }
}

pub open spec fn outcome_view(r: Result<(), RuntimeError>) -> Outcome {
    match r {
        Ok(_) => Ok(()),
        Err(e) => Err(e@),
    }
}

impl RuntimeError {
    pub open spec fn view(&self) -> RuntimeErrorView {
        match self {
            RuntimeError::Lookup(s) => RuntimeErrorView::Lookup(s@),
            RuntimeError::Io(s) => RuntimeErrorView::Io(s@),
            RuntimeError::Exec { cmd, detail } => RuntimeErrorView::Exec {
                cmd: cmd@,
                detail: detail@,
            },
            RuntimeError::Timeout { cmd, secs } => RuntimeErrorView::Timeout {
                cmd: cmd@,
                secs: *secs,
            },
            RuntimeError::Cancelled(s) => RuntimeErrorView::Cancelled(s@),
        }
    }

    /// The error of a command that failed.
    pub fn exec_io_error(cmd: &str, detail: &str) -> (r: Self)
        ensures
            r@ == (RuntimeErrorView::Exec { cmd: cmd@, detail: detail@ }),
    {
        RuntimeError::Exec { cmd: cmd.to_owned(), detail: detail.to_owned() }
    }

    /// Whether a command ran for too long.
    pub fn is_timeout(&self) -> (r: bool)
        ensures
            r == (self@ is Timeout),
    {
        match self {
            RuntimeError::Timeout { .. } => true,
            _ => false,
        }
    }

    /// Whether the task was stopped because of another.
    pub fn is_cancelled(&self) -> (r: bool)
        ensures
            r == (self@ is Cancelled),
    {
        match self {
            RuntimeError::Cancelled(_) => true,
            _ => false,
        }
    }

    /// What the error says.
    pub fn message(&self) -> (r: String)
        ensures
            r@ == self@.message(),
    {
        match self {
            RuntimeError::Lookup(s) => {
                let mut out = "lookup error: ".to_owned();
                out.push_str(s.as_str());
                out
            },
            RuntimeError::Io(s) => {
                let mut out = "IO error: ".to_owned();
                out.push_str(s.as_str());
                out
            },
            RuntimeError::Exec { cmd, detail } => {
                let mut out = "execution failed: ".to_owned();
                out.push_str(cmd.as_str());
                out.push_str(": ");
                out.push_str(detail.as_str());
                out
            },
            RuntimeError::Timeout { cmd, secs } => {
                let mut out = "timeout: command timed out after ".to_owned();
                out.push_str(decimal_text(*secs).as_str());
                out.push_str("s: ");
                out.push_str(cmd.as_str());
                out
            },
            RuntimeError::Cancelled(s) => {
                let mut out = "cancelled: ".to_owned();
                out.push_str(s.as_str());
                out
            },
        }
    }

    /// The line that shows the error.
    pub fn line(&self) -> (r: String)
        ensures
            r@ == self@.line(),
    {
        let mut out = "Error: ".to_owned();
        out.push_str(self.message().as_str());
        out
    }

    /// A copy of the error.
    pub fn duplicate(&self) -> (r: Self)
        ensures
            r@ == self@,
    {
        match self {
            RuntimeError::Lookup(s) => RuntimeError::Lookup(s.clone()),
            RuntimeError::Io(s) => RuntimeError::Io(s.clone()),
            RuntimeError::Exec { cmd, detail } => RuntimeError::Exec {
                cmd: cmd.clone(),
                detail: detail.clone(),
            },
            RuntimeError::Timeout { cmd, secs } => RuntimeError::Timeout {
                cmd: cmd.clone(),
                secs: *secs,
            },
            RuntimeError::Cancelled(s) => RuntimeError::Cancelled(s.clone()),
        }
    }
}

/// The status of a task that ended with an error.
pub fn failure_status(error: &RuntimeError) -> (r: TaskStatus)
    ensures
        r == error@.status(),
{
    if error.is_cancelled() {
        TaskStatus::Cancelled
    } else {
        TaskStatus::Error
    }
}

/// The status of a task that ended.
pub fn failure_status_or_success(result: &Result<(), RuntimeError>) -> (r: TaskStatus)
    ensures
        r == ended(outcome_view(*result)),
{
    match result {
        Ok(_) => TaskStatus::Success,
        Err(e) => failure_status(e),
    }
}

} // verus!
