//! What can go wrong with a task file or a run of it.

use vstd::prelude::*;
use vstd::string::*;

use crate::text::decimal;
use crate::text::decimal_text;
use crate::text::signed_decimal;
use crate::text::signed_decimal_text;

verus! {

/// A failure of a task file or of a run.
#[derive(Debug)]
pub enum TaskError {
    /// The task file cannot be used.
    InvalidTaskFile(String),
    /// The YAML text could not be parsed; holds the parser's message.
    Yaml(String),
    /// An operation of the file system or a stream failed; holds its message.
    Io(String),
    /// The dependencies contain a cycle.
    CyclicDag,
    /// A task names an agent that is not configured.
    UnknownAgent(String),
    /// Two tasks have the same id.
    DuplicateTask(String),
    /// A task depends on an id that no task has.
    MissingDependency(String),
    /// A sub-agent could not be started.
    Spawn(String),
    /// A sub-agent ended without success.
    SubAgentFailed { code: i32, message: String },
    /// A sub-agent ran for longer than its limit.
    Timeout(u64),
    /// The platform has no such signal.
    SignalUnsupported(&'static str),
    /// A signal could not be sent.
    Signal(String),
    /// The standard input of the sub-agent is gone.
    StdinClosed,
    /// Writing to the standard input of the sub-agent failed.
    Injection(String),
}

impl TaskError {
    /// The text that `message` gives.
    pub open spec fn message_text(&self) -> Seq<char> {
        match self {
            TaskError::InvalidTaskFile(s) => "invalid task file: "@ + s@,
            TaskError::Yaml(s) => "yaml parse error: "@ + s@,
            TaskError::Io(s) => "io error: "@ + s@,
            TaskError::CyclicDag => "dag contains a cycle"@,
            TaskError::UnknownAgent(s) => "unknown agent id: "@ + s@,
            TaskError::DuplicateTask(s) => "duplicate task id: "@ + s@,
            TaskError::MissingDependency(s) => "invalid depends_on (missing task id: "@ + s@
                + ")"@,
            TaskError::Spawn(s) => "spawn failed: "@ + s@,
            TaskError::SubAgentFailed { code, message } => "sub-agent failed with code "@
                + signed_decimal(*code as int) + ": "@ + message@,
            TaskError::Timeout(secs) => "timeout after "@ + decimal(*secs as nat) + " seconds"@,
            TaskError::SignalUnsupported(s) =>
                "signal operation not supported on this platform: "@ + s@,
            TaskError::Signal(s) => "failed to send signal: "@ + s@,
            TaskError::StdinClosed => "child stdin is not available or closed"@,
            TaskError::Injection(s) => "injection write failed: "@ + s@,
        }
    }

    /// The error in words.
    pub fn message(&self) -> (r: String)
        ensures
            r@ == self.message_text(),
    {
        match self {
            TaskError::InvalidTaskFile(s) => worded("invalid task file: ", s),
            TaskError::Yaml(s) => worded("yaml parse error: ", s),
            TaskError::Io(s) => worded("io error: ", s),
            TaskError::CyclicDag => "dag contains a cycle".to_owned(),
            TaskError::UnknownAgent(s) => worded("unknown agent id: ", s),
            TaskError::DuplicateTask(s) => worded("duplicate task id: ", s),
            TaskError::MissingDependency(s) => {
                let mut r = worded("invalid depends_on (missing task id: ", s);
                r.append(")");
                r
            },
            TaskError::Spawn(s) => worded("spawn failed: ", s),
            TaskError::SubAgentFailed { code, message } => {
                let mut r = worded("sub-agent failed with code ", &signed_decimal_text(*code));
                r.append(": ");
                r.append(message.as_str());
                r
            },
            TaskError::Timeout(secs) => {
                let mut r = worded("timeout after ", &decimal_text(*secs));
                r.append(" seconds");
                r
            },
            TaskError::SignalUnsupported(s) => worded(
                "signal operation not supported on this platform: ",
                s,
            ),
            TaskError::Signal(s) => worded("failed to send signal: ", s),
            TaskError::StdinClosed => "child stdin is not available or closed".to_owned(),
            TaskError::Injection(s) => worded("injection write failed: ", s),
        }
    }
}

/// `head` followed by `tail`.
pub(crate) fn worded(head: &str, tail: &str) -> (r: String)
    ensures
        r@ == head@ + tail@,
{
    let mut r = head.to_owned();
    r.append(tail);
    r
}

/// Law: each failure is told in words of its own, with what it is about.
pub proof fn law_messages(e: &TaskError, r: String)
    requires
        call_ensures(TaskError::message, (e,), r),
    ensures
        e matches TaskError::InvalidTaskFile(s) ==> r@ == "invalid task file: "@ + s@,
        e matches TaskError::Yaml(s) ==> r@ == "yaml parse error: "@ + s@,
        e matches TaskError::Io(s) ==> r@ == "io error: "@ + s@,
        e matches TaskError::CyclicDag ==> r@ == "dag contains a cycle"@,
        e matches TaskError::UnknownAgent(s) ==> r@ == "unknown agent id: "@ + s@,
        e matches TaskError::DuplicateTask(s) ==> r@ == "duplicate task id: "@ + s@,
        e matches TaskError::MissingDependency(s) ==> r@
            == "invalid depends_on (missing task id: "@ + s@ + ")"@,
        e matches TaskError::Spawn(s) ==> r@ == "spawn failed: "@ + s@,
        e matches TaskError::SubAgentFailed { code, message } ==> r@
            == "sub-agent failed with code "@ + signed_decimal(*code as int) + ": "@ + message@,
        e matches TaskError::Timeout(secs) ==> r@ == "timeout after "@ + decimal(*secs as nat)
            + " seconds"@,
        e matches TaskError::SignalUnsupported(s) ==> r@
            == "signal operation not supported on this platform: "@ + s@,
        e matches TaskError::Signal(s) ==> r@ == "failed to send signal: "@ + s@,
        e matches TaskError::StdinClosed ==> r@ == "child stdin is not available or closed"@,
        e matches TaskError::Injection(s) ==> r@ == "injection write failed: "@ + s@,
{
}

} // verus!
