//! The data that every other module speaks of, with a mathematical view of
//! each type that holds text.

use std::collections::HashMap;
use crate::text::{decimal, push_decimal};
use vstd::prelude::*;

verus! {

/// Identifies a process at one instant.
pub type ProcessId = u32;

/// The id of the process that started another.
pub type ParentProcessId = u32;

/// Process ids in a given order.
pub type ProcessIds = Vec<ProcessId>;

/// One pass of a system-wide enumeration.
pub type ProcessInfos = Vec<ProcessInfo>;

/// From a parent's id to the ids of its children, ascending.
pub type ChildProcessIdMap = HashMap<ProcessId, Vec<ProcessId>>;

/// From a process id to what the snapshot said of it.
pub type ProcessInfoMap = HashMap<ProcessId, ProcessInfo>;

/// The reports of one invocation, in the order in which termination was attempted.
pub type Outputs = Vec<Output>;

/// What a snapshot says of one process.
#[derive(Clone, Debug, PartialEq, Eq)]
pub struct ProcessInfo {
    pub process_id: ProcessId,
    pub parent_process_id: ParentProcessId,
    pub name: String,
}

/// A `ProcessInfo` with its name as a sequence of characters.
pub struct ProcessInfoView {
    pub process_id: ProcessId,
    pub parent_process_id: ParentProcessId,
    pub name: Seq<char>,
}

impl View for ProcessInfo {
    type V = ProcessInfoView;

    open spec fn view(&self) -> ProcessInfoView {
        ProcessInfoView {
            process_id: self.process_id,
            parent_process_id: self.parent_process_id,
            name: self.name@,
        }
    }
}

/// The options of one invocation.
#[derive(Clone, Debug, PartialEq, Eq)]
pub struct Config {
    /// The signal to send where the platform terminates by signal.
    pub signal: String,
    /// Whether the target itself is terminated and reported.
    pub include_target: bool,
}

/// The signal that a default `Config` names.
pub open spec fn default_signal() -> Seq<char> {
    seq!['S', 'I', 'G', 'T', 'E', 'R', 'M']
}

impl Default for Config {
    fn default() -> (config: Config)
        ensures
            config.include_target,
            config.signal@ == default_signal(),
    {
        let signal = String::from_str("SIGTERM");
        proof {
            reveal_strlit("SIGTERM");
            assert(signal@ =~= default_signal());
        }
        Config { signal, include_target: true }
    }
}

/// What the operating system answered where one of its calls failed.
#[derive(Clone, Debug, PartialEq, Eq)]
pub struct OsError {
    /// The system's code for the failure.
    pub code: i32,
    /// The system's words for the failure.
    pub message: String,
}

/// Why an invocation failed.
#[derive(Clone, Debug, PartialEq, Eq)]
pub enum Error {
    /// The id is protected by the operating system or lies above its maximum.
    InvalidProcessId { process_id: ProcessId, reason: String },
    /// A number did not fit the width that an operating system call wants.
    InvalidCast { reason: String },
    /// The operating system could not start or continue listing processes.
    /// `code` is the system's code for the failure, where it gave one.
    EnumerationFailure { code: Option<i32>, reason: String },
    /// Terminating a process failed. `code` is the system's code for the
    /// failure, where it gave one.
    TerminationFailure { process_id: ProcessId, code: Option<i32>, reason: String },
}

/// An `Error` with its text as sequences of characters.
pub enum ErrorView {
    InvalidProcessId { process_id: ProcessId, reason: Seq<char> },
    InvalidCast { reason: Seq<char> },
    EnumerationFailure { code: Option<i32>, reason: Seq<char> },
    TerminationFailure { process_id: ProcessId, code: Option<i32>, reason: Seq<char> },
}

impl View for Error {
    type V = ErrorView;

    open spec fn view(&self) -> ErrorView {
        match *self {
            Error::InvalidProcessId { process_id, reason } => ErrorView::InvalidProcessId {
                process_id,
                reason: reason@,
            },
            Error::InvalidCast { reason } => ErrorView::InvalidCast { reason: reason@ },
            Error::EnumerationFailure { code, reason } => ErrorView::EnumerationFailure {
                code,
                reason: reason@,
            },
            Error::TerminationFailure {
                process_id,
                code,
                reason,
            } => ErrorView::TerminationFailure { process_id, code, reason: reason@ },
        }
    }
}

/// The text that `Error::message` gives for an error.
pub open spec fn message_text(error: ErrorView) -> Seq<char> {
    match error {
        ErrorView::InvalidProcessId { reason, .. } => reason,
        ErrorView::InvalidCast { reason } => "Invalid cast. reason: "@ + reason,
        ErrorView::EnumerationFailure { reason, .. } => "Failed to list processes. reason: "@
            + reason,
        ErrorView::TerminationFailure { process_id, reason, .. } => {
            "Failed to terminate process. process id: "@ + decimal(process_id as nat)
                + ", reason: "@ + reason
        },
    }
}

impl Error {
    /// A message fit for display: the reason, and for a failed termination the
    /// process id before it. The system's code is not part of it.
    pub fn message(&self) -> (text: String)
        ensures
            text@ == message_text(self@),
    {
        match self {
            Error::InvalidProcessId { reason, .. } => reason.clone(),
            Error::InvalidCast { reason } => {
                let mut text = String::from_str("Invalid cast. reason: ");
                text.append(reason.as_str());
                text
            },
            Error::EnumerationFailure { reason, .. } => {
                let mut text = String::from_str("Failed to list processes. reason: ");
                text.append(reason.as_str());
                text
            },
            Error::TerminationFailure { process_id, reason, .. } => {
                let mut text = String::from_str("Failed to terminate process. process id: ");
                push_decimal(&mut text, *process_id);
                text.append(", reason: ");
                text.append(reason.as_str());
                text
            },
        }
    }
}

/// What one termination attempt came to.
#[derive(Clone, Debug, PartialEq, Eq)]
pub enum KillOutput {
    /// The process was terminated.
    Killed { process_id: ProcessId },
    /// The attempt failed in a way that a process already gone explains.
    MaybeAlreadyTerminated { process_id: ProcessId, source: Error },
}

/// A `KillOutput` over the view of its error.
pub enum KillOutputView {
    Killed { process_id: ProcessId },
    MaybeAlreadyTerminated { process_id: ProcessId, source: ErrorView },
}

impl View for KillOutput {
    type V = KillOutputView;

    open spec fn view(&self) -> KillOutputView {
        match *self {
            KillOutput::Killed { process_id } => KillOutputView::Killed { process_id },
            KillOutput::MaybeAlreadyTerminated {
                process_id,
                source,
            } => KillOutputView::MaybeAlreadyTerminated { process_id, source: source@ },
        }
    }
}

/// The report on one process id.
#[derive(Clone, Debug, PartialEq, Eq)]
pub enum Output {
    /// The process was terminated; parent and name are those of the snapshot.
    Killed { process_id: ProcessId, parent_process_id: ParentProcessId, name: String },
    /// The attempt failed in a way that a process already gone explains.
    MaybeAlreadyTerminated { process_id: ProcessId, source: Error },
}

/// An `Output` over the views of its name and error.
pub enum OutputView {
    Killed { process_id: ProcessId, parent_process_id: ParentProcessId, name: Seq<char> },
    MaybeAlreadyTerminated { process_id: ProcessId, source: ErrorView },
}

impl View for Output {
    type V = OutputView;

    open spec fn view(&self) -> OutputView {
        match *self {
            Output::Killed { process_id, parent_process_id, name } => OutputView::Killed {
                process_id,
                parent_process_id,
                name: name@,
            },
            Output::MaybeAlreadyTerminated {
                process_id,
                source,
            } => OutputView::MaybeAlreadyTerminated { process_id, source: source@ },
        }
    }
}

} // verus!
