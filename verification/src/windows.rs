//! What is particular to Windows.

use crate::types::{
    Config, Error, ErrorView, KillOutput, KillOutputView, OsError, ProcessId, ProcessInfos,
};
use vstd::prelude::*;

verus! {

/// The largest process id that Windows can hand out.
pub const AVAILABLE_MAX_PROCESS_ID: u32 = 0xFFFF_FFFF;

/// The id of the System Idle Process.
pub const SYSTEM_IDLE_PROCESS_PROCESS_ID: u32 = 0;

/// The id of the System process.
pub const SYSTEM_PROCESS_ID: u32 = 4;

/// What validation answers for a process id: `None` where the id may be
/// terminated, else the error.
pub open spec fn rejection(process_id: ProcessId) -> Option<ErrorView> {
    if process_id == SYSTEM_IDLE_PROCESS_PROCESS_ID {
        Some(
            ErrorView::InvalidProcessId {
                process_id,
                reason: "Not allowed to kill System Idle Process"@,
            },
        )
    } else if process_id == SYSTEM_PROCESS_ID {
        Some(ErrorView::InvalidProcessId { process_id, reason: "Not allowed to kill System"@ })
    } else {
        None
    }
}

/// Accepts a process id unless it is that of the System Idle Process or of
/// System.
pub fn validate_process_id(process_id: ProcessId) -> (result: Result<(), Error>)
    ensures
        result is Ok <==> process_id != SYSTEM_IDLE_PROCESS_PROCESS_ID && process_id
            != SYSTEM_PROCESS_ID,
        match result {
            Ok(_) => rejection(process_id) is None,
            Err(error) => rejection(process_id) == Some(error@),
        },
{
    if process_id == SYSTEM_IDLE_PROCESS_PROCESS_ID {
        Err(
            Error::InvalidProcessId {
                process_id,
                reason: String::from_str("Not allowed to kill System Idle Process"),
            },
        )
    } else if process_id == SYSTEM_PROCESS_ID {
        Err(
            Error::InvalidProcessId {
                process_id,
                reason: String::from_str("Not allowed to kill System"),
            },
        )
    } else {
        Ok(())
    }
}

/// The code with which the system denies access to a process.
pub const E_ACCESSDENIED: i32 = -2147024891;

/// The code with which the system refuses an argument.
pub const E_INVALIDARG: i32 = -2147024809;

/// The code with which the system says that a listing has no further entry.
pub const NO_MORE_FILES: i32 = -2147024878;

/// What the system calls of one termination attempt came to.
#[derive(Clone, Debug, PartialEq, Eq)]
pub enum KillAttempt {
    /// The process could not be opened.
    OpenFailed(OsError),
    /// The process was opened; terminating it and closing its handle failed
    /// or not, each for itself.
    Opened { terminate: Option<OsError>, close: Option<OsError> },
}

/// The error for a system call that failed while terminating a process.
pub open spec fn termination_failure(process_id: ProcessId, error: OsError) -> ErrorView {
    ErrorView::TerminationFailure {
        process_id,
        code: Some(error.code),
        reason: error.message@,
    }
}

/// How a termination attempt is classed. A process that cannot be opened
/// because the argument is refused, or cannot be terminated because access is
/// denied, has most likely ended already. A handle that cannot be closed is a
/// failure whatever came before.
pub open spec fn kill_outcome(process_id: ProcessId, attempt: KillAttempt) -> Result<
    KillOutputView,
    ErrorView,
> {
    match attempt {
        KillAttempt::OpenFailed(error) => if error.code == E_INVALIDARG {
            Ok(
                KillOutputView::MaybeAlreadyTerminated {
                    process_id,
                    source: termination_failure(process_id, error),
                },
            )
        } else {
            Err(termination_failure(process_id, error))
        },
        KillAttempt::Opened { close: Some(error), .. } => Err(
            termination_failure(process_id, error),
        ),
        KillAttempt::Opened { terminate: None, close: None } => Ok(
            KillOutputView::Killed { process_id },
        ),
        KillAttempt::Opened { terminate: Some(error), close: None } => if error.code
            == E_ACCESSDENIED {
            Ok(
                KillOutputView::MaybeAlreadyTerminated {
                    process_id,
                    source: termination_failure(process_id, error),
                },
            )
        } else {
            Err(termination_failure(process_id, error))
        },
    }
}

/// How the system's listing of processes ended.
#[derive(Clone, Debug, PartialEq, Eq)]
pub enum ListingEnd {
    /// The size of an entry did not fit the width that the system wants.
    EntrySizeTooLarge,
    /// The first entry could not be read.
    FirstFailed(OsError),
    /// An entry after the first could not be read.
    NextFailed(OsError),
}

/// The error for a system call that failed while listing processes.
pub open spec fn enumeration_failure(error: OsError) -> ErrorView {
    ErrorView::EnumerationFailure { code: Some(error.code), reason: error.message@ }
}

/// The error, if any, that the end of a listing stands for. That no entry
/// is left after the first is the regular end.
pub open spec fn listing_failure(end: ListingEnd, close: Option<OsError>) -> Option<ErrorView> {
    match close {
        Some(error) => Some(enumeration_failure(error)),
        None => match end {
            ListingEnd::EntrySizeTooLarge => Some(
                ErrorView::InvalidCast { reason: "size of PROCESSENTRY32 to u32"@ },
            ),
            ListingEnd::FirstFailed(error) => Some(enumeration_failure(error)),
            ListingEnd::NextFailed(error) => if error.code == NO_MORE_FILES {
                None
            } else {
                Some(enumeration_failure(error))
            },
        },
    }
}

/// Decides what a listing of processes comes to: the entries read, where
/// the listing ended regularly and its handle could be closed, else the
/// error.
pub fn process_infos_outcome(
    entries: ProcessInfos,
    end: ListingEnd,
    close: Option<OsError>,
) -> (result: Result<ProcessInfos, Error>)
    ensures
        match result {
            Ok(process_infos) => listing_failure(end, close) is None && process_infos == entries,
            Err(error) => listing_failure(end, close) == Some(error@),
        },
{
    match close {
        Some(error) => Err(listing_error(error)),
        None => match end {
            ListingEnd::EntrySizeTooLarge => Err(
                Error::InvalidCast { reason: String::from_str("size of PROCESSENTRY32 to u32") },
            ),
            ListingEnd::FirstFailed(error) => Err(listing_error(error)),
            ListingEnd::NextFailed(error) => if error.code == NO_MORE_FILES {
                Ok(entries)
            } else {
                Err(listing_error(error))
            },
        },
    }
}

/// Makes the error for a system call that failed while listing processes.
fn listing_error(error: OsError) -> (failure: Error)
    ensures
        failure@ == enumeration_failure(error),
{
    Error::EnumerationFailure { code: Some(error.code), reason: error.message }
}

/// Makes the error for a system call that failed while terminating a
/// process.
fn kill_error(process_id: ProcessId, error: OsError) -> (failure: Error)
    ensures
        failure@ == termination_failure(process_id, error),
{
    Error::TerminationFailure { process_id, code: Some(error.code), reason: error.message }
}

/// What terminates processes on Windows. It takes no option from the
/// configuration.
#[derive(Clone, Debug)]
pub struct Killer {}

impl Killer {
    /// Classes the outcome of one termination attempt on `process_id`.
    pub fn kill_output(&self, process_id: ProcessId, attempt: KillAttempt) -> (result: Result<
        KillOutput,
        Error,
    >)
        ensures
            match result {
                Ok(kill_output) => kill_outcome(process_id, attempt) == Ok::<
                    KillOutputView,
                    ErrorView,
                >(kill_output@),
                Err(error) => kill_outcome(process_id, attempt) == Err::<
                    KillOutputView,
                    ErrorView,
                >(error@),
            },
    {
        match attempt {
            KillAttempt::OpenFailed(error) => {
                if error.code == E_INVALIDARG {
                    Ok(
                        KillOutput::MaybeAlreadyTerminated {
                            process_id,
                            source: kill_error(process_id, error),
                        },
                    )
                } else {
                    Err(kill_error(process_id, error))
                }
            },
            KillAttempt::Opened { terminate, close } => {
                match close {
                    Some(error) => Err(kill_error(process_id, error)),
                    None => match terminate {
                        None => Ok(KillOutput::Killed { process_id }),
                        Some(error) => {
                            if error.code == E_ACCESSDENIED {
                                Ok(
                                    KillOutput::MaybeAlreadyTerminated {
                                        process_id,
                                        source: kill_error(process_id, error),
                                    },
                                )
                            } else {
                                Err(kill_error(process_id, error))
                            }
                        },
                    },
                }
            },
        }
    }
}

/// Makes the killer for a configuration; on Windows this cannot fail.
pub fn new_killer(config: &Config) -> (killer: Result<Killer, Error>)
    ensures
        killer is Ok,
{
    Ok(Killer {  })
}

} // verus!
