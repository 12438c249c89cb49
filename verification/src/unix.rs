//! Validation of a process id on the Unix family.

use crate::text::{decimal, push_decimal};
use crate::types::{Error, ErrorView, ProcessId};
use vstd::prelude::*;

verus! {

/// The id of the kernel's own pseudo-process.
pub const KERNEL_PROCESS_ID: u32 = 0;

/// The id of the first user process, the ancestor of all others.
pub const INIT_PROCESS_ID: u32 = 1;

/// The reason given for an id above the platform's maximum.
pub open spec fn too_large_reason(process_id: ProcessId, available_max: u32) -> Seq<char> {
    "Process id is too large. process id: "@ + decimal(process_id as nat)
        + ", available max process id: "@ + decimal(available_max as nat)
}

/// What validation answers for a process id: `None` where the id may be
/// terminated, else the error. A protected id is named as such even where it
/// also lies above the maximum.
pub open spec fn rejection(process_id: ProcessId, available_max: u32) -> Option<ErrorView> {
    if process_id == KERNEL_PROCESS_ID {
        Some(
            ErrorView::InvalidProcessId {
                process_id,
                reason: "Not allowed to kill kernel process"@,
            },
        )
    } else if process_id == INIT_PROCESS_ID {
        Some(
            ErrorView::InvalidProcessId { process_id, reason: "Not allowed to kill init process"@ },
        )
    } else if process_id > available_max {
        Some(
            ErrorView::InvalidProcessId {
                process_id,
                reason: too_large_reason(process_id, available_max),
            },
        )
    } else {
        None
    }
}

/// Accepts a process id unless it is the kernel's, init's, or above
/// `available_max_process_id`.
pub fn validate_process_id(process_id: ProcessId, available_max_process_id: u32) -> (result:
    Result<(), Error>)
    ensures
        result is Ok <==> process_id != KERNEL_PROCESS_ID && process_id != INIT_PROCESS_ID
            && process_id <= available_max_process_id,
        match result {
            Ok(_) => rejection(process_id, available_max_process_id) is None,
            Err(error) => rejection(process_id, available_max_process_id) == Some(error@),
        },
{
    if process_id == KERNEL_PROCESS_ID {
        Err(
            Error::InvalidProcessId {
                process_id,
                reason: String::from_str("Not allowed to kill kernel process"),
            },
        )
    } else if process_id == INIT_PROCESS_ID {
        Err(
            Error::InvalidProcessId {
                process_id,
                reason: String::from_str("Not allowed to kill init process"),
            },
        )
    } else if process_id > available_max_process_id {
        let mut reason = String::from_str("Process id is too large. process id: ");
        push_decimal(&mut reason, process_id);
        reason.append(", available max process id: ");
        push_decimal(&mut reason, available_max_process_id);
        Err(Error::InvalidProcessId { process_id, reason })
    } else {
        Ok(())
    }
}

} // verus!
