//! One invocation: its target, its options and the platform it runs on.

use crate::macos;
use crate::types::{Config, Error, ErrorView, ProcessId};
use crate::unix;
use crate::windows;
use vstd::prelude::*;

verus! {

/// The operating systems that the library knows.
#[derive(Clone, Copy, Debug, PartialEq, Eq, Structural)]
pub enum Platform {
    Macos,
    Windows,
}

/// The largest process id of a platform, as a number.
pub open spec fn available_max_process_id(platform: Platform) -> u32 {
    match platform {
        Platform::Macos => macos::AVAILABLE_MAX_PROCESS_ID,
        Platform::Windows => windows::AVAILABLE_MAX_PROCESS_ID,
    }
}

/// The largest process id that `platform` hands out.
pub fn get_available_max_process_id(platform: Platform) -> (max: u32)
    ensures
        max == available_max_process_id(platform),
{
    match platform {
        Platform::Macos => macos::AVAILABLE_MAX_PROCESS_ID,
        Platform::Windows => windows::AVAILABLE_MAX_PROCESS_ID,
    }
}

/// What validation on `platform` answers for a process id: `None` where the
/// id may be terminated, else the error. An id that the system keeps for
/// itself, or one above the platform's maximum, may not.
pub open spec fn rejection(platform: Platform, process_id: ProcessId) -> Option<ErrorView> {
    match platform {
        Platform::Macos => unix::rejection(process_id, macos::AVAILABLE_MAX_PROCESS_ID),
        Platform::Windows => windows::rejection(process_id),
    }
}

/// The target and options of one invocation on one platform.
#[derive(Clone, Debug)]
pub struct Impl {
    pub process_id: ProcessId,
    pub config: Config,
    pub platform: Platform,
}

impl Impl {
    /// Checks the target before any other work: it must be no id that the
    /// platform protects and none above the platform's maximum.
    pub fn validate_process_id(&self) -> (result: Result<(), Error>)
        ensures
            match result {
                Ok(_) => rejection(self.platform, self.process_id) is None,
                Err(error) => rejection(self.platform, self.process_id) == Some(error@),
            },
            self.process_id == 0 ==> result is Err,
            self.process_id > available_max_process_id(self.platform) ==> result is Err,
    {
        match self.platform {
            Platform::Macos => unix::validate_process_id(
                self.process_id,
                macos::AVAILABLE_MAX_PROCESS_ID,
            ),
            Platform::Windows => windows::validate_process_id(self.process_id),
        }
    }
}

} // verus!
