use kill_tree::macos::candidate_process_ids;
use kill_tree::types::{Config, Error, KillOutput, OsError, ProcessInfo};
use kill_tree::windows::{
    new_killer, process_infos_outcome, KillAttempt, ListingEnd, E_ACCESSDENIED, E_INVALIDARG,
    NO_MORE_FILES,
};

fn os_error(code: i32, message: &str) -> OsError {
    OsError { code, message: message.to_string() }
}

fn failure(process_id: u32, code: i32, message: &str) -> Error {
    Error::TerminationFailure { process_id, code: Some(code), reason: message.to_string() }
}

fn listing(code: i32, message: &str) -> Error {
    Error::EnumerationFailure { code: Some(code), reason: message.to_string() }
}

fn entries() -> Vec<ProcessInfo> {
    vec![
        ProcessInfo { process_id: 0, parent_process_id: 0, name: "[System Process]".to_string() },
        ProcessInfo { process_id: 4, parent_process_id: 0, name: "System".to_string() },
    ]
}

#[test]
fn system_codes() {
    assert_eq!(E_ACCESSDENIED as u32, 0x80070005);
    assert_eq!(E_INVALIDARG as u32, 0x80070057);
    assert_eq!(NO_MORE_FILES as u32, 0x80070012);
}

#[test]
fn terminated_process_is_killed() {
    let killer = new_killer(&Config::default()).unwrap();
    let attempt = KillAttempt::Opened { terminate: None, close: None };
    assert_eq!(killer.kill_output(12, attempt), Ok(KillOutput::Killed { process_id: 12 }));
}

#[test]
fn access_denied_on_terminate_means_maybe_gone() {
    let killer = new_killer(&Config::default()).unwrap();
    let attempt =
        KillAttempt::Opened { terminate: Some(os_error(E_ACCESSDENIED, "denied")), close: None };
    assert_eq!(
        killer.kill_output(12, attempt),
        Ok(KillOutput::MaybeAlreadyTerminated { process_id: 12, source: failure(12, E_ACCESSDENIED, "denied") })
    );
}

#[test]
fn other_terminate_failure_is_an_error() {
    let killer = new_killer(&Config::default()).unwrap();
    let attempt =
        KillAttempt::Opened { terminate: Some(os_error(E_INVALIDARG, "bad")), close: None };
    assert_eq!(killer.kill_output(12, attempt), Err(failure(12, E_INVALIDARG, "bad")));
}

#[test]
fn invalid_argument_on_open_means_maybe_gone() {
    let killer = new_killer(&Config::default()).unwrap();
    let attempt = KillAttempt::OpenFailed(os_error(E_INVALIDARG, "incorrect"));
    assert_eq!(
        killer.kill_output(9, attempt),
        Ok(KillOutput::MaybeAlreadyTerminated { process_id: 9, source: failure(9, E_INVALIDARG, "incorrect") })
    );
}

#[test]
fn other_open_failure_is_an_error() {
    let killer = new_killer(&Config::default()).unwrap();
    let attempt = KillAttempt::OpenFailed(os_error(E_ACCESSDENIED, "denied"));
    assert_eq!(killer.kill_output(9, attempt), Err(failure(9, E_ACCESSDENIED, "denied")));
}

#[test]
fn close_failure_overrides_the_rest() {
    let killer = new_killer(&Config::default()).unwrap();
    let attempt = KillAttempt::Opened { terminate: None, close: Some(os_error(6, "handle")) };
    assert_eq!(killer.kill_output(9, attempt), Err(failure(9, 6, "handle")));
    let attempt = KillAttempt::Opened {
        terminate: Some(os_error(E_ACCESSDENIED, "denied")),
        close: Some(os_error(6, "handle")),
    };
    assert_eq!(killer.kill_output(9, attempt), Err(failure(9, 6, "handle")));
}

#[test]
fn listing_that_runs_out_succeeds() {
    let end = ListingEnd::NextFailed(os_error(NO_MORE_FILES, "no more files"));
    assert_eq!(process_infos_outcome(entries(), end, None), Ok(entries()));
}

#[test]
fn listing_that_breaks_fails() {
    let end = ListingEnd::NextFailed(os_error(5, "broken"));
    assert_eq!(
        process_infos_outcome(entries(), end, None),
        Err(listing(5, "broken"))
    );
    let end = ListingEnd::FirstFailed(os_error(NO_MORE_FILES, "no more files"));
    assert_eq!(
        process_infos_outcome(Vec::new(), end, None),
        Err(listing(NO_MORE_FILES, "no more files"))
    );
}

#[test]
fn listing_with_oversized_entry_fails() {
    assert_eq!(
        process_infos_outcome(Vec::new(), ListingEnd::EntrySizeTooLarge, None),
        Err(Error::InvalidCast { reason: "size of PROCESSENTRY32 to u32".to_string() })
    );
}

#[test]
fn listing_whose_handle_stays_open_fails() {
    let end = ListingEnd::NextFailed(os_error(NO_MORE_FILES, "no more files"));
    assert_eq!(
        process_infos_outcome(entries(), end, Some(os_error(6, "handle"))),
        Err(listing(6, "handle"))
    );
}

#[test]
fn negative_numbers_name_no_process() {
    assert_eq!(candidate_process_ids(&vec![0, 1, -1, 312, -2147483648, 2147483647]), vec![
        0, 1, 312, 2147483647
    ]);
    assert_eq!(candidate_process_ids(&vec![-5]), Vec::<u32>::new());
    assert_eq!(candidate_process_ids(&Vec::new()), Vec::<u32>::new());
}
