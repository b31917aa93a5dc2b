use windash::process::{termination_allowed, termination_failure_message};

#[test]
fn termination_allowed_only_for_the_process_shown() {
    let live = || Some((1_700_000_000u64, "notepad.exe".to_string()));
    assert_eq!(termination_allowed(42, 1_700_000_000, Some("notepad.exe"), 7, live()), Ok(()));
    assert_eq!(termination_allowed(42, 1_700_000_000, None, 7, live()), Ok(()));
    assert_eq!(
        termination_allowed(7, 1_700_000_000, None, 7, live()),
        Err("Refusing to terminate Windash itself.".to_string())
    );
    assert_eq!(
        termination_allowed(42, 1_700_000_000, None, 7, None),
        Err("Process 42 is no longer running.".to_string())
    );
    assert_eq!(
        termination_allowed(42, 1_600_000_000, Some("notepad.exe"), 7, live()),
        Err("Process 42 was restarted or its id reused (start time differs); not terminated.".to_string())
    );
    assert_eq!(
        termination_allowed(42, 1_700_000_000, Some("calc.exe"), 7, live()),
        Err("Process 42 is not the expected program (name differs); not terminated.".to_string())
    );
    // Names are compared exactly.
    assert!(termination_allowed(42, 1_700_000_000, Some("Notepad.exe"), 7, live()).is_err());
}

#[test]
fn termination_failure_message_trims_stderr() {
    assert_eq!(
        termination_failure_message(1234, "  ERROR: Access is denied.\r\n"),
        "Unable to terminate process 1234. Administrator permission may be required. ERROR: Access is denied."
    );
    assert_eq!(
        termination_failure_message(0, ""),
        "Unable to terminate process 0. Administrator permission may be required. "
    );
}
