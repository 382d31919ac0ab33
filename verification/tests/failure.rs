use aseqkeeper::failure::{Failure, Recovery};

#[test]
fn a_missing_port_is_waited_for() {
    assert_eq!(Failure::Unavailable.recovery(), Recovery::Defer);
}

#[test]
fn a_refused_subscription_is_logged_and_passed_over() {
    assert_eq!(Failure::Rejected.recovery(), Recovery::LogAndContinue);
}

#[test]
fn a_failed_lookup_falls_back() {
    assert_eq!(Failure::LookupFailed.recovery(), Recovery::Fallback);
}

#[test]
fn a_failed_write_ends_the_run() {
    assert_eq!(Failure::WriteFailed.recovery(), Recovery::Abort);
}

#[test]
fn nothing_but_a_failed_write_ends_the_run() {
    for failure in [Failure::Unavailable, Failure::Rejected, Failure::LookupFailed] {
        assert_ne!(failure.recovery(), Recovery::Abort);
    }
}
