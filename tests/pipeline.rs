use gateslam::pipeline::{check_new_ip, judge_new_ip, Stage, Verification, VerifyAction, VerifyError, VerifyEvent};

fn s(text: &str) -> String {
    text.to_string()
}

#[test]
fn unchanged_address_is_no_change() {
    for ip in ["203.0.113.7", "::1", "", "not an address"] {
        assert!(matches!(check_new_ip(&s(ip), &s(ip)), Err(VerifyError::NoIPChange)));
    }
}

#[test]
fn malformed_addresses_are_rejected() {
    let initial = s("198.51.100.1");
    for ip in ["::1", "", "999.999.999.999.999", "<html>error</html>", "1.2.3.4\n"] {
        assert!(matches!(check_new_ip(&initial, &s(ip)), Err(VerifyError::MalformedIP)), "{}", ip);
    }
}

#[test]
fn dotted_quad_is_accepted() {
    assert!(check_new_ip(&s("198.51.100.1"), &s("203.0.113.7")).is_ok());
    assert!(check_new_ip(&s("198.51.100.1"), &s("999.999.999.999")).is_ok());
}

#[test]
fn verdict_from_given_form() {
    assert!(matches!(judge_new_ip(&s("a"), &s("a"), true), Err(VerifyError::NoIPChange)));
    assert!(matches!(judge_new_ip(&s("a"), &s("b"), false), Err(VerifyError::MalformedIP)));
    assert!(judge_new_ip(&s("a"), &s("b"), true).is_ok());
}

#[test]
fn verification_succeeds_through_both_stages() {
    let mut v = Verification::new(4, s("198.51.100.1"));
    assert_eq!(v.stage, Stage::Connecting);
    assert!(matches!(v.step(VerifyEvent::Connected), VerifyAction::StartProbe));
    assert_eq!(v.stage, Stage::Probing);
    match v.step(VerifyEvent::Probed(s("203.0.113.7"))) {
        VerifyAction::Succeed(ip) => assert_eq!(ip, "203.0.113.7"),
        _ => panic!("a new dotted-quad address must verify"),
    }
    assert_eq!(v.stage, Stage::Done);
    assert_eq!(v.index, 4);
}

#[test]
fn connect_failures_end_the_verification() {
    let mut v = Verification::new(0, s("198.51.100.1"));
    assert!(matches!(v.step(VerifyEvent::ConnectTimedOut), VerifyAction::Fail(VerifyError::ConnectTimeout)));
    assert_eq!(v.stage, Stage::Done);
    let mut w = Verification::new(1, s("198.51.100.1"));
    match w.step(VerifyEvent::ConnectFailed(s("spawn failed"))) {
        VerifyAction::Fail(VerifyError::ConnectFailed(why)) => assert_eq!(why, "spawn failed"),
        _ => panic!("a failed connect must fail the verification"),
    }
}

#[test]
fn probe_failures_end_the_verification() {
    let mut v = Verification::new(0, s("198.51.100.1"));
    v.step(VerifyEvent::Connected);
    assert!(matches!(v.step(VerifyEvent::ProbeTimedOut), VerifyAction::Fail(VerifyError::ProbeTimeout)));
    let mut w = Verification::new(0, s("198.51.100.1"));
    w.step(VerifyEvent::Connected);
    match w.step(VerifyEvent::ProbeFailed(s("refused"))) {
        VerifyAction::Fail(VerifyError::ProbeFailed(why)) => assert_eq!(why, "refused"),
        _ => panic!("a failed probe must fail the verification"),
    }
    let mut x = Verification::new(0, s("198.51.100.1"));
    x.step(VerifyEvent::Connected);
    assert!(matches!(x.step(VerifyEvent::Probed(s("198.51.100.1"))), VerifyAction::Fail(VerifyError::NoIPChange)));
}

#[test]
fn events_of_another_stage_are_ignored() {
    let mut v = Verification::new(0, s("198.51.100.1"));
    assert!(matches!(v.step(VerifyEvent::Probed(s("203.0.113.7"))), VerifyAction::Ignore));
    assert_eq!(v.stage, Stage::Connecting);
    v.step(VerifyEvent::Connected);
    assert!(matches!(v.step(VerifyEvent::Connected), VerifyAction::Ignore));
    v.step(VerifyEvent::ProbeTimedOut);
    assert!(matches!(v.step(VerifyEvent::Connected), VerifyAction::Ignore));
    assert_eq!(v.stage, Stage::Done);
}
