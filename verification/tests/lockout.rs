use snake::auth::{judge_pin, pin_decision, PinOutcome};
use snake::limits::{AttemptLog, ClientCounters, RateLimiter};

#[test]
fn rate_limit_blocks_over_budget() {
    let mut rl = RateLimiter::with_limits(1, 60);
    assert!(rl.check("127.0.0.1", 1000));
    assert!(!rl.check("127.0.0.1", 1000));
}

#[test]
fn rate_limit_window_resets_and_clients_are_separate() {
    let mut rl = RateLimiter::with_limits(2, 60);
    assert!(rl.check("a", 0));
    assert!(rl.check("a", 10));
    assert!(!rl.check("a", 59));
    assert!(rl.check("b", 59));
    assert!(rl.check("a", 60));
    rl.cleanup(200);
    assert!(rl.check("a", 200));
}

#[test]
fn counters_behave_like_a_map() {
    let mut c = ClientCounters::new();
    assert_eq!(c.get("x"), None);
    c.set("x", 3, 7);
    c.set("y", 1, 9);
    c.set("x", 4, 8);
    assert_eq!(c.get("x"), Some((4, 8)));
    assert_eq!(c.get("y"), Some((1, 9)));
    c.remove("x");
    assert_eq!(c.get("x"), None);
    assert_eq!(c.get("y"), Some((1, 9)));
    c.retain_live(10, 19);
    assert_eq!(c.get("y"), None);
}

#[test]
fn failures_count_up_and_lock_out() {
    let mut log = AttemptLog::new();
    assert_eq!(log.record_failure("ip", 900, 100), 1);
    assert_eq!(log.record_failure("ip", 900, 200), 2);
    assert!(!log.is_locked_out("ip", 3, 900, 200));
    assert_eq!(log.record_failure("ip", 900, 300), 3);
    assert!(log.is_locked_out("ip", 3, 900, 300));
    assert_eq!(log.lockout_remaining_secs("ip", 900, 300), 900);
    assert!(log.is_locked_out("ip", 3, 900, 1199));
    assert!(!log.is_locked_out("ip", 3, 900, 1200));
    assert_eq!(log.record_failure("ip", 900, 1300), 1);
    log.reset("ip");
    assert!(!log.is_locked_out("ip", 1, 900, 1300));
    log.record_failure("other", 900, 0);
    log.forget_expired(900, 900);
    assert_eq!(log.lockout_remaining_secs("other", 900, 900), 0);
}

#[test]
fn pin_decision_covers_every_outcome() {
    assert_eq!(pin_decision(None, true, 600, 5, 5, "x"), PinOutcome::Open);
    assert_eq!(pin_decision(Some("1234"), true, 61, 5, 5, "1234"), PinOutcome::LockedOut { minutes: 2 });
    assert_eq!(pin_decision(Some("1234"), false, 0, 5, 1, "12"), PinOutcome::BadFormat);
    assert_eq!(pin_decision(Some("1234"), false, 0, 5, 2, "9999"), PinOutcome::Mismatch { attempts_left: 3 });
    assert_eq!(pin_decision(Some("1234"), false, 0, 5, 7, "9999"), PinOutcome::Mismatch { attempts_left: 0 });
    assert_eq!(pin_decision(Some("1234"), false, 0, 5, 0, "1234"), PinOutcome::Accepted);
}

#[test]
fn verify_pin_flow_locks_out_then_recovers() {
    let mut log = AttemptLog::new();
    let pin = Some("1234");
    assert_eq!(judge_pin(&mut log, "ip", pin, "0000", 3, 900, 0), PinOutcome::Mismatch { attempts_left: 2 });
    assert_eq!(judge_pin(&mut log, "ip", pin, "12", 3, 900, 1), PinOutcome::BadFormat);
    assert_eq!(judge_pin(&mut log, "ip", pin, "0000", 3, 900, 2), PinOutcome::Mismatch { attempts_left: 0 });
    assert_eq!(judge_pin(&mut log, "ip", pin, "1234", 3, 900, 3), PinOutcome::LockedOut { minutes: 15 });
    assert_eq!(judge_pin(&mut log, "ip", pin, "1234", 3, 900, 902), PinOutcome::Accepted);
    assert!(!log.is_locked_out("ip", 1, 900, 902));
    assert_eq!(judge_pin(&mut log, "ip", None, "x", 3, 900, 903), PinOutcome::Open);
}
