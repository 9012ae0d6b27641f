use rctool_core::watch::{keep_awake_wanted, PresenceDto, Settings, Supervisor, MAX_UNLOCK_ATTEMPTS};

fn settings(keep_awake: bool, auto_unlock: bool) -> Settings {
    Settings { bound_id: None, keep_awake, auto_unlock }
}

#[test]
fn keep_awake_only_when_enabled_and_present() {
    assert!(keep_awake_wanted(&settings(true, false), true));
    assert!(!keep_awake_wanted(&settings(true, false), false));
    assert!(!keep_awake_wanted(&settings(false, false), true));
}

#[test]
fn unlock_is_tried_at_most_three_times_five_seconds_apart() {
    let s = settings(false, true);
    let mut sup = Supervisor::new();
    let mut tries = 0;
    let mut now = 0u64;
    while now < 60_000 {
        sup.observe_lock(true);
        if sup.unlock_due(&s, true, true, now) {
            sup.unlock_outcome(true, now);
            tries += 1;
        }
        now += 2_000;
    }
    assert_eq!(tries, MAX_UNLOCK_ATTEMPTS);
    // Unlocking starts a fresh round.
    sup.observe_lock(false);
    sup.observe_lock(true);
    assert!(sup.unlock_due(&s, true, true, now));
}

#[test]
fn missing_password_stops_attempts_for_this_lock() {
    let s = settings(false, true);
    let mut sup = Supervisor::new();
    sup.observe_lock(true);
    assert!(sup.unlock_due(&s, true, true, 0));
    sup.unlock_outcome(false, 0);
    assert!(!sup.unlock_due(&s, true, true, 100_000));
    assert!(!Supervisor::new().unlock_due(&s, false, true, 0));
    assert!(!Supervisor::new().unlock_due(&s, true, false, 0));
    assert!(!Supervisor::new().unlock_due(&settings(true, false), true, true, 0));
}

#[test]
fn status_is_reported_only_on_change() {
    let mut sup = Supervisor::new();
    let a = PresenceDto { present: true, keeping_awake: false };
    let b = PresenceDto { present: true, keeping_awake: true };
    assert!(sup.report(a));
    assert!(!sup.report(a));
    assert!(sup.report(b));
    assert!(sup.report(a));
}
