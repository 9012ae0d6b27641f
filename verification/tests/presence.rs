use rctool_core::presence::{
    remember_remote, seen_now, sort_remotes, Presence, PresenceOptions, PresenceTracker, RemoteInfo,
};

fn info(id: &str, name: &str, connected: bool) -> RemoteInfo {
    RemoteInfo { id: id.to_string(), name: name.to_string(), connected }
}

#[test]
fn first_poll_reports_and_flips_are_debounced() {
    let mut t = PresenceTracker::new();
    // Not there at start-up: absent right away, no grace period.
    assert_eq!(t.observe(false, 1_000, 90_000), Some(Presence::Absent));
    assert_eq!(t.observe(false, 6_000, 90_000), None);
    assert_eq!(t.observe(true, 11_000, 90_000), Some(Presence::Present));
    assert_eq!(t.observe(true, 16_000, 90_000), None);
    // Missing, but within the grace period: still present.
    assert_eq!(t.observe(false, 21_000, 90_000), None);
    assert_eq!(t.observe(false, 100_000, 90_000), None);
    // Missing for 90 s in a row: absent.
    assert_eq!(t.observe(false, 111_000, 90_000), Some(Presence::Absent));
}

#[test]
fn seen_again_resets_the_grace_period() {
    let mut t = PresenceTracker::new();
    assert_eq!(t.observe(true, 0, 1_000), Some(Presence::Present));
    assert_eq!(t.observe(false, 500, 1_000), None);
    assert_eq!(t.observe(true, 900, 1_000), None);
    assert_eq!(t.observe(false, 1_200, 1_000), None);
    assert_eq!(t.observe(false, 2_100, 1_000), None);
    assert_eq!(t.observe(false, 2_200, 1_000), Some(Presence::Absent));
}

#[test]
fn default_options() {
    let o = PresenceOptions::default();
    assert_eq!(o.bound_id, None);
    assert_eq!(o.poll_interval, 5_000);
    assert_eq!(o.absent_after, 90_000);
}

#[test]
fn bound_remote_must_be_the_one_connected() {
    let ids = vec!["aaa".to_string(), "bbb".to_string()];
    assert!(seen_now(&ids, None));
    assert!(seen_now(&ids, Some("bbb")));
    assert!(!seen_now(&ids, Some("ccc")));
    assert!(!seen_now(&[], None));
}

#[test]
fn remotes_are_deduplicated_and_ordered() {
    let mut found = Vec::new();
    remember_remote(&mut found, info("1", "Some Remote", false));
    remember_remote(&mut found, info("2", "MI RC", false));
    remember_remote(&mut found, info("3", "Other", true));
    remember_remote(&mut found, info("4", "MI RC", true));
    remember_remote(&mut found, info("2", "duplicate", true));
    assert_eq!(found.len(), 4);
    let sorted = sort_remotes(found);
    let ids: Vec<&str> = sorted.iter().map(|r| r.id.as_str()).collect();
    assert_eq!(ids, vec!["4", "3", "2", "1"]);
}
