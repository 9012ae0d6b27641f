use rctool_core::hidmap::{
    cg_flags, Effect, Permissions, ReaderState, Shared, ARM_TTL_MS, FLAG_COMMAND, FLAG_FN, FLAG_SHIFT,
};
use rctool_core::keymap::{Action, Injection, KeyMap, Mods, RemoteButton};

#[test]
fn permissions_ready_needs_both() {
    assert!(Permissions { input_monitoring: true, accessibility: true }.ready());
    assert!(!Permissions { input_monitoring: true, accessibility: false }.ready());
    assert!(!Permissions { input_monitoring: false, accessibility: true }.ready());
}

#[test]
fn modifier_flags() {
    assert_eq!(cg_flags(Mods::none()), 0);
    assert_eq!(cg_flags(Mods::command().union(Mods::shift())), FLAG_COMMAND | FLAG_SHIFT);
    assert_eq!(cg_flags(Mods::fn_key()), FLAG_FN);
    assert_eq!(cg_flags(Mods(0x1F)), 0x9E_0000);
}

#[test]
fn armed_events_cancel_once_within_the_window() {
    let mut s = Shared::new(KeyMap::with_defaults());
    s.arm(50, true, 1_000);
    assert!(!s.take_match(50, false, 1_010));
    assert!(s.take_match(50, true, 1_010));
    assert!(!s.take_match(50, true, 1_020));
    s.arm(50, false, 2_000);
    assert!(!s.take_match(50, false, 2_000 + ARM_TTL_MS));
}

#[test]
fn armed_list_is_capped() {
    let mut s = Shared::new(KeyMap::with_defaults());
    for k in 0..70u16 {
        s.arm(k, true, 10);
    }
    // The six oldest entries were dropped.
    assert!(!s.take_match(0, true, 11));
    assert!(!s.take_match(5, true, 11));
    assert!(s.take_match(6, true, 11));
    assert!(s.take_match(69, true, 11));
}

#[test]
fn tv_press_and_release_remaps_and_cancels_native() {
    let map = KeyMap::with_defaults();
    let mut r = ReaderState::new();
    let down = r.handle_report(&map, 1, &[0x35, 0x00]);
    let app_switcher = Injection { keycode: 48, mods: Mods::command() };
    assert_eq!(
        down,
        vec![Effect::Arm { keycode: 50, down: true }, Effect::Emit { injection: app_switcher, down: true }]
    );
    let up = r.handle_report(&map, 1, &[0x00, 0x00]);
    assert_eq!(
        up,
        vec![Effect::Arm { keycode: 50, down: false }, Effect::Emit { injection: app_switcher, down: false }]
    );
}

#[test]
fn back_key_injects_without_arming_and_arrows_pass() {
    let map = KeyMap::with_defaults();
    let mut r = ReaderState::new();
    let effects = r.handle_report(&map, 1, &[0x01, 0xF1, 0x00, 0x52, 0x00, 0x00, 0x00]);
    assert_eq!(
        effects,
        vec![Effect::Emit { injection: Injection { keycode: 51, mods: Mods::none() }, down: true }]
    );
    // Repeating the same report changes nothing.
    assert!(r.handle_report(&map, 1, &[0xF1, 0x00, 0x52, 0x00]).is_empty());
    // Releasing everything held on disconnect.
    let released = r.release_all_held();
    assert_eq!(
        released,
        vec![Effect::Emit { injection: Injection { keycode: 51, mods: Mods::none() }, down: false }]
    );
    assert!(r.release_all_held().is_empty());
}

#[test]
fn disabled_key_only_arms_and_bad_reports_are_ignored() {
    let mut map = KeyMap::with_defaults();
    map.set(RemoteButton::Up, Action::Disabled);
    let mut r = ReaderState::new();
    assert_eq!(r.handle_report(&map, 1, &[0x52, 0x00]), vec![Effect::Arm { keycode: 126, down: true }]);
    assert!(r.handle_report(&map, 2, &[0x00, 0x00]).is_empty());
    assert_eq!(r.handle_report(&map, 1, &[0x00, 0x00]), vec![Effect::Arm { keycode: 126, down: false }]);
    // The microphone usage belongs to no button.
    assert!(r.handle_report(&map, 1, &[0x3E, 0x00]).is_empty());
}

#[test]
fn keymap_hot_swap() {
    let mut s = Shared::new(KeyMap::with_defaults());
    let mut m = KeyMap::with_defaults();
    m.set(RemoteButton::Tv, Action::Escape);
    s.update_keymap(m);
    assert_eq!(s.keymap().action(RemoteButton::Tv), Action::Escape);
}
