use rctool_core::keymap::{
    parse_report_usages, Action, AppKeyMaps, AppProfile, Disposition, Injection, KeyMap, Mods,
    RemoteButton,
};

#[test]
fn report_parser_strips_report_id_and_reads_pairs() {
    let usages = parse_report_usages(1, &[0x01, 0x28, 0x00, 0x51, 0x00, 0x00, 0x00]).unwrap();
    assert!(usages.contains(&0x28) && usages.contains(&0x51));
    let usages = parse_report_usages(1, &[0xF1, 0x00]).unwrap();
    assert_eq!(usages, vec![0xF1]);
    assert_eq!(parse_report_usages(2, &[0x28, 0x00]), None);
    assert_eq!(parse_report_usages(1, &[0x28, 0x00, 0x51]), None);
}

#[test]
fn report_parser_edge_cases() {
    assert_eq!(parse_report_usages(1, &[]), None);
    assert_eq!(parse_report_usages(1, &[0x01]), None);
    // A 7-byte report whose first byte is not the report id is odd-length: rejected.
    assert_eq!(parse_report_usages(1, &[0x02, 0x28, 0x00, 0x51, 0x00, 0x00, 0x00]), None);
    // Little-endian pairs; zero pairs are skipped.
    assert_eq!(parse_report_usages(1, &[0x00, 0x00, 0x34, 0x12]), Some(vec![0x1234]));
    assert_eq!(parse_report_usages(1, &[0x00, 0x00]), Some(vec![]));
}

#[test]
fn defaults_fold_identity_mappings_to_passthrough() {
    let map = KeyMap::with_defaults();
    for b in [
        RemoteButton::Up,
        RemoteButton::Down,
        RemoteButton::Left,
        RemoteButton::Right,
        RemoteButton::OkKey,
        RemoteButton::VolumeUp,
        RemoteButton::VolumeDown,
    ] {
        assert_eq!(map.disposition(b), Disposition::Passthrough, "{}", b.label());
    }
}

#[test]
fn defaults_manage_exactly_the_five_problem_keys() {
    let map = KeyMap::with_defaults();
    let managed = map.managed_buttons();
    assert_eq!(managed.len(), 5);
    for b in [
        RemoteButton::Power,
        RemoteButton::Back,
        RemoteButton::Tv,
        RemoteButton::Home,
        RemoteButton::Menu,
    ] {
        assert!(managed.contains(&b), "{} 应被管理", b.label());
    }
}

#[test]
fn managed_buttons_come_in_button_order() {
    let map = KeyMap::with_defaults();
    assert_eq!(
        map.managed_buttons(),
        vec![
            RemoteButton::Power,
            RemoteButton::Back,
            RemoteButton::Home,
            RemoteButton::Menu,
            RemoteButton::Tv
        ]
    );
}

#[test]
fn back_key_remaps_without_native_to_suppress() {
    let map = KeyMap::with_defaults();
    assert_eq!(
        map.disposition(RemoteButton::Back),
        Disposition::Remap(Injection { keycode: 51, mods: Mods::none() })
    );
    assert_eq!(RemoteButton::Back.native(), None);
}

#[test]
fn tv_remap_carries_appswitcher_injection() {
    let map = KeyMap::with_defaults();
    assert_eq!(
        map.disposition(RemoteButton::Tv),
        Disposition::Remap(Injection { keycode: 48, mods: Mods::command() })
    );
}

#[test]
fn setting_arrow_to_its_native_is_passthrough() {
    let mut map = KeyMap::with_defaults();
    map.set(RemoteButton::Up, Action::ArrowUp);
    assert_eq!(map.disposition(RemoteButton::Up), Disposition::Passthrough);
    map.set(RemoteButton::Up, Action::Escape);
    assert_eq!(
        map.disposition(RemoteButton::Up),
        Disposition::Remap(Injection { keycode: 53, mods: Mods::none() })
    );
}

#[test]
fn disabling_a_native_key_suppresses_but_deadkey_passes() {
    let mut map = KeyMap::with_defaults();
    map.set(RemoteButton::Tv, Action::Disabled);
    assert_eq!(map.disposition(RemoteButton::Tv), Disposition::Suppress);
    map.set(RemoteButton::Back, Action::Disabled);
    assert_eq!(map.disposition(RemoteButton::Back), Disposition::Passthrough);
}

#[test]
fn action_and_button_id_roundtrip() {
    for a in Action::ASSIGNABLE {
        assert_eq!(Action::from_id(a.id()), Some(a));
    }
    for b in RemoteButton::ALL {
        assert_eq!(RemoteButton::from_id(b.id()), Some(b));
    }
}

#[test]
fn unknown_ids_and_usages_are_rejected() {
    assert_eq!(Action::from_id("native"), Some(Action::Native));
    assert_eq!(Action::from_id("disabled"), Some(Action::Disabled));
    assert_eq!(Action::from_id("Escape"), None);
    assert_eq!(RemoteButton::from_id(""), None);
    assert_eq!(RemoteButton::from_id("volume"), None);
    assert_eq!(RemoteButton::from_hid_usage(0x3E), None);
    for b in RemoteButton::ALL {
        assert_eq!(RemoteButton::from_hid_usage(b.hid_usage()), Some(b));
        assert_eq!(RemoteButton::ALL[b.index()], b);
    }
}

#[test]
fn injections_and_mods() {
    assert_eq!(Action::Native.injection(), None);
    assert_eq!(Action::Disabled.injection(), None);
    assert_eq!(
        Action::MissionControl.injection(),
        Some(Injection { keycode: 126, mods: Mods::control() })
    );
    assert_eq!(
        Action::ShowDesktop.injection(),
        Some(Injection { keycode: 103, mods: Mods::fn_key() })
    );
    let both = Mods::command().union(Mods::shift());
    assert!(both.contains(Mods::command()) && both.contains(Mods::shift()));
    assert!(!both.contains(Mods::option()));
    assert!(both.contains(Mods::none()));
    assert_eq!(Action::Space.label(), "空格");
    assert_eq!(RemoteButton::VolumeUp.id(), "volume_up");
}

#[test]
fn keymap_set_changes_one_key_only() {
    let mut map = KeyMap::default();
    map.set(RemoteButton::Menu, Action::Tab);
    assert_eq!(map.action(RemoteButton::Menu), Action::Tab);
    assert_eq!(map.action(RemoteButton::Home), Action::MissionControl);
    let copy = map.copy();
    assert_eq!(copy.action(RemoteButton::Menu), Action::Tab);
}

fn maps_with_safari_override() -> AppKeyMaps {
    let mut maps = AppKeyMaps::new(KeyMap::with_defaults());
    maps.profile_mut("com.apple.Safari", "Safari").set(RemoteButton::Tv, Action::Escape);
    maps
}

#[test]
fn resolve_falls_back_to_base_without_profile() {
    let maps = maps_with_safari_override();
    for bundle in [None, Some("com.apple.Finder")] {
        let map = maps.resolve(bundle);
        assert_eq!(map.action(RemoteButton::Tv), Action::AppSwitcher);
    }
}

#[test]
fn resolve_applies_only_overridden_keys() {
    let maps = maps_with_safari_override();
    let map = maps.resolve(Some("com.apple.Safari"));
    assert_eq!(map.action(RemoteButton::Tv), Action::Escape);
    assert_eq!(map.action(RemoteButton::Back), Action::Delete);
    assert_eq!(
        map.disposition(RemoteButton::Tv),
        Disposition::Remap(Injection { keycode: 53, mods: Mods::none() })
    );
}

#[test]
fn disabled_profile_is_bypassed_but_kept() {
    let mut maps = maps_with_safari_override();
    maps.profile_mut("com.apple.Safari", "Safari").enabled = false;
    assert_eq!(maps.resolve(Some("com.apple.Safari")).action(RemoteButton::Tv), Action::AppSwitcher);
    maps.profile_mut("com.apple.Safari", "Safari").enabled = true;
    assert_eq!(maps.resolve(Some("com.apple.Safari")).action(RemoteButton::Tv), Action::Escape);
}

#[test]
fn base_changes_flow_through_uncovered_keys() {
    let mut maps = maps_with_safari_override();
    let mut base = maps.base().clone();
    base.set(RemoteButton::Back, Action::Escape);
    maps.set_base(base);
    let map = maps.resolve(Some("com.apple.Safari"));
    assert_eq!(map.action(RemoteButton::Back), Action::Escape);
    assert_eq!(map.action(RemoteButton::Tv), Action::Escape);
}

#[test]
fn diff_lists_only_real_differences_in_button_order() {
    let mut maps = AppKeyMaps::new(KeyMap::with_defaults());
    {
        let p = maps.profile_mut("com.apple.Safari", "Safari");
        p.set(RemoteButton::Tv, Action::Escape);
        p.set(RemoteButton::Back, Action::Delete);
        p.set(RemoteButton::Power, Action::Disabled);
    }
    let diff = maps.diff("com.apple.Safari");
    let buttons: Vec<RemoteButton> = diff.iter().map(|d| d.button).collect();
    assert_eq!(buttons, vec![RemoteButton::Power, RemoteButton::Tv]);
    assert_eq!(diff[0].base, Action::Escape);
    assert_eq!(diff[0].app, Action::Disabled);
    assert!(maps.diff("com.unknown.App").is_empty());
}

#[test]
fn clearing_an_override_returns_the_key_to_base() {
    let mut maps = maps_with_safari_override();
    maps.profile_mut("com.apple.Safari", "Safari").clear(RemoteButton::Tv);
    assert!(maps.profile("com.apple.Safari").unwrap().is_empty());
    assert_eq!(maps.resolve(Some("com.apple.Safari")).action(RemoteButton::Tv), Action::AppSwitcher);
    maps.remove("com.apple.Safari");
    assert!(maps.profiles().is_empty());
}

#[test]
fn profile_mut_reuses_existing_layer() {
    let mut maps = AppKeyMaps::default();
    maps.profile_mut("a", "A").set(RemoteButton::Up, Action::Tab);
    maps.profile_mut("b", "B");
    maps.profile_mut("a", "other name").set(RemoteButton::Down, Action::Tab);
    assert_eq!(maps.profiles().len(), 2);
    let a = maps.profile("a").unwrap();
    assert_eq!(a.name, "A");
    assert_eq!(a.entries(), vec![(RemoteButton::Up, Action::Tab), (RemoteButton::Down, Action::Tab)]);
    maps.remove("a");
    assert_eq!(maps.profiles().len(), 1);
    assert_eq!(maps.profiles()[0].bundle_id, "b");
}

#[test]
fn profile_clear_all_and_get() {
    let mut p = AppProfile::new("x", "X");
    assert!(p.is_empty());
    p.set(RemoteButton::OkKey, Action::Space);
    assert_eq!(p.get(RemoteButton::OkKey), Some(Action::Space));
    p.clear_all();
    assert!(p.is_empty());
    assert_eq!(p.get(RemoteButton::OkKey), None);
}
