use rctool_core::bridge::{accepts_advertisement, accepts_device, dispatch_actions, pick_connected, wind_down};
use rctool_core::config::{
    app_key_maps, clear_app_bindings, key_map, rebind_button, set_app_binding, set_app_profile_enabled,
    AppProfile,
};
use rctool_core::frontapp::{order_by_keys, order_running_apps, FrontApp, FrontState};
use rctool_core::keymap::{Action as KeyAction, RemoteButton};
use rctool_core::loopback::{select_output_device, select_with_lowered};
use rctool_core::session::{Action, AtvvSession};
use rctool_core::sink::AudioSink;

#[derive(Default)]
struct Log {
    events: Vec<String>,
}

impl AudioSink for Log {
    fn on_stream_start(&mut self) {
        self.events.push("start".into());
    }
    fn push(&mut self, pcm: &[i16]) {
        self.events.push(format!("pcm{}", pcm.len()));
    }
    fn on_stream_stop(&mut self) {
        self.events.push("stop".into());
    }
}

fn names(list: &[Option<&str>]) -> Vec<Option<String>> {
    list.iter().map(|n| n.map(|s| s.to_string())).collect()
}

#[test]
fn output_device_exact_name_wins_over_substring() {
    let devs = names(&[Some("BlackHole 16ch"), None, Some("BlackHole 2ch")]);
    assert_eq!(select_output_device(&devs, "BlackHole 2ch"), Some(2));
}

#[test]
fn output_device_falls_back_to_case_insensitive_substring() {
    let devs = names(&[Some("MacBook Speakers"), None, Some("BlackHole 2ch"), Some("blackhole 16ch")]);
    assert_eq!(select_output_device(&devs, "BLACKHOLE"), Some(2));
    assert_eq!(select_output_device(&devs, "cable"), None);
    assert_eq!(select_output_device(&[], "x"), None);
}

#[test]
fn dispatch_routes_stream_events_to_sink_and_returns_radio_work() {
    let mut actions = vec![
        Action::SendTx(vec![0x0C, 0x00]),
        Action::StreamStarted,
        Action::Pcm(vec![1, 2, 3]),
        Action::SendTx(vec![0x0D]),
        Action::StreamStopped,
    ];
    let mut sink = Log::default();
    let d = dispatch_actions(&mut actions, &mut sink);
    assert!(actions.is_empty());
    assert_eq!(d.outgoing, vec![vec![0x0C, 0x00], vec![0x0D]]);
    assert_eq!(d.fatal, None);
    assert_eq!(sink.events, vec!["start", "pcm3", "stop"]);
}

#[test]
fn dispatch_reports_the_last_fatal_error() {
    let mut actions = vec![Action::Fatal("a".into()), Action::StreamStarted, Action::Fatal("b".into())];
    let mut sink = Log::default();
    let d = dispatch_actions(&mut actions, &mut sink);
    assert_eq!(d.fatal, Some("b".to_string()));
    assert!(d.outgoing.is_empty());
}

#[test]
fn wind_down_stops_stream_and_hands_out_mic_close() {
    let mut s = AtvvSession::new();
    let mut actions = Vec::new();
    s.handle_control(&[0x0B, 0x01, 0x00, 0x02, 0x03, 0x00, 0x01], 0, &mut actions);
    s.handle_control(&[0x08], 0, &mut actions);
    s.handle_control(&[0x04, 0x00, 0x02, 0x05], 0, &mut actions);
    let mut sink = Log::default();
    assert_eq!(wind_down(&mut s, &mut sink), Some(vec![0x0D, 0x05]));
    assert_eq!(sink.events, vec!["stop"]);
    assert!(!s.is_streaming());
    let mut sink2 = Log::default();
    assert_eq!(wind_down(&mut s, &mut sink2), None);
    assert!(sink2.events.is_empty());
}

fn app(id: &str, name: &str) -> FrontApp {
    FrontApp { bundle_id: id.into(), name: name.into() }
}

#[test]
fn front_state_tracks_switches_and_recent_other_app() {
    let mut st = FrontState::new();
    let (switched, recent) = st.observe(Some(app("com.apple.Safari", "Safari")), "com.rctool");
    assert!(switched);
    assert_eq!(recent, Some(app("com.apple.Safari", "Safari")));
    let (switched, recent) = st.observe(Some(app("com.apple.Safari", "Safari")), "com.rctool");
    assert!(!switched);
    assert_eq!(recent, Some(app("com.apple.Safari", "Safari")));
    let (switched, recent) = st.observe(Some(app("com.rctool", "RCTool")), "com.rctool");
    assert!(switched);
    assert_eq!(recent, None);
    assert_eq!(st.recent, Some(app("com.apple.Safari", "Safari")));
    assert_eq!(st.active, Some(app("com.rctool", "RCTool")));
    let (switched, _) = st.observe(None, "com.rctool");
    assert!(switched);
}

#[test]
fn running_apps_sorted_by_lowercase_name_and_deduplicated() {
    let apps = vec![
        app("b", "beta"),
        app("a", "Alpha"),
        app("c", "alpha"),
        app("b", "Beta"),
        app("z", "Zed"),
    ];
    let out = order_running_apps(apps);
    let ids: Vec<&str> = out.iter().map(|a| a.bundle_id.as_str()).collect();
    assert_eq!(ids, vec!["a", "c", "b", "z"]);
    assert_eq!(out[2].name, "beta");
}

fn pair(a: &str, b: &str) -> (String, String) {
    (a.to_string(), b.to_string())
}

#[test]
fn rebinding_a_button_replaces_its_stored_pair() {
    let mut bs = vec![pair("tv", "escape"), pair("up", "tab")];
    rebind_button(&mut bs, RemoteButton::Tv, Some(KeyAction::Return));
    assert_eq!(bs, vec![pair("up", "tab"), pair("tv", "return")]);
    assert_eq!(key_map(&bs).action(RemoteButton::Tv), KeyAction::Return);
    rebind_button(&mut bs, RemoteButton::Up, None);
    assert_eq!(bs, vec![pair("tv", "return")]);
    assert_eq!(key_map(&bs).action(RemoteButton::Up), KeyAction::ArrowUp);
}

#[test]
fn app_binding_equal_to_global_is_stored_as_no_override() {
    let global = vec![pair("tv", "return")];
    let mut profiles: Vec<AppProfile> = Vec::new();
    set_app_binding(&mut profiles, &global, "com.apple.Safari", None, RemoteButton::Tv, Some(KeyAction::Escape));
    assert_eq!(profiles.len(), 1);
    assert_eq!(profiles[0].name, "com.apple.Safari");
    assert!(profiles[0].enabled);
    assert_eq!(profiles[0].bindings, vec![pair("tv", "escape")]);
    set_app_binding(&mut profiles, &global, "com.apple.Safari", Some("Safari"), RemoteButton::Tv, Some(KeyAction::Return));
    assert_eq!(profiles.len(), 1);
    assert_eq!(profiles[0].name, "com.apple.Safari");
    assert!(profiles[0].bindings.is_empty());
    set_app_binding(&mut profiles, &global, "com.apple.Finder", Some("Finder"), RemoteButton::Up, None);
    assert_eq!(profiles.len(), 2);
    assert_eq!(profiles[1].name, "Finder");
    assert!(profiles[1].bindings.is_empty());
}

#[test]
fn app_layer_switch_and_clear_touch_only_that_layer() {
    let mut profiles = vec![
        AppProfile { bundle_id: "a".into(), name: "A".into(), enabled: true, bindings: vec![pair("tv", "escape")] },
        AppProfile { bundle_id: "b".into(), name: "B".into(), enabled: true, bindings: vec![pair("up", "tab")] },
    ];
    set_app_profile_enabled(&mut profiles, "b", false);
    assert!(profiles[0].enabled);
    assert!(!profiles[1].enabled);
    clear_app_bindings(&mut profiles, "a");
    assert!(profiles[0].bindings.is_empty());
    assert_eq!(profiles[1].bindings, vec![pair("up", "tab")]);
    set_app_profile_enabled(&mut profiles, "missing", false);
    clear_app_bindings(&mut profiles, "missing");
    assert_eq!(profiles.len(), 2);
}

#[test]
fn app_override_resolves_for_that_app_only_and_clears_back_to_global() {
    let global = vec![pair("tv", "return")];
    let mut profiles: Vec<AppProfile> = Vec::new();
    set_app_binding(&mut profiles, &global, "com.apple.Safari", Some("Safari"), RemoteButton::Tv, Some(KeyAction::Escape));
    let maps = app_key_maps(&global, &profiles);
    assert_eq!(maps.resolve(Some("com.apple.Safari")).action(RemoteButton::Tv), KeyAction::Escape);
    assert_eq!(maps.resolve(Some("com.apple.Finder")).action(RemoteButton::Tv), KeyAction::Return);
    assert_eq!(maps.resolve(None).action(RemoteButton::Tv), KeyAction::Return);
    set_app_binding(&mut profiles, &global, "com.apple.Safari", None, RemoteButton::Tv, Some(KeyAction::Return));
    let maps = app_key_maps(&global, &profiles);
    assert_eq!(maps.resolve(Some("com.apple.Safari")).action(RemoteButton::Tv), KeyAction::Return);
}

#[test]
fn running_apps_come_out_in_name_order_without_neighbouring_duplicates() {
    let out = order_running_apps(vec![
        app("m", "mail"),
        app("k", "Keynote"),
        app("m", "Mail"),
        app("a", "App Store"),
        app("k", "keynote"),
    ]);
    let names: Vec<&str> = out.iter().map(|a| a.name.as_str()).collect();
    assert_eq!(names, vec!["App Store", "Keynote", "mail"]);
    for w in out.windows(2) {
        assert!(w[0].name.to_lowercase() <= w[1].name.to_lowercase());
        assert_ne!(w[0].bundle_id, w[1].bundle_id);
    }
}

#[test]
fn ordering_follows_the_given_keys() {
    let apps = vec![app("x", "X"), app("y", "Y"), app("z", "Z")];
    let keys = vec!["b".to_string(), "a".to_string(), "b".to_string()];
    let out = order_by_keys(apps, keys);
    let ids: Vec<&str> = out.iter().map(|a| a.bundle_id.as_str()).collect();
    assert_eq!(ids, vec!["y", "x", "z"]);
}

#[test]
fn device_choice_uses_the_given_lowered_names() {
    let devs = names(&[Some("Speakers"), Some("Loop Out")]);
    let lowered = names(&[Some("speakers"), Some("loop out")]);
    assert_eq!(select_with_lowered(&devs, &lowered, "Loop Out", "loop out"), Some(1));
    assert_eq!(select_with_lowered(&devs, &lowered, "LOOP", "loop"), Some(1));
    assert_eq!(select_with_lowered(&devs, &lowered, "mic", "mic"), None);
}

#[test]
fn only_the_bound_remote_is_accepted() {
    assert!(accepts_device("AA-BB", None));
    assert!(accepts_device("AA-BB", Some("AA-BB")));
    assert!(!accepts_device("CC-DD", Some("AA-BB")));
}

#[test]
fn sink_sees_a_bracketed_stream_across_batches_and_wind_down() {
    let mut s = AtvvSession::new();
    let mut sink = Log::default();
    let mut actions = Vec::new();
    s.handle_control(&[0x0B, 0x01, 0x00, 0x02, 0x03, 0x00, 0x01], 0, &mut actions);
    s.handle_control(&[0x00], 0, &mut actions);
    dispatch_actions(&mut actions, &mut sink);
    assert!(sink.events.is_empty());
    s.handle_audio(&[0x00], 2_000, &mut actions);
    dispatch_actions(&mut actions, &mut sink);
    s.handle_audio(&[0x00, 0x00], 2_010, &mut actions);
    dispatch_actions(&mut actions, &mut sink);
    assert_eq!(wind_down(&mut s, &mut sink), None);
    assert_eq!(sink.events, vec!["start", "pcm2", "pcm4", "stop"]);
}

#[test]
fn connected_pick_is_the_first_accepted() {
    let ids = vec!["A".to_string(), "B".to_string(), "C".to_string()];
    assert_eq!(pick_connected(&ids, None), Some(0));
    assert_eq!(pick_connected(&ids, Some("B")), Some(1));
    assert_eq!(pick_connected(&ids, Some("Z")), None);
    assert_eq!(pick_connected(&[], None), None);
}

#[test]
fn advertisement_must_look_like_the_remote_and_be_accepted() {
    assert!(accepts_advertisement(&[], Some("MI RC"), "A", None));
    assert!(!accepts_advertisement(&[], Some("MI RC"), "A", Some("B")));
    assert!(accepts_advertisement(&[], Some("MI RC"), "B", Some("B")));
    assert!(!accepts_advertisement(&[], Some("Speaker"), "B", Some("B")));
}
