use rctool_core::autostart::{escape_xml_text, plist_body};
use rctool_core::config::{app_key_maps, app_profile_mut, key_map, remove_app_profile, AppProfile};
use rctool_core::frontapp::describe;
use rctool_core::keymap::{Action, RemoteButton};
use rctool_core::sink::{AudioSink, MultiSink, NullSink};

fn pair(a: &str, b: &str) -> (String, String) {
    (a.to_string(), b.to_string())
}

#[test]
fn stored_bindings_override_defaults_and_unknown_ids_are_ignored() {
    let map = key_map(&[pair("tv", "escape"), pair("nope", "tab"), pair("up", "nope")]);
    assert_eq!(map.action(RemoteButton::Tv), Action::Escape);
    assert_eq!(map.action(RemoteButton::Up), Action::ArrowUp);
    assert_eq!(map.action(RemoteButton::Back), Action::Delete);
}

#[test]
fn stored_layers_become_app_layers() {
    let profiles = vec![
        AppProfile {
            bundle_id: "com.apple.Safari".into(),
            name: "Safari".into(),
            enabled: true,
            bindings: vec![pair("tv", "escape")],
        },
        AppProfile {
            bundle_id: "com.apple.Finder".into(),
            name: "Finder".into(),
            enabled: false,
            bindings: vec![pair("tv", "tab")],
        },
    ];
    let maps = app_key_maps(&[pair("back", "escape")], &profiles);
    assert_eq!(maps.profiles().len(), 2);
    let safari = maps.resolve(Some("com.apple.Safari"));
    assert_eq!(safari.action(RemoteButton::Tv), Action::Escape);
    assert_eq!(safari.action(RemoteButton::Back), Action::Escape);
    let finder = maps.resolve(Some("com.apple.Finder"));
    assert_eq!(finder.action(RemoteButton::Tv), Action::AppSwitcher);
}

#[test]
fn stored_layer_lookup_and_removal() {
    let mut profiles: Vec<AppProfile> = Vec::new();
    app_profile_mut(&mut profiles, "a", "A").bindings.push(pair("up", "tab"));
    app_profile_mut(&mut profiles, "b", "B");
    app_profile_mut(&mut profiles, "a", "ignored").enabled = false;
    assert_eq!(profiles.len(), 2);
    assert_eq!(profiles[0].name, "A");
    assert!(!profiles[0].enabled);
    assert_eq!(profiles[0].bindings.len(), 1);
    remove_app_profile(&mut profiles, "a");
    assert_eq!(profiles.len(), 1);
    assert_eq!(profiles[0].bundle_id, "b");
    assert!(AppProfile::default().enabled);
}

#[test]
fn plist_escapes_the_program_path() {
    assert_eq!(escape_xml_text("a&b<c>d"), "a&amp;b&lt;c&gt;d");
    let body = plist_body("/Applications/R&D <x>.app/Contents/MacOS/rctool");
    assert!(body.starts_with("<?xml version=\"1.0\" encoding=\"UTF-8\"?>\n"));
    assert!(body.contains("<string>/Applications/R&amp;D &lt;x&gt;.app/Contents/MacOS/rctool</string>"));
    assert!(body.contains("<string>dev.rctool.tray</string>"));
    assert!(body.contains("<key>RunAtLoad</key>\n    <true/>"));
    assert!(body.ends_with("</plist>\n"));
    assert!(!body.contains("KeepAlive"));
}

#[test]
fn front_app_description() {
    assert!(describe(None, Some("X")).is_none());
    let a = describe(Some("com.x"), None).unwrap();
    assert_eq!(a.name, "com.x");
    let b = describe(Some("com.x"), Some("X")).unwrap();
    assert_eq!((b.bundle_id.as_str(), b.name.as_str()), ("com.x", "X"));
}

struct Counting(std::sync::Arc<std::sync::Mutex<Vec<String>>>);

impl AudioSink for Counting {
    fn on_stream_start(&mut self) {
        self.0.lock().unwrap().push("start".into());
    }
    fn push(&mut self, pcm: &[i16]) {
        self.0.lock().unwrap().push(format!("pcm{}", pcm.len()));
    }
    fn on_stream_stop(&mut self) {
        self.0.lock().unwrap().push("stop".into());
    }
}

#[test]
fn multi_sink_fans_out_in_order() {
    let log = std::sync::Arc::new(std::sync::Mutex::new(Vec::new()));
    let mut multi = MultiSink::new(vec![
        Box::new(Counting(log.clone())),
        Box::new(NullSink),
        Box::new(Counting(log.clone())),
    ]);
    assert!(!multi.is_empty());
    multi.on_stream_start();
    multi.push(&[1, 2, 3]);
    multi.on_stream_stop();
    assert_eq!(*log.lock().unwrap(), vec!["start", "start", "pcm3", "pcm3", "stop", "stop"]);
    assert!(MultiSink::new(Vec::new()).is_empty());
}
