use rctool_core::atvv;
use rctool_core::bridge::{advertisement_is_candidate, name_matches, NAME_CANDIDATES};
use rctool_core::loopback::{is_known_loopback, lowered_is_known_loopback};

#[test]
fn known_names_match_exactly_or_as_prefix() {
    for name in NAME_CANDIDATES {
        assert!(name_matches(name));
    }
    assert!(name_matches("MI RC 2"));
    assert!(name_matches("小米蓝牙语音遥控器（RC003）"));
    assert!(!name_matches("MI R"));
    assert!(!name_matches("mi rc"));
    assert!(!name_matches(""));
}

#[test]
fn advertisement_candidates() {
    assert!(advertisement_is_candidate(&[1, atvv::SERVICE], None));
    assert!(advertisement_is_candidate(&[], Some("MI RC")));
    assert!(!advertisement_is_candidate(&[atvv::CHAR_TX], Some("Keyboard")));
    assert!(!advertisement_is_candidate(&[], None));
}

#[test]
fn loopback_names_are_recognised_case_insensitively() {
    assert!(is_known_loopback("BlackHole 2ch"));
    assert!(is_known_loopback("CABLE Input (VB-Audio Virtual Cable)"));
    assert!(is_known_loopback("RCTool Null Output"));
    assert!(!is_known_loopback("MacBook Pro Speakers"));
    // Only the lower-casing makes "BlackHole" match the marker "blackhole".
    assert!(!lowered_is_known_loopback("BlackHole 2ch"));
    assert!(lowered_is_known_loopback("blackhole 2ch"));
}
