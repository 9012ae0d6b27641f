use rctool_core::atvv::{self, bt16, mic_close, mic_open, Caps, ControlEvent};

#[test]
fn caps_v1_layout() {
    let caps = Caps::parse(&[0x0B, 0x01, 0x00, 0x02, 0x03, 0x00, 0x78]).unwrap();
    assert_eq!(caps.version, 0x0100);
    assert_eq!(caps.codec, 0x02);
    assert_eq!(caps.sample_rate, 16_000);
    assert_eq!(caps.frame_size, 120);
}

#[test]
fn caps_v1_codec_bits_in_next_byte_quirk() {
    let caps = Caps::parse(&[0x0B, 0x01, 0x00, 0x00, 0x02, 0x00, 0x78, 0x00, 0x00]).unwrap();
    assert_eq!(caps.codec, 0x02);
    assert_eq!(caps.sample_rate, 16_000);
}

#[test]
fn caps_legacy_v04_layout() {
    let caps = Caps::parse(&[0x0B, 0x00, 0x04, 0x00, 0x03, 0x00, 0x86, 0x00, 0x00]).unwrap();
    assert_eq!(caps.version, 0x0004);
    assert_eq!(caps.codec, 0x02);
    assert_eq!(caps.frame_size, 134);
}

#[test]
fn caps_zero_frame_size_falls_back_to_default() {
    let caps = Caps::parse(&[0x0B, 0x01, 0x00, 0x02, 0x03, 0x00, 0x00]).unwrap();
    assert_eq!(caps.frame_size, 120);
}

#[test]
fn caps_rejects_wrong_opcode_and_short_payload() {
    assert!(Caps::parse(&[0x0C, 0x01, 0x00, 0x02, 0x03, 0x00, 0x78]).is_none());
    assert!(Caps::parse(&[0x0B, 0x01, 0x00]).is_none());
}

#[test]
fn caps_legacy_layout_needs_nine_bytes() {
    assert!(Caps::parse(&[0x0B, 0x00, 0x04, 0x00, 0x03, 0x00, 0x86]).is_none());
}

#[test]
fn caps_eight_khz_only() {
    let caps = Caps::parse(&[0x0B, 0x01, 0x00, 0x01, 0x03, 0x01, 0x00]).unwrap();
    assert_eq!(caps.codec, 0x01);
    assert_eq!(caps.sample_rate, 8_000);
    assert_eq!(caps.frame_size, 256);
}

#[test]
fn with_stream_codec_switches_rate_only() {
    let caps = Caps::default_caps();
    let eight = caps.with_stream_codec(0x01);
    assert_eq!(eight.sample_rate, 8_000);
    assert_eq!(eight.codec, 0x01);
    assert_eq!(eight.frame_size, caps.frame_size);
    assert_eq!(eight.version, caps.version);
    assert_eq!(eight.with_stream_codec(0x02), caps);
}

#[test]
fn mic_open_close_layouts() {
    assert_eq!(mic_open(0x0100, 0x02), vec![0x0C, 0x00]);
    assert_eq!(mic_open(0x0004, 0x02), vec![0x0C, 0x00, 0x02]);
    assert_eq!(mic_close(0x0100, 7), vec![0x0D, 0x07]);
    assert_eq!(mic_close(0x0004, 7), vec![0x0D]);
}

#[test]
fn control_event_parsing() {
    assert_eq!(ControlEvent::parse(&[0x08]), Some(ControlEvent::StartSearch));
    assert_eq!(
        ControlEvent::parse(&[0x04, 0x00, 0x02, 0x09]),
        Some(ControlEvent::AudioStart { codec: Some(0x02), session_id: Some(9) })
    );
    assert_eq!(ControlEvent::parse(&[0x00]), Some(ControlEvent::AudioStop));
    assert_eq!(
        ControlEvent::parse(&[0x0A, 0, 0, 0, 0x00, 0x64, 0x05]),
        Some(ControlEvent::AudioSync { predictor: 100, step_index: 5 })
    );
    assert_eq!(ControlEvent::parse(&[0x0A, 0, 0]), None);
    assert_eq!(ControlEvent::parse(&[0xEE]), Some(ControlEvent::Other(0xEE)));
}

#[test]
fn control_event_edge_cases() {
    assert_eq!(ControlEvent::parse(&[]), None);
    assert_eq!(ControlEvent::parse(&[0x0B]), Some(ControlEvent::CapsResp));
    assert_eq!(
        ControlEvent::parse(&[0x04]),
        Some(ControlEvent::AudioStart { codec: None, session_id: None })
    );
    assert_eq!(
        ControlEvent::parse(&[0x0A, 0, 0, 0, 0xFF, 0x9C, 0x58]),
        Some(ControlEvent::AudioSync { predictor: -100, step_index: 88 })
    );
}

#[test]
fn bt16_places_short_uuid_in_base() {
    assert_eq!(bt16(0x180A), atvv::DEVICE_INFORMATION_SERVICE);
    assert_eq!(bt16(0x2A24), atvv::MODEL_NUMBER_CHARACTERISTIC);
    assert_eq!(bt16(0), atvv::BLUETOOTH_BASE_UUID);
}
