use rctool_core::session::{Action, AtvvSession};

/// A 16 kHz capabilities response with frame_size = 1, so one audio byte is a full frame.
const CAPS_FRAME1: [u8; 7] = [0x0B, 0x01, 0x00, 0x02, 0x03, 0x00, 0x01];

fn confirmed_session() -> AtvvSession {
    let mut s = AtvvSession::new();
    let mut actions = Vec::new();
    s.handle_control(&CAPS_FRAME1, 0, &mut actions);
    assert!(actions.is_empty());
    s
}

#[test]
fn start_search_triggers_mic_open() {
    let mut s = confirmed_session();
    let mut actions = Vec::new();
    s.handle_control(&[0x08], 0, &mut actions);
    assert_eq!(actions, vec![Action::SendTx(vec![0x0C, 0x00])]);
    assert_eq!(s.take_mic_close(), Some(vec![0x0D, 0x00]));
    assert_eq!(s.take_mic_close(), None);
}

#[test]
fn start_search_before_caps_is_ignored() {
    let mut s = AtvvSession::new();
    let mut actions = Vec::new();
    s.handle_control(&[0x08], 0, &mut actions);
    assert!(actions.is_empty());
}

#[test]
fn full_stream_flow_with_sync() {
    let mut s = confirmed_session();
    let mut actions = Vec::new();

    s.handle_control(&[0x04, 0x00, 0x02, 0x07], 10, &mut actions);
    assert_eq!(actions, vec![Action::StreamStarted]);
    assert!(s.is_streaming());
    actions.clear();

    s.handle_control(&[0x0A, 0, 0, 0, 0x00, 0x64, 0x05], 20, &mut actions);
    s.handle_audio(&[0x00], 30, &mut actions);
    assert_eq!(actions, vec![Action::Pcm(vec![101, 102])]);
    actions.clear();

    s.handle_control(&[0x00], 40, &mut actions);
    assert_eq!(actions, vec![Action::StreamStopped]);
    assert!(!s.is_streaming());
    assert_eq!(s.take_mic_close(), None);
}

#[test]
fn stale_audio_after_stop_is_dropped_then_implicit_start() {
    let mut s = confirmed_session();
    let mut actions = Vec::new();
    s.handle_control(&[0x04, 0x00, 0x02, 0x01], 0, &mut actions);
    s.handle_control(&[0x00], 1_000, &mut actions);
    actions.clear();

    s.handle_audio(&[0x00], 1_100, &mut actions);
    assert!(actions.is_empty());

    s.handle_audio(&[0x00], 1_400, &mut actions);
    assert_eq!(actions.len(), 2);
    assert_eq!(actions[0], Action::StreamStarted);
    assert!(matches!(actions[1], Action::Pcm(_)));
}

#[test]
fn audio_before_caps_is_ignored() {
    let mut s = AtvvSession::new();
    let mut actions = Vec::new();
    s.handle_audio(&[0x00], 0, &mut actions);
    assert!(actions.is_empty());
}

#[test]
fn eight_khz_caps_is_fatal() {
    let mut s = AtvvSession::new();
    let mut actions = Vec::new();
    s.handle_control(&[0x0B, 0x01, 0x00, 0x01, 0x03, 0x00, 0x78], 0, &mut actions);
    assert!(matches!(actions.as_slice(), [Action::Fatal(_)]));
}

#[test]
fn eight_khz_stream_switch_is_fatal() {
    let mut s = confirmed_session();
    let mut actions = Vec::new();
    s.handle_control(&[0x04, 0x00, 0x01, 0x02], 0, &mut actions);
    assert!(matches!(actions.as_slice(), [Action::Fatal(_)]));
}

#[test]
fn frames_accumulate_across_notifications() {
    let mut s = AtvvSession::new();
    let mut actions = Vec::new();
    s.handle_control(&[0x0B, 0x01, 0x00, 0x02, 0x03, 0x00, 0x78], 0, &mut actions);
    s.handle_control(&[0x04, 0x00, 0x02, 0x01], 0, &mut actions);
    actions.clear();

    s.handle_audio(&[0u8; 100], 10, &mut actions);
    assert!(actions.is_empty());
    s.handle_audio(&[0u8; 100], 20, &mut actions);
    assert_eq!(actions.len(), 1);
    match &actions[0] {
        Action::Pcm(samples) => assert_eq!(samples.len(), 240),
        other => panic!("期望 Pcm，得到 {other:?}"),
    }
}

#[test]
fn finish_emits_stop_when_streaming() {
    let mut s = confirmed_session();
    let mut actions = Vec::new();
    s.handle_control(&[0x04, 0x00, 0x02, 0x01], 0, &mut actions);
    actions.clear();
    s.finish(&mut actions);
    assert_eq!(actions, vec![Action::StreamStopped]);
    s.finish(&mut actions);
    assert_eq!(actions.len(), 1);
}

#[test]
fn invalid_caps_response_is_fatal() {
    let mut s = AtvvSession::new();
    let mut actions = Vec::new();
    s.handle_control(&[0x0B, 0x00, 0x04, 0x00, 0x03, 0x00, 0x78], 0, &mut actions);
    assert_eq!(
        actions,
        vec![Action::Fatal("遥控器返回了无效的 ATVV 能力响应".to_string())]
    );
    assert_eq!(s.caps().frame_size, 120);
}

#[test]
fn mic_close_carries_session_id_on_v1() {
    let mut s = confirmed_session();
    let mut actions = Vec::new();
    s.handle_control(&[0x08], 0, &mut actions);
    s.handle_control(&[0x04, 0x00, 0x02, 0x09], 0, &mut actions);
    assert_eq!(s.take_mic_close(), Some(vec![0x0D, 0x09]));
}

#[test]
fn audio_start_is_idempotent_while_streaming() {
    let mut s = confirmed_session();
    let mut actions = Vec::new();
    s.handle_control(&[0x04], 0, &mut actions);
    s.handle_control(&[0x04], 5, &mut actions);
    assert_eq!(actions, vec![Action::StreamStarted]);
}

#[test]
fn sync_resets_pending_bytes() {
    let mut s = confirmed_session();
    let mut actions = Vec::new();
    // frame_size 120 via fresh caps.
    s.handle_control(&[0x0B, 0x01, 0x00, 0x02, 0x03, 0x00, 0x02], 0, &mut actions);
    s.handle_control(&[0x04], 0, &mut actions);
    actions.clear();
    s.handle_audio(&[0x11], 1, &mut actions);
    s.handle_control(&[0x0A, 0, 0, 0, 0x00, 0x64, 0x05], 2, &mut actions);
    s.handle_audio(&[0x00, 0x00], 3, &mut actions);
    // The first byte was dropped by the sync; the frame [0, 0] decodes from (100, 5).
    assert_eq!(actions, vec![Action::Pcm(vec![101, 102, 103, 104])]);
}
