//! The ATVV session state machine for one BLE connection.
//!
//! Pure logic without I/O; time is passed in by the caller (`now_ms`). One
//! instance lives exactly as long as its connection.

use vstd::prelude::*;
use crate::adpcm::{clamp, decode, AdpcmState, ImaAdpcmDecoder};
use crate::atvv::{
    default_caps, mic_close, mic_close_bytes, mic_open, mic_open_bytes, parse_caps,
    parse_control, rate_of, Caps, ControlEvent,
};
use crate::dsp::{chunks, frames_view, rest, smooth, smoothed, FrameAccumulator};

verus! {

/// Stray packets arriving within this many milliseconds after a stream stops
/// are dropped as tail packets instead of starting a stream implicitly.
pub const STALE_AUDIO_WINDOW_MS: u64 = 300;

/// What the session asks its caller (the bridge) to do.
#[derive(Debug, PartialEq)]
pub enum Action {
    /// Write these bytes to the TX characteristic.
    SendTx(Vec<u8>),
    StreamStarted,
    /// Decoded, smoothed 16 kHz PCM.
    Pcm(Vec<i16>),
    StreamStopped,
    /// The protocol cannot go on (for instance an 8 kHz-only codec); the caller
    /// should disconnect and reconnect.
    Fatal(String),
}

/// The mathematical content of an [`Action`].
pub enum ActionView {
    SendTx(Seq<u8>),
    StreamStarted,
    Pcm(Seq<i16>),
    StreamStopped,
    Fatal(Seq<char>),
}

impl View for Action {
    type V = ActionView;

    open spec fn view(&self) -> ActionView {
        match self {
            Action::SendTx(b) => ActionView::SendTx(b@),
            Action::StreamStarted => ActionView::StreamStarted,
            Action::Pcm(p) => ActionView::Pcm(p@),
            Action::StreamStopped => ActionView::StreamStopped,
            Action::Fatal(m) => ActionView::Fatal(m@),
        }
    }
}

pub open spec fn actions_view(a: Seq<Action>) -> Seq<ActionView> {
    a.map_values(|x: Action| x@)
}

pub open spec fn msg_invalid_caps() -> Seq<char> {
    "遥控器返回了无效的 ATVV 能力响应"@
}

pub open spec fn msg_no_16k() -> Seq<char> {
    "遥控器未提供受支持的 16 kHz 语音编码"@
}

pub open spec fn msg_switched_to_8k() -> Seq<char> {
    "遥控器切换到了不受支持的 8 kHz 语音编码"@
}

/// The state of a session.
pub struct SessionView {
    pub caps: Caps,
    pub caps_confirmed: bool,
    pub streaming: bool,
    pub mic_opened: bool,
    pub session_id: u8,
    pub last_stop_ms: Option<u64>,
    pub decoder: AdpcmState,
    /// Audio bytes not yet making up a complete frame.
    pub pending: Seq<u8>,
    pub pending_sync: Option<(i16, u8)>,
}

pub open spec fn initial_session() -> SessionView {
    SessionView {
        caps: default_caps(),
        caps_confirmed: false,
        streaming: false,
        mic_opened: false,
        session_id: 0,
        last_stop_ms: None,
        decoder: AdpcmState { predictor: 0, step_index: 0 },
        pending: Seq::empty(),
        pending_sync: None,
    }
}

pub open spec fn reset_state(predictor: int, step_index: int) -> AdpcmState {
    AdpcmState { predictor: clamp(predictor, -32768, 32767), step_index: clamp(step_index, 0, 88) }
}

pub open spec fn start_streaming(s: SessionView) -> (SessionView, Seq<ActionView>) {
    let s1 = SessionView {
        pending: Seq::empty(),
        pending_sync: None,
        decoder: reset_state(0, 0),
        last_stop_ms: None,
        streaming: true,
        ..s
    };
    (s1, if s.streaming { Seq::empty() } else { seq![ActionView::StreamStarted] })
}

pub open spec fn stop_streaming(s: SessionView, now_ms: u64) -> (SessionView, Seq<ActionView>) {
    if !s.streaming {
        (s, Seq::empty())
    } else {
        (
            SessionView {
                streaming: false,
                pending: Seq::empty(),
                pending_sync: None,
                last_stop_ms: Some(now_ms),
                ..s
            },
            seq![ActionView::StreamStopped],
        )
    }
}

/// The effect of one control packet.
pub open spec fn control_step(s: SessionView, data: Seq<u8>, now_ms: u64) -> (
    SessionView,
    Seq<ActionView>,
) {
    match parse_control(data) {
        None => (s, Seq::empty()),
        Some(ControlEvent::CapsResp) => match parse_caps(data) {
            None => (s, seq![ActionView::Fatal(msg_invalid_caps())]),
            Some(c) => if c.sample_rate != 16_000 {
                (s, seq![ActionView::Fatal(msg_no_16k())])
            } else {
                (SessionView { caps: c, caps_confirmed: true, ..s }, Seq::empty())
            },
        },
        Some(ControlEvent::StartSearch) => if !s.caps_confirmed {
            (s, Seq::empty())
        } else {
            (
                SessionView { mic_opened: true, ..s },
                seq![ActionView::SendTx(mic_open_bytes(s.caps.version, s.caps.codec))],
            )
        },
        Some(ControlEvent::AudioStart { codec, session_id }) => if !s.caps_confirmed {
            (s, Seq::empty())
        } else {
            let caps = match codec {
                Some(c) => Caps { codec: c, sample_rate: rate_of(c), ..s.caps },
                None => s.caps,
            };
            if caps.sample_rate != 16_000 {
                (SessionView { caps, ..s }, seq![ActionView::Fatal(msg_switched_to_8k())])
            } else {
                let sid = match session_id {
                    Some(i) => i,
                    None => 0u8,
                };
                start_streaming(SessionView { caps, session_id: sid, ..s })
            }
        },
        Some(ControlEvent::AudioStop) => stop_streaming(s, now_ms),
        Some(ControlEvent::AudioSync { predictor, step_index }) => (
            SessionView {
                pending_sync: Some((predictor, step_index)),
                pending: Seq::empty(),
                ..s
            },
            Seq::empty(),
        ),
        Some(ControlEvent::Other(_)) => (s, Seq::empty()),
    }
}

/// The decoder state a frame starts from: a pending AUDIO_SYNC, if any, wins.
pub open spec fn sync_state(dec: AdpcmState, sync: Option<(i16, u8)>) -> AdpcmState {
    match sync {
        Some((p, st)) => reset_state(p as int, st as int),
        None => dec,
    }
}

/// Decoding a run of frames: the smoothed PCM, the decoder state after the
/// last frame, and the AUDIO_SYNC still pending (consumed by the first frame).
pub open spec fn process_frames(dec: AdpcmState, sync: Option<(i16, u8)>, frames: Seq<Seq<u8>>) -> (
    Seq<i16>,
    AdpcmState,
    Option<(i16, u8)>,
)
    decreases frames.len(),
{
    if frames.len() == 0 {
        (Seq::empty(), dec, sync)
    } else {
        let (out, d1, sy1) = process_frames(dec, sync, frames.drop_last());
        let (pcm, d2) = decode(sync_state(d1, sy1), frames.last());
        (out + smoothed(pcm), d2, None)
    }
}

/// Whether an audio packet at `now_ms` is a stray tail packet of a stream
/// that stopped at `last_stop_ms`.
pub open spec fn is_stale(last_stop_ms: Option<u64>, now_ms: u64) -> bool {
    match last_stop_ms {
        Some(t) => (now_ms as int) - (t as int) < STALE_AUDIO_WINDOW_MS as int,
        None => false,
    }
}

/// The effect of one audio packet.
pub open spec fn audio_step(s: SessionView, data: Seq<u8>, now_ms: u64) -> (
    SessionView,
    Seq<ActionView>,
) {
    if !s.caps_confirmed {
        (s, Seq::empty())
    } else if !s.streaming && is_stale(s.last_stop_ms, now_ms) {
        (s, Seq::empty())
    } else {
        let (s1, a1) = if !s.streaming {
            start_streaming(s)
        } else {
            (s, Seq::empty())
        };
        let fs = s1.caps.frame_size as nat;
        let all = s1.pending + data;
        let (pcm, dec, sync) = process_frames(s1.decoder, s1.pending_sync, chunks(all, fs));
        (
            SessionView {
                pending: if fs == 0 { s1.pending } else { rest(all, fs) },
                decoder: dec,
                pending_sync: sync,
                ..s1
            },
            if pcm.len() > 0 { a1.push(ActionView::Pcm(pcm)) } else { a1 },
        )
    }
}

pub open spec fn finish_step(s: SessionView) -> (SessionView, Seq<ActionView>) {
    if s.streaming {
        (SessionView { streaming: false, ..s }, seq![ActionView::StreamStopped])
    } else {
        (s, Seq::empty())
    }
}

pub open spec fn take_mic_close_step(s: SessionView) -> (SessionView, Option<Seq<u8>>) {
    if !s.mic_opened {
        (s, None)
    } else {
        (
            SessionView { mic_opened: false, ..s },
            Some(mic_close_bytes(s.caps.version, s.session_id)),
        )
    }
}

pub struct AtvvSession {
    caps: Caps,
    caps_confirmed: bool,
    streaming: bool,
    mic_opened: bool,
    session_id: u8,
    last_stop_ms: Option<u64>,
    decoder: ImaAdpcmDecoder,
    frames: FrameAccumulator,
    pending_sync: Option<(i16, u8)>,
}

impl View for AtvvSession {
    type V = SessionView;

    closed spec fn view(&self) -> SessionView {
        SessionView {
            caps: self.caps,
            caps_confirmed: self.caps_confirmed,
            streaming: self.streaming,
            mic_opened: self.mic_opened,
            session_id: self.session_id,
            last_stop_ms: self.last_stop_ms,
            decoder: self.decoder@,
            pending: self.frames@,
            pending_sync: self.pending_sync,
        }
    }
}

/// What holds of every session: its frame size is never zero, and it only
/// streams once the capabilities are confirmed.
pub open spec fn session_ok(s: SessionView) -> bool {
    &&& s.caps.frame_size > 0
    &&& s.streaming ==> s.caps_confirmed
}

fn fatal(msg: &str) -> (a: Action)
    ensures
        a@ == ActionView::Fatal(msg@),
{
    Action::Fatal(msg.to_string())
}

impl AtvvSession {
    #[verifier::type_invariant]
    closed spec fn inv(self) -> bool {
        session_ok(self@)
    }

    pub fn new() -> (r: Self)
        ensures
            r@ == initial_session(),
            session_ok(r@),
    {
        AtvvSession {
            caps: Caps::default_caps(),
            caps_confirmed: false,
            streaming: false,
            mic_opened: false,
            session_id: 0,
            last_stop_ms: None,
            decoder: ImaAdpcmDecoder::new(),
            frames: FrameAccumulator::new(),
            pending_sync: None,
        }
    }

    pub fn caps(&self) -> (r: &Caps)
        ensures
            *r == self@.caps,
    {
        &self.caps
    }

    /// Whether a stream is running; every session also satisfies
    /// [`session_ok`], so a streaming session has confirmed capabilities.
    pub fn is_streaming(&self) -> (r: bool)
        ensures
            r == self@.streaming,
            session_ok(self@),
    {
        proof {
            use_type_invariant(self);
        }
        self.streaming
    }

    /// On exit or disconnect, hands out the MIC_CLOSE message still owed if the
    /// microphone is open.
    pub fn take_mic_close(&mut self) -> (r: Option<Vec<u8>>)
        ensures
            session_ok(final(self)@),
            final(self)@ == take_mic_close_step(old(self)@).0,
            match r {
                Some(v) => take_mic_close_step(old(self)@).1 == Some(v@),
                None => take_mic_close_step(old(self)@).1 is None,
            },
    {
        proof {
            use_type_invariant(&*self);
        }
        if !self.mic_opened {
            return None;
        }
        self.mic_opened = false;
        Some(mic_close(self.caps.version, self.session_id))
    }

    fn start_streaming(&mut self, actions: &mut Vec<Action>)
        requires
            old(self)@.caps_confirmed,
        ensures
            final(self)@ == start_streaming(old(self)@).0,
            actions_view(final(actions)@) == actions_view(old(actions)@) + start_streaming(
                old(self)@,
            ).1,
    {
        proof {
            use_type_invariant(&*self);
        }
        self.frames = FrameAccumulator::new();
        self.pending_sync = None;
        self.decoder = ImaAdpcmDecoder::new();
        self.last_stop_ms = None;
        if !self.streaming {
            self.streaming = true;
            actions.push(Action::StreamStarted);
        }
        assert(actions_view(actions@) =~= actions_view(old(actions)@) + start_streaming(
            old(self)@,
        ).1);
    }

    fn stop_streaming(&mut self, now_ms: u64, actions: &mut Vec<Action>)
        ensures
            final(self)@ == stop_streaming(old(self)@, now_ms).0,
            actions_view(final(actions)@) == actions_view(old(actions)@) + stop_streaming(
                old(self)@,
                now_ms,
            ).1,
    {
        if !self.streaming {
            assert(actions_view(actions@) =~= actions_view(old(actions)@) + Seq::empty());
            return;
        }
        proof {
            use_type_invariant(&*self);
        }
        self.streaming = false;
        self.frames = FrameAccumulator::new();
        self.pending_sync = None;
        self.last_stop_ms = Some(now_ms);
        actions.push(Action::StreamStopped);
        assert(actions_view(actions@) =~= actions_view(old(actions)@) + seq![
            ActionView::StreamStopped,
        ]);
    }

    /// Handles one packet from the CTL characteristic.
    pub fn handle_control(&mut self, data: &[u8], now_ms: u64, actions: &mut Vec<Action>)
        ensures
            session_ok(final(self)@),
            final(self)@ == control_step(old(self)@, data@, now_ms).0,
            actions_view(final(actions)@) == actions_view(old(actions)@) + control_step(
                old(self)@,
                data@,
                now_ms,
            ).1,
    {
        proof {
            use_type_invariant(&*self);
            law_frame_size_stays_positive(self@, data@, now_ms);
        }
        let ghost a0 = actions_view(actions@);
        let event = ControlEvent::parse(data);
        match event {
            None => {
                assert(actions_view(actions@) =~= a0 + Seq::empty());
            },
            Some(ControlEvent::CapsResp) => {
                match Caps::parse(data) {
                    None => {
                        actions.push(fatal("遥控器返回了无效的 ATVV 能力响应"));
                        assert(actions_view(actions@) =~= a0 + seq![
                            ActionView::Fatal(msg_invalid_caps()),
                        ]);
                    },
                    Some(caps) => {
                        if caps.sample_rate != 16_000 {
                            actions.push(fatal("遥控器未提供受支持的 16 kHz 语音编码"));
                            assert(actions_view(actions@) =~= a0 + seq![
                                ActionView::Fatal(msg_no_16k()),
                            ]);
                        } else {
                            self.caps = caps;
                            self.caps_confirmed = true;
                            assert(actions_view(actions@) =~= a0 + Seq::empty());
                        }
                    },
                }
            },
            Some(ControlEvent::StartSearch) => {
                if !self.caps_confirmed {
                    assert(actions_view(actions@) =~= a0 + Seq::empty());
                } else {
                    self.mic_opened = true;
                    let msg = mic_open(self.caps.version, self.caps.codec);
                    actions.push(Action::SendTx(msg));
                    assert(actions_view(actions@) =~= a0 + seq![
                        ActionView::SendTx(mic_open_bytes(self.caps.version, self.caps.codec)),
                    ]);
                }
            },
            Some(ControlEvent::AudioStart { codec, session_id }) => {
                if !self.caps_confirmed {
                    assert(actions_view(actions@) =~= a0 + Seq::empty());
                } else {
                    if let Some(codec) = codec {
                        self.caps = self.caps.with_stream_codec(codec);
                    }
                    if self.caps.sample_rate != 16_000 {
                        actions.push(fatal("遥控器切换到了不受支持的 8 kHz 语音编码"));
                        assert(actions_view(actions@) =~= a0 + seq![
                            ActionView::Fatal(msg_switched_to_8k()),
                        ]);
                    } else {
                        self.session_id = match session_id {
                            Some(i) => i,
                            None => 0,
                        };
                        self.start_streaming(actions);
                    }
                }
            },
            Some(ControlEvent::AudioStop) => self.stop_streaming(now_ms, actions),
            Some(ControlEvent::AudioSync { predictor, step_index }) => {
                self.pending_sync = Some((predictor, step_index));
                self.frames = FrameAccumulator::new();
                assert(actions_view(actions@) =~= a0 + Seq::empty());
            },
            Some(ControlEvent::Other(_)) => {
                assert(actions_view(actions@) =~= a0 + Seq::empty());
            },
        }
    }

    /// Decodes complete frames: applies a pending AUDIO_SYNC to the first
    /// one, then decodes and smooths each frame and appends it to `pcm`.
    fn decode_frames(&mut self, frames: &Vec<Vec<u8>>, pcm: &mut Vec<i16>)
        ensures
            ({
                let (out, dec, sync) = process_frames(
                    old(self)@.decoder,
                    old(self)@.pending_sync,
                    frames_view(frames@),
                );
                &&& final(pcm)@ == old(pcm)@ + out
                &&& final(self)@ == SessionView { decoder: dec, pending_sync: sync, ..old(self)@ }
            }),
    {
        proof {
            use_type_invariant(&*self);
        }
        let ghost s0 = self@;
        let ghost p0 = pcm@;
        let ghost fv = frames_view(frames@);
        let mut dec = ImaAdpcmDecoder::new();
        std::mem::swap(&mut dec, &mut self.decoder);
        let n = frames.len();
        let mut i: usize = 0;
        while i < n
            invariant
                n == frames@.len(),
                fv == frames_view(frames@),
                i <= n,
                session_ok(s0),
                ({
                    let (out, d, sync) = process_frames(
                        s0.decoder,
                        s0.pending_sync,
                        fv.take(i as int),
                    );
                    &&& pcm@ == p0 + out
                    &&& dec@ == d
                    &&& self@ == SessionView {
                        decoder: AdpcmState { predictor: 0, step_index: 0 },
                        pending_sync: sync,
                        ..s0
                    }
                }),
            decreases n - i,
        {
            proof {
                assert(fv.take(i + 1).drop_last() =~= fv.take(i as int));
                assert(fv.take(i + 1).last() == frames@[i as int]@);
            }
            if let Some((predictor, step_index)) = self.pending_sync {
                dec.reset(predictor as i32, step_index as i32);
                self.pending_sync = None;
            }
            let mut samples: Vec<i16> = Vec::new();
            dec.decode_into(&frames[i], &mut samples);
            assert(samples@ =~= Seq::<i16>::empty() + samples@);
            smooth(&mut samples);
            let mut k: usize = 0;
            let ghost pk = pcm@;
            while k < samples.len()
                invariant
                    k <= samples@.len(),
                    pcm@ == pk + samples@.take(k as int),
                decreases samples@.len() - k,
            {
                pcm.push(samples[k]);
                k = k + 1;
                assert(pcm@ =~= pk + samples@.take(k as int));
            }
            assert(samples@.take(samples@.len() as int) =~= samples@);
            i = i + 1;
        }
        self.decoder = dec;
        assert(fv.take(n as int) =~= fv);
    }

    /// Handles one packet from the AUDIO characteristic.
    pub fn handle_audio(&mut self, data: &[u8], now_ms: u64, actions: &mut Vec<Action>)
        ensures
            session_ok(final(self)@),
            final(self)@ == audio_step(old(self)@, data@, now_ms).0,
            actions_view(final(actions)@) == actions_view(old(actions)@) + audio_step(
                old(self)@,
                data@,
                now_ms,
            ).1,
    {
        proof {
            use_type_invariant(&*self);
            law_frame_size_stays_positive(self@, data@, now_ms);
        }
        let ghost a0 = actions_view(actions@);
        if !self.caps_confirmed {
            assert(actions_view(actions@) =~= a0 + Seq::empty());
            return;
        }
        if !self.streaming {
            // Packets arriving shortly after AUDIO_STOP are stray tails; earlier
            // audio means AUDIO_START has not arrived yet, so start implicitly.
            if let Some(t) = self.last_stop_ms {
                if now_ms < t || now_ms - t < STALE_AUDIO_WINDOW_MS {
                    assert(actions_view(actions@) =~= a0 + Seq::empty());
                    return;
                }
            }
            self.start_streaming(actions);
        }
        let ghost s1 = self@;
        let ghost a1 = actions_view(actions@);
        let frame_size = self.caps.frame_size;
        let mut acc = FrameAccumulator::new();
        std::mem::swap(&mut acc, &mut self.frames);
        let frames = acc.push(data, frame_size);
        self.frames = acc;
        let mut pcm: Vec<i16> = Vec::new();
        self.decode_frames(&frames, &mut pcm);
        assert(pcm@ =~= process_frames(
            s1.decoder,
            s1.pending_sync,
            chunks(s1.pending + data@, frame_size as nat),
        ).0);
        if pcm.len() > 0 {
            actions.push(Action::Pcm(pcm));
            assert(actions_view(actions@) =~= a1.push(ActionView::Pcm(pcm@)));
        }
    }

    /// Wrap-up when the session is ended from outside (disconnect, exit):
    /// reports the end of a running stream.
    pub fn finish(&mut self, actions: &mut Vec<Action>)
        ensures
            session_ok(final(self)@),
            final(self)@ == finish_step(old(self)@).0,
            actions_view(final(actions)@) == actions_view(old(actions)@) + finish_step(
                old(self)@,
            ).1,
    {
        proof {
            use_type_invariant(&*self);
        }
        if self.streaming {
            self.streaming = false;
            actions.push(Action::StreamStopped);
            assert(actions_view(actions@) =~= actions_view(old(actions)@) + seq![
                ActionView::StreamStopped,
            ]);
        } else {
            assert(actions_view(actions@) =~= actions_view(old(actions)@) + Seq::empty());
        }
    }
}


// ---------------------------------------------------------------------------
// Laws
// ---------------------------------------------------------------------------

/// The MIC_CLOSE owed for an open microphone is handed out once: asking
/// again yields nothing.
pub proof fn law_mic_close_handed_out_once(s: SessionView)
    ensures
        take_mic_close_step(take_mic_close_step(s).0).1 is None,
        take_mic_close_step(s).1 is Some <==> s.mic_opened,
{
}

/// Finishing reports the end of a running stream exactly once.
pub proof fn law_finish_reports_stop_once(s: SessionView)
    ensures
        finish_step(s).1 == (if s.streaming {
            seq![ActionView::StreamStopped]
        } else {
            Seq::<ActionView>::empty()
        }),
        !finish_step(s).0.streaming,
        finish_step(finish_step(s).0).1 == Seq::<ActionView>::empty(),
{
}

/// Until the capabilities are confirmed, audio and the microphone and
/// stream requests of the remote change nothing and ask for nothing.
pub proof fn law_nothing_before_caps(s: SessionView, data: Seq<u8>, now_ms: u64)
    requires
        !s.caps_confirmed,
    ensures
        audio_step(s, data, now_ms) == (s, Seq::<ActionView>::empty()),
        parse_control(data) == Some(ControlEvent::StartSearch) ==> control_step(s, data, now_ms)
            == (s, Seq::<ActionView>::empty()),
        parse_control(data) matches Some(ControlEvent::AudioStart { .. }) ==> control_step(
            s,
            data,
            now_ms,
        ) == (s, Seq::<ActionView>::empty()),
{
}

/// A control packet asks for at most one action: a TX write only for a
/// START_SEARCH, a stream start only for an AUDIO_START, a stream stop only
/// for an AUDIO_STOP, and a fatal error only for a capabilities response or
/// an AUDIO_START.
pub proof fn law_control_emits_at_most_one(s: SessionView, data: Seq<u8>, now_ms: u64)
    ensures
        ({
            let acts = control_step(s, data, now_ms).1;
            &&& acts.len() <= 1
            &&& acts.len() == 1 ==> match acts[0] {
                ActionView::SendTx(_) => parse_control(data) == Some(ControlEvent::StartSearch),
                ActionView::StreamStarted => parse_control(data) matches Some(ControlEvent::AudioStart { .. }),
                ActionView::StreamStopped => parse_control(data) == Some(ControlEvent::AudioStop),
                ActionView::Fatal(_) => parse_control(data) == Some(ControlEvent::CapsResp) || parse_control(
                    data,
                ) matches Some(ControlEvent::AudioStart { .. }),
                ActionView::Pcm(_) => false,
            }
        }),
{
}

/// Before the capabilities are confirmed, only a capabilities response asks
/// for anything (a session never streams unconfirmed, so an AUDIO_STOP has
/// no stream to stop).
pub proof fn law_only_caps_before_caps(s: SessionView, data: Seq<u8>, now_ms: u64)
    requires
        session_ok(s),
        !s.caps_confirmed,
        parse_control(data) != Some(ControlEvent::CapsResp),
    ensures
        control_step(s, data, now_ms).1.len() == 0,
{
}

/// Audio arriving within the stale window after a stream stopped is dropped
/// without effect.
pub proof fn law_stale_audio_is_dropped(s: SessionView, data: Seq<u8>, now_ms: u64, t: u64)
    requires
        s.caps_confirmed,
        !s.streaming,
        s.last_stop_ms == Some(t),
        (now_ms as int) < (t as int) + STALE_AUDIO_WINDOW_MS as int,
    ensures
        audio_step(s, data, now_ms) == (s, Seq::<ActionView>::empty()),
{
}

/// Audio after capabilities are confirmed, outside the stale window, leaves
/// the session streaming; a stream start is reported only if it was not
/// streaming, and it comes first.
pub proof fn law_audio_implicitly_starts_stream(s: SessionView, data: Seq<u8>, now_ms: u64)
    requires
        s.caps_confirmed,
        s.streaming || !is_stale(s.last_stop_ms, now_ms),
    ensures
        audio_step(s, data, now_ms).0.streaming,
        !s.streaming ==> audio_step(s, data, now_ms).1[0] == ActionView::StreamStarted,
        s.streaming ==> audio_step(s, data, now_ms).1.len() <= 1,
{
}

/// Confirmed capabilities are always 16 kHz with a non-zero frame size; a
/// session never ends up with a zero frame size, and never streams without
/// confirmed capabilities.
pub proof fn law_frame_size_stays_positive(s: SessionView, data: Seq<u8>, now_ms: u64)
    requires
        session_ok(s),
    ensures
        session_ok(control_step(s, data, now_ms).0),
        session_ok(audio_step(s, data, now_ms).0),
        control_step(s, data, now_ms).0.caps_confirmed && !s.caps_confirmed ==> control_step(
            s,
            data,
            now_ms,
        ).0.caps.sample_rate == 16_000,
{
}

/// Decoding a run of frames in two parts gives the same PCM and end state as
/// decoding the whole run at once.
pub proof fn lemma_process_frames_concat(
    dec: AdpcmState,
    sync: Option<(i16, u8)>,
    f1: Seq<Seq<u8>>,
    f2: Seq<Seq<u8>>,
)
    ensures
        ({
            let (o1, d1, s1) = process_frames(dec, sync, f1);
            let (o2, d2, s2) = process_frames(d1, s1, f2);
            process_frames(dec, sync, f1 + f2) == (o1 + o2, d2, s2)
        }),
    decreases f2.len(),
{
    if f2.len() == 0 {
        assert(f1 + f2 =~= f1);
        let (o1, d1, s1) = process_frames(dec, sync, f1);
        assert(o1 + Seq::<i16>::empty() =~= o1);
    } else {
        lemma_process_frames_concat(dec, sync, f1, f2.drop_last());
        assert((f1 + f2).drop_last() =~= f1 + f2.drop_last());
        assert((f1 + f2).last() == f2.last());
        let (o1, d1, s1) = process_frames(dec, sync, f1);
        let (o2, d2, s2) = process_frames(d1, s1, f2.drop_last());
        let (pcm, d3) = decode(sync_state(d2, s2), f2.last());
        assert(o1 + o2 + smoothed(pcm) =~= o1 + (o2 + smoothed(pcm)));
    }
}

/// A stream starts from a fresh decoder: whenever a control packet takes a
/// session from idle to streaming, the decoder is back at its initial state
/// (predictor 0, step index 0), with no partial frame and no AUDIO_SYNC
/// pending, whatever the previous stream left behind. An accepted AUDIO_START
/// resets the decoder even while a stream runs.
pub proof fn law_stream_start_resets_decoder(s: SessionView, data: Seq<u8>, now_ms: u64)
    ensures
        ({
            let r = control_step(s, data, now_ms).0;
            (!s.streaming && r.streaming) || (parse_control(data) matches Some(
                ControlEvent::AudioStart { .. },
            ) && control_step(s, data, now_ms).1.len() == 0 && s.caps_confirmed) ==> {
                &&& r.decoder == AdpcmState { predictor: 0, step_index: 0 }
                &&& r.pending == Seq::<u8>::empty()
                &&& r.pending_sync is None
            }
        }),
{
}

/// Audio that starts a stream implicitly is decoded from a fresh decoder:
/// what an idle session does with it does not depend on the decoder state,
/// partial frame or AUDIO_SYNC that an earlier stream left behind.
pub proof fn law_implicit_start_ignores_old_decoder(
    s: SessionView,
    d: AdpcmState,
    p: Seq<u8>,
    sync: Option<(i16, u8)>,
    data: Seq<u8>,
    now_ms: u64,
)
    requires
        !s.streaming,
    ensures
        ({
            let t = SessionView { decoder: d, pending: p, pending_sync: sync, ..s };
            &&& audio_step(s, data, now_ms).1 == audio_step(t, data, now_ms).1
            &&& audio_step(s, data, now_ms).0.streaming ==> audio_step(s, data, now_ms).0
                == audio_step(t, data, now_ms).0
        }),
{
    let t = SessionView { decoder: d, pending: p, pending_sync: sync, ..s };
    assert(start_streaming(s).0 == start_streaming(t).0);
}

/// A pending AUDIO_SYNC applies to exactly the first frame decoded after it:
/// that frame starts from the announced state, every later frame continues
/// from the state the frame before it left, and afterwards no AUDIO_SYNC is
/// pending any more.
pub proof fn law_sync_applies_to_first_frame_only(
    dec: AdpcmState,
    sync: Option<(i16, u8)>,
    frames: Seq<Seq<u8>>,
)
    requires
        frames.len() > 0,
    ensures
        ({
            let (p0, d0) = decode(sync_state(dec, sync), frames[0]);
            let (out, d, left) = process_frames(d0, None, frames.drop_first());
            process_frames(dec, sync, frames) == (smoothed(p0) + out, d, None::<(i16, u8)>)
        }),
{
    let f1 = frames.take(1);
    let f2 = frames.drop_first();
    assert(f1 + f2 =~= frames);
    assert(f1.drop_last() =~= Seq::<Seq<u8>>::empty());
    assert(f1.last() == frames[0]);
    let (p0, d0) = decode(sync_state(dec, sync), frames[0]);
    assert(process_frames(dec, sync, f1.drop_last()) == (Seq::<i16>::empty(), dec, sync));
    assert(Seq::<i16>::empty() + smoothed(p0) =~= smoothed(p0));
    assert(process_frames(dec, sync, f1) == (smoothed(p0), d0, None::<(i16, u8)>));
    lemma_process_frames_concat(dec, sync, f1, f2);
    lemma_process_frames_keeps_no_sync(d0, f2);
}

/// With no AUDIO_SYNC pending, none becomes pending while frames decode.
proof fn lemma_process_frames_keeps_no_sync(dec: AdpcmState, frames: Seq<Seq<u8>>)
    ensures
        process_frames(dec, None, frames).2 is None,
    decreases frames.len(),
{
    if frames.len() > 0 {
        lemma_process_frames_keeps_no_sync(dec, frames.drop_last());
    }
}

/// While a stream runs and no AUDIO_SYNC intervenes, splitting the audio
/// bytes over two notifications yields the same PCM, in the same order, as
/// receiving them in one (frames are reassembled across notifications).
pub proof fn law_audio_split_is_transparent(s: SessionView, a: Seq<u8>, b: Seq<u8>, t1: u64, t2: u64)
    requires
        s.caps_confirmed,
        s.streaming,
        session_ok(s),
    ensures
        ({
            let (s1, acts1) = audio_step(s, a, t1);
            let (s2, acts2) = audio_step(s1, b, t2);
            let (s3, acts3) = audio_step(s, a + b, t2);
            &&& s2 == s3
            &&& pcm_of(acts1) + pcm_of(acts2) == pcm_of(acts3)
        }),
{
    let fs = s.caps.frame_size as nat;
    let x = s.pending + a;
    crate::dsp::lemma_chunks_concat(x, b, fs);
    assert(s.pending + (a + b) =~= x + b);
    let (o1, d1, sy1) = process_frames(s.decoder, s.pending_sync, chunks(x, fs));
    lemma_process_frames_concat(s.decoder, s.pending_sync, chunks(x, fs), chunks(rest(x, fs) + b, fs));
    let (s1, acts1) = audio_step(s, a, t1);
    let (s3, acts3) = audio_step(s, a + b, t2);
    let (s2, acts2) = audio_step(s1, b, t2);
    assert(s2 == s3);
    let p1 = process_frames(s.decoder, s.pending_sync, chunks(x, fs)).0;
    let p2 = process_frames(s1.decoder, s1.pending_sync, chunks(s1.pending + b, fs)).0;
    let p3 = process_frames(s.decoder, s.pending_sync, chunks(x + b, fs)).0;
    lemma_pcm_of_single(p1);
    lemma_pcm_of_single(p2);
    lemma_pcm_of_single(p3);
    assert(p1 + p2 == p3);
}

proof fn lemma_pcm_of_single(p: Seq<i16>)
    ensures
        pcm_of(
            if p.len() > 0 {
                Seq::<ActionView>::empty().push(ActionView::Pcm(p))
            } else {
                Seq::<ActionView>::empty()
            },
        ) == p,
{
    let e = Seq::<ActionView>::empty();
    if p.len() > 0 {
        assert(e.push(ActionView::Pcm(p)).drop_last() =~= e);
        assert(pcm_of(e) == Seq::<i16>::empty());
        assert(Seq::<i16>::empty() + p =~= p);
    } else {
        assert(p =~= Seq::<i16>::empty());
    }
}

/// All PCM carried by a list of actions, in order.
pub open spec fn pcm_of(acts: Seq<ActionView>) -> Seq<i16>
    decreases acts.len(),
{
    if acts.len() == 0 {
        Seq::empty()
    } else {
        pcm_of(acts.drop_last()) + match acts.last() {
            ActionView::Pcm(p) => p,
            _ => Seq::empty(),
        }
    }
}

} // verus!
