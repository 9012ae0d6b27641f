//! The bridge's decisions: recognising the remote among Bluetooth devices,
//! handing a session's actions out, and winding a session down when its
//! connection ends.

use vstd::prelude::*;
use crate::atvv;
use crate::text::starts_with;
use crate::session::{
    actions_view, audio_step, control_step, finish_step, pcm_of, take_mic_close_step, Action,
    ActionView, AtvvSession, SessionView, law_control_emits_at_most_one,
};
use crate::sink::{lemma_pcm_heard_concat, pcm_heard, stream_open, AudioSink, SinkEvent};

verus! {

/// Advertised names of the supported remotes (2 Pro / RC003 and the basic
/// model / ARN9 share names and protocol).
pub const NAME_CANDIDATES: [&'static str; 3] = ["MI RC", "Xiaomi Bluetooth Remote 2 Pro", "小米蓝牙语音遥控器"];

pub open spec fn candidate_name(i: int) -> Seq<char> {
    if i == 0 {
        "MI RC"@
    } else if i == 1 {
        "Xiaomi Bluetooth Remote 2 Pro"@
    } else {
        "小米蓝牙语音遥控器"@
    }
}

/// A name matches when it equals, or starts with, one of the known names.
pub open spec fn name_matches_spec(name: Seq<char>) -> bool {
    exists|i: int| 0 <= i < 3 && #[trigger] candidate_name(i).is_prefix_of(name)
}

fn candidate(i: usize) -> (r: &'static str)
    requires
        i < 3,
    ensures
        r@ == candidate_name(i as int),
{
    if i == 0 {
        "MI RC"
    } else if i == 1 {
        "Xiaomi Bluetooth Remote 2 Pro"
    } else {
        "小米蓝牙语音遥控器"
    }
}

pub fn name_matches(name: &str) -> (r: bool)
    ensures
        r == name_matches_spec(name@),
{
    let mut i: usize = 0;
    while i < 3
        invariant
            i <= 3,
            forall|j: int| 0 <= j < i ==> !(#[trigger] candidate_name(j)).is_prefix_of(name@),
        decreases 3 - i,
    {
        // Equality is the special case of a full-length prefix.
        if starts_with(name, candidate(i)) {
            return true;
        }
        i = i + 1;
    }
    false
}

/// Whether a device may be used: any device while no remote is bound, and
/// only the bound one once a remote is bound (so an identical remote nearby
/// is never picked up by mistake).
pub fn accepts_device(id: &str, bound: Option<&str>) -> (r: bool)
    ensures
        r == match bound {
            None => true,
            Some(b) => id@ == b@,
        },
{
    match bound {
        None => true,
        Some(b) => crate::text::str_equal(id, b),
    }
}

/// An advertisement looks like the remote when it carries the ATVV service or
/// its local name matches a known name.
pub fn advertisement_is_candidate(services: &[u128], local_name: Option<&str>) -> (r: bool)
    ensures
        r == (services@.contains(atvv::SERVICE) || match local_name {
            Some(n) => name_matches_spec(n@),
            None => false,
        }),
{
    let mut i: usize = 0;
    while i < services.len()
        invariant
            i <= services@.len(),
            forall|j: int| 0 <= j < i ==> services@[j] != atvv::SERVICE,
        decreases services@.len() - i,
    {
        if services[i] == atvv::SERVICE {
            assert(services@[i as int] == atvv::SERVICE);
            return true;
        }
        i = i + 1;
    }
    match local_name {
        Some(n) => name_matches(n),
        None => false,
    }
}

pub open spec fn accepts_spec(id: Seq<char>, bound: Option<&str>) -> bool {
    match bound {
        None => true,
        Some(b) => id == b@,
    }
}

/// The device among the system's connected remotes to use: the first one
/// accepted (any while unbound, only the bound one once bound); `None` when
/// none is.
pub fn pick_connected(ids: &[String], bound: Option<&str>) -> (r: Option<usize>)
    ensures
        match r {
            Some(k) => k < ids@.len() && accepts_spec(ids@[k as int]@, bound) && forall|j: int|
                0 <= j < k ==> !accepts_spec(#[trigger] ids@[j]@, bound),
            None => forall|j: int| 0 <= j < ids@.len() ==> !accepts_spec(#[trigger] ids@[j]@, bound),
        },
{
    let mut i: usize = 0;
    while i < ids.len()
        invariant
            i <= ids@.len(),
            forall|j: int| 0 <= j < i ==> !accepts_spec(#[trigger] ids@[j]@, bound),
        decreases ids@.len() - i,
    {
        if accepts_device(ids[i].as_str(), bound) {
            return Some(i);
        }
        i = i + 1;
    }
    None
}

/// Whether a scanned advertisement is the remote to use: it looks like the
/// remote, and the device is accepted. The scan takes the first such one.
pub fn accepts_advertisement(services: &[u128], local_name: Option<&str>, id: &str, bound: Option<&str>) -> (r:
    bool)
    ensures
        r == ((services@.contains(atvv::SERVICE) || match local_name {
            Some(n) => name_matches_spec(n@),
            None => false,
        }) && accepts_spec(id@, bound)),
{
    advertisement_is_candidate(services, local_name) && accepts_device(id, bound)
}


/// The TX payloads among `acts`, in order.
pub open spec fn tx_payloads(acts: Seq<ActionView>) -> Seq<Seq<u8>>
    decreases acts.len(),
{
    if acts.len() == 0 {
        Seq::empty()
    } else {
        let rest = tx_payloads(acts.drop_last());
        match acts.last() {
            ActionView::SendTx(b) => rest.push(b),
            _ => rest,
        }
    }
}

/// The reason of the last fatal action among `acts`, if any.
pub open spec fn last_fatal(acts: Seq<ActionView>) -> Option<Seq<char>>
    decreases acts.len(),
{
    if acts.len() == 0 {
        None
    } else {
        match acts.last() {
            ActionView::Fatal(reason) => Some(reason),
            _ => last_fatal(acts.drop_last()),
        }
    }
}

/// What a sink is handed for a list of session actions: stream starts, PCM
/// and stream stops, in order.
pub open spec fn sink_events(acts: Seq<ActionView>) -> Seq<SinkEvent>
    decreases acts.len(),
{
    if acts.len() == 0 {
        Seq::empty()
    } else {
        let rest = sink_events(acts.drop_last());
        match acts.last() {
            ActionView::StreamStarted => rest.push(SinkEvent::Start),
            ActionView::Pcm(p) => rest.push(SinkEvent::Pcm(p)),
            ActionView::StreamStopped => rest.push(SinkEvent::Stop),
            _ => rest,
        }
    }
}

/// The PCM a sink is handed for a list of actions is all the PCM they carry.
pub proof fn lemma_sink_events_pcm(acts: Seq<ActionView>)
    ensures
        pcm_heard(sink_events(acts)) == pcm_of(acts),
    decreases acts.len(),
{
    if acts.len() > 0 {
        let t = acts.drop_last();
        lemma_sink_events_pcm(t);
        let e = sink_events(t);
        match acts.last() {
            ActionView::StreamStarted => {
                assert(e.push(SinkEvent::Start).drop_last() =~= e);
                assert(pcm_of(t) + Seq::<i16>::empty() =~= pcm_of(t));
            },
            ActionView::Pcm(p) => {
                assert(e.push(SinkEvent::Pcm(p)).drop_last() =~= e);
            },
            ActionView::StreamStopped => {
                assert(e.push(SinkEvent::Stop).drop_last() =~= e);
                assert(pcm_of(t) + Seq::<i16>::empty() =~= pcm_of(t));
            },
            _ => {
                assert(pcm_of(t) + Seq::<i16>::empty() =~= pcm_of(t));
            },
        }
    }
}

/// What is left for the connection loop once a batch of session actions has
/// been handed out: the bytes to write to TX, in order, and the protocol
/// error that ends the connection, if any.
pub struct Dispatched {
    pub outgoing: Vec<Vec<u8>>,
    pub fatal: Option<String>,
}

pub open spec fn payloads_view(v: Seq<Vec<u8>>) -> Seq<Seq<u8>> {
    v.map_values(|b: Vec<u8>| b@)
}

/// Hands a batch of session actions out: stream starts and stops and PCM go
/// to `sink` as they come, in order; TX writes and a fatal error are returned
/// to the caller, which owns the radio. The batch is emptied.
pub fn dispatch_actions(actions: &mut Vec<Action>, sink: &mut dyn AudioSink) -> (r: Dispatched)
    ensures
        final(actions)@.len() == 0,
        final(sink).records() == old(sink).records(),
        old(sink).records() ==> final(sink).heard() == old(sink).heard() + sink_events(
            actions_view(old(actions)@),
        ),
        old(sink).records() ==> pcm_heard(final(sink).heard()) == pcm_heard(old(sink).heard()) + pcm_of(
            actions_view(old(actions)@),
        ),
        payloads_view(r.outgoing@) == tx_payloads(actions_view(old(actions)@)),
        match r.fatal {
            Some(reason) => last_fatal(actions_view(old(actions)@)) == Some(reason@),
            None => last_fatal(actions_view(old(actions)@)) is None,
        },
{
    let ghost acts = actions_view(actions@);
    let ghost rec = sink.records();
    let ghost h0 = sink.heard();
    let mut batch: Vec<Action> = Vec::new();
    std::mem::swap(&mut batch, actions);
    let n = batch.len();
    let mut outgoing: Vec<Vec<u8>> = Vec::new();
    let mut fatal: Option<String> = None;
    let mut i: usize = 0;
    while i < n
        invariant
            n == acts.len(),
            i <= n,
            actions@.len() == 0,
            actions_view(batch@) == acts.skip(i as int),
            payloads_view(outgoing@) == tx_payloads(acts.take(i as int)),
            sink.records() == rec,
            rec ==> sink.heard() == h0 + sink_events(acts.take(i as int)),
            match fatal {
                Some(reason) => last_fatal(acts.take(i as int)) == Some(reason@),
                None => last_fatal(acts.take(i as int)) is None,
            },
        decreases n - i,
    {
        let ghost b0 = batch@;
        assert(actions_view(b0).len() == b0.len());
        let action = batch.remove(0);
        proof {
            assert(acts.take(i + 1).drop_last() =~= acts.take(i as int));
            assert(acts.skip(i as int)[0] == acts[i as int]);
            assert(action == b0[0]);
            assert(actions_view(b0)[0] == action@);
            assert(acts.take(i + 1).last() == action@);
            assert(actions_view(batch@) =~= acts.skip(i + 1)) by {
                assert(batch@ =~= b0.subrange(1, b0.len() as int));
                assert forall|k: int| 0 <= k < batch@.len() implies actions_view(batch@)[k]
                    == acts.skip(i + 1)[k] by {
                    assert(actions_view(batch@)[k] == b0[k + 1]@);
                    assert(actions_view(b0)[k + 1] == acts.skip(i as int)[k + 1]);
                }
            }
        }
        match action {
            Action::SendTx(bytes) => {
                outgoing.push(bytes);
                proof {
                    assert(payloads_view(outgoing@) =~= tx_payloads(acts.take(i as int)).push(
                        acts[i as int]->SendTx_0,
                    ));
                }
            },
            Action::StreamStarted => {
                sink.on_stream_start();
                assert(payloads_view(outgoing@) =~= tx_payloads(acts.take(i + 1)));
                assert(h0 + sink_events(acts.take(i + 1)) =~= (h0 + sink_events(acts.take(i as int))).push(
                    SinkEvent::Start,
                ));
            },
            Action::Pcm(samples) => {
                sink.push(samples.as_slice());
                assert(payloads_view(outgoing@) =~= tx_payloads(acts.take(i + 1)));
                assert(h0 + sink_events(acts.take(i + 1)) =~= (h0 + sink_events(acts.take(i as int))).push(
                    SinkEvent::Pcm(samples@),
                ));
            },
            Action::StreamStopped => {
                sink.on_stream_stop();
                assert(payloads_view(outgoing@) =~= tx_payloads(acts.take(i + 1)));
                assert(h0 + sink_events(acts.take(i + 1)) =~= (h0 + sink_events(acts.take(i as int))).push(
                    SinkEvent::Stop,
                ));
            },
            Action::Fatal(reason) => {
                fatal = Some(reason);
                assert(payloads_view(outgoing@) =~= tx_payloads(acts.take(i + 1)));
            },
        }
        i = i + 1;
    }
    assert(acts.take(n as int) =~= acts);
    proof {
        lemma_sink_events_pcm(acts);
        lemma_pcm_heard_concat(h0, sink_events(acts));
    }
    Dispatched { outgoing, fatal }
}

/// Winds a session down when its connection ends: a running stream is
/// reported stopped to `sink`, and the MIC_CLOSE still owed for an open
/// microphone is returned for the caller to send.
pub fn wind_down(session: &mut AtvvSession, sink: &mut dyn AudioSink) -> (r: Option<Vec<u8>>)
    ensures
        final(sink).records() == old(sink).records(),
        old(sink).records() ==> final(sink).heard() == (if old(session)@.streaming {
            old(sink).heard().push(SinkEvent::Stop)
        } else {
            old(sink).heard()
        }),
        old(sink).records() && old(session)@.streaming ==> !stream_open(final(sink).heard()),
        final(session)@ == take_mic_close_step(finish_step(old(session)@).0).0,
        match r {
            Some(v) => take_mic_close_step(finish_step(old(session)@).0).1 == Some(v@),
            None => take_mic_close_step(finish_step(old(session)@).0).1 is None,
        },
{
    let mut actions: Vec<Action> = Vec::new();
    session.finish(&mut actions);
    if actions.len() > 0 {
        sink.on_stream_stop();
    }
    session.take_mic_close()
}

/// Whether a stream is open after `evs`, starting from `open`.
pub open spec fn open_after(open: bool, evs: Seq<SinkEvent>) -> bool
    decreases evs.len(),
{
    if evs.len() == 0 {
        open
    } else {
        match evs.last() {
            SinkEvent::Start => true,
            SinkEvent::Stop => false,
            SinkEvent::Pcm(_) => open_after(open, evs.drop_last()),
        }
    }
}

/// `evs` is well bracketed from a state where a stream is `open` or not: a
/// start comes only when no stream is open, PCM and a stop only while one is.
pub open spec fn bracketed(open: bool, evs: Seq<SinkEvent>) -> bool
    decreases evs.len(),
{
    if evs.len() == 0 {
        true
    } else {
        let before = open_after(open, evs.drop_last());
        bracketed(open, evs.drop_last()) && match evs.last() {
            SinkEvent::Start => !before,
            _ => before,
        }
    }
}

proof fn lemma_events_push(acts: Seq<ActionView>, a: ActionView)
    ensures
        sink_events(acts.push(a)) == match a {
            ActionView::StreamStarted => sink_events(acts).push(SinkEvent::Start),
            ActionView::Pcm(p) => sink_events(acts).push(SinkEvent::Pcm(p)),
            ActionView::StreamStopped => sink_events(acts).push(SinkEvent::Stop),
            _ => sink_events(acts),
        },
{
    assert(acts.push(a).drop_last() =~= acts);
}

proof fn lemma_one_event(a: ActionView)
    ensures
        sink_events(seq![a]) == match a {
            ActionView::StreamStarted => seq![SinkEvent::Start],
            ActionView::Pcm(p) => seq![SinkEvent::Pcm(p)],
            ActionView::StreamStopped => seq![SinkEvent::Stop],
            _ => Seq::<SinkEvent>::empty(),
        },
{
    lemma_events_push(Seq::empty(), a);
    assert(Seq::<ActionView>::empty().push(a) =~= seq![a]);
    assert(Seq::<SinkEvent>::empty().push(SinkEvent::Start) =~= seq![SinkEvent::Start]);
    assert(Seq::<SinkEvent>::empty().push(SinkEvent::Stop) =~= seq![SinkEvent::Stop]);
    if let ActionView::Pcm(p) = a {
        assert(Seq::<SinkEvent>::empty().push(SinkEvent::Pcm(p)) =~= seq![SinkEvent::Pcm(p)]);
    }
}

proof fn lemma_single_bracketed(open: bool, e: SinkEvent)
    ensures
        bracketed(open, seq![e]) == match e {
            SinkEvent::Start => !open,
            _ => open,
        },
        open_after(open, seq![e]) == match e {
            SinkEvent::Start => true,
            SinkEvent::Stop => false,
            SinkEvent::Pcm(_) => open,
        },
{
    lemma_bracketed_push(open, Seq::empty(), e);
    assert(Seq::<SinkEvent>::empty().push(e) =~= seq![e]);
}

proof fn lemma_bracketed_push(open: bool, evs: Seq<SinkEvent>, e: SinkEvent)
    ensures
        bracketed(open, evs.push(e)) == (bracketed(open, evs) && match e {
            SinkEvent::Start => !open_after(open, evs),
            _ => open_after(open, evs),
        }),
        open_after(open, evs.push(e)) == match e {
            SinkEvent::Start => true,
            SinkEvent::Stop => false,
            SinkEvent::Pcm(_) => open_after(open, evs),
        },
{
    assert(evs.push(e).drop_last() =~= evs);
    assert(evs.push(e).last() == e);
}

/// What a session hands a sink is well bracketed, and a stream is open on
/// the sink exactly while the session is streaming: so over a connection the
/// sink sees starts and stops alternate, starting with a start, with PCM only
/// inside a stream, and winding down closes a stream still open. Stated for
/// one control packet, one audio packet and the wind-down.
pub proof fn law_sink_calls_are_bracketed(s: SessionView, data: Seq<u8>, now_ms: u64)
    ensures
        bracketed(s.streaming, sink_events(control_step(s, data, now_ms).1)),
        open_after(s.streaming, sink_events(control_step(s, data, now_ms).1)) == control_step(s, data, now_ms).0.streaming,
        bracketed(s.streaming, sink_events(audio_step(s, data, now_ms).1)),
        open_after(s.streaming, sink_events(audio_step(s, data, now_ms).1)) == audio_step(s, data, now_ms).0.streaming,
        bracketed(s.streaming, sink_events(finish_step(s).1)),
        !open_after(s.streaming, sink_events(finish_step(s).1)),
{
    let e = Seq::<ActionView>::empty();
    assert(sink_events(e) == Seq::<SinkEvent>::empty());
    lemma_one_event(ActionView::StreamStarted);
    lemma_one_event(ActionView::StreamStopped);
    lemma_single_bracketed(s.streaming, SinkEvent::Start);
    lemma_single_bracketed(s.streaming, SinkEvent::Stop);
    let c = control_step(s, data, now_ms);
    if c.1.len() == 1 {
        lemma_one_event(c.1[0]);
        assert(c.1 =~= seq![c.1[0]]);
    }
    let a = audio_step(s, data, now_ms);
    if s.caps_confirmed && !(!s.streaming && crate::session::is_stale(s.last_stop_ms, now_ms)) {
        let a1 = if !s.streaming {
            seq![ActionView::StreamStarted]
        } else {
            e
        };
        if a.1.len() > a1.len() {
            let p = a.1.last();
            assert(a.1 =~= a1.push(p));
            lemma_events_push(a1, p);
            lemma_bracketed_push(s.streaming, sink_events(a1), SinkEvent::Pcm(p->Pcm_0));
        }
    }
}

/// Bracketing composes: a history followed by more events is well bracketed
/// exactly when both parts are, the second from where the first left off.
pub proof fn law_bracketing_composes(open: bool, a: Seq<SinkEvent>, b: Seq<SinkEvent>)
    ensures
        bracketed(open, a + b) == (bracketed(open, a) && bracketed(open_after(open, a), b)),
        open_after(open, a + b) == open_after(open_after(open, a), b),
    decreases b.len(),
{
    if b.len() == 0 {
        assert(a + b =~= a);
    } else {
        law_bracketing_composes(open, a, b.drop_last());
        assert(a + b =~= (a + b.drop_last()).push(b.last()));
        assert(b =~= b.drop_last().push(b.last()));
        lemma_bracketed_push(open, a + b.drop_last(), b.last());
        lemma_bracketed_push(open_after(open, a), b.drop_last(), b.last());
    }
}

/// One input of a connection: a control packet or an audio packet, with the
/// time it arrived.
pub enum SessionInput {
    Control(Seq<u8>, u64),
    Audio(Seq<u8>, u64),
}

pub open spec fn input_step(s: SessionView, inp: SessionInput) -> (SessionView, Seq<ActionView>) {
    match inp {
        SessionInput::Control(d, t) => control_step(s, d, t),
        SessionInput::Audio(d, t) => audio_step(s, d, t),
    }
}

/// A run of inputs: the session afterwards and all the actions asked for,
/// in order.
pub open spec fn run_session(s: SessionView, inputs: Seq<SessionInput>) -> (SessionView, Seq<ActionView>)
    decreases inputs.len(),
{
    if inputs.len() == 0 {
        (s, Seq::empty())
    } else {
        let (t, a) = run_session(s, inputs.drop_last());
        let (t2, b) = input_step(t, inputs.last());
        (t2, a + b)
    }
}

proof fn lemma_events_concat(a: Seq<ActionView>, b: Seq<ActionView>)
    ensures
        sink_events(a + b) == sink_events(a) + sink_events(b),
    decreases b.len(),
{
    if b.len() == 0 {
        assert(a + b =~= a);
        assert(sink_events(a) + Seq::<SinkEvent>::empty() =~= sink_events(a));
    } else {
        lemma_events_concat(a, b.drop_last());
        assert(a + b =~= (a + b.drop_last()).push(b.last()));
        assert(b =~= b.drop_last().push(b.last()));
        lemma_events_push(a + b.drop_last(), b.last());
        lemma_events_push(b.drop_last(), b.last());
        let x = sink_events(a);
        let y = sink_events(b.drop_last());
        assert(x + y.push(SinkEvent::Start) =~= (x + y).push(SinkEvent::Start));
        assert(x + y.push(SinkEvent::Stop) =~= (x + y).push(SinkEvent::Stop));
        if let ActionView::Pcm(p) = b.last() {
            assert(x + y.push(SinkEvent::Pcm(p)) =~= (x + y).push(SinkEvent::Pcm(p)));
        }
    }
}

proof fn lemma_tx_concat(a: Seq<ActionView>, b: Seq<ActionView>)
    ensures
        tx_payloads(a + b) == tx_payloads(a) + tx_payloads(b),
    decreases b.len(),
{
    if b.len() == 0 {
        assert(a + b =~= a);
        assert(tx_payloads(a) + Seq::<Seq<u8>>::empty() =~= tx_payloads(a));
    } else {
        lemma_tx_concat(a, b.drop_last());
        assert((a + b).drop_last() =~= a + b.drop_last());
        assert((a + b).last() == b.last());
        if let ActionView::SendTx(x) = b.last() {
            assert(tx_payloads(a) + tx_payloads(b.drop_last()).push(x) =~= (tx_payloads(a) + tx_payloads(
                b.drop_last(),
            )).push(x));
        }
    }
}

proof fn lemma_run_bracketed(s: SessionView, inputs: Seq<SessionInput>)
    ensures
        bracketed(s.streaming, sink_events(run_session(s, inputs).1)),
        open_after(s.streaming, sink_events(run_session(s, inputs).1)) == run_session(s, inputs).0.streaming,
    decreases inputs.len(),
{
    if inputs.len() == 0 {
        assert(sink_events(Seq::<ActionView>::empty()) == Seq::<SinkEvent>::empty());
    } else {
        lemma_run_bracketed(s, inputs.drop_last());
        let (t, a) = run_session(s, inputs.drop_last());
        let (t2, b) = input_step(t, inputs.last());
        match inputs.last() {
            SessionInput::Control(d, tm) => law_sink_calls_are_bracketed(t, d, tm),
            SessionInput::Audio(d, tm) => law_sink_calls_are_bracketed(t, d, tm),
        }
        lemma_events_concat(a, b);
        law_bracketing_composes(s.streaming, sink_events(a), sink_events(b));
    }
}

/// Over a whole connection, from a session not streaming (such as a new
/// one): whatever control and audio packets arrive, the sink is handed a well
/// bracketed sequence (starts and stops alternate beginning with a start, PCM
/// only inside a stream), and after the wind-down no stream is left open.
pub proof fn law_connection_sink_calls_are_bracketed(s: SessionView, inputs: Seq<SessionInput>)
    requires
        !s.streaming,
    ensures
        ({
            let (t, acts) = run_session(s, inputs);
            let all = acts + finish_step(t).1;
            &&& bracketed(false, sink_events(all))
            &&& !open_after(false, sink_events(all))
        }),
{
    let (t, acts) = run_session(s, inputs);
    lemma_run_bracketed(s, inputs);
    law_sink_calls_are_bracketed(t, Seq::empty(), 0);
    lemma_events_concat(acts, finish_step(t).1);
    law_bracketing_composes(false, sink_events(acts), sink_events(finish_step(t).1));
}

proof fn lemma_tx_nonempty(b: Seq<ActionView>)
    ensures
        tx_payloads(b).len() > 0 <==> exists|i: int| 0 <= i < b.len() && #[trigger] b[i] is SendTx,
    decreases b.len(),
{
    if b.len() > 0 {
        let t = b.drop_last();
        lemma_tx_nonempty(t);
        if exists|i: int| 0 <= i < t.len() && #[trigger] t[i] is SendTx {
            let i = choose|i: int| 0 <= i < t.len() && #[trigger] t[i] is SendTx;
            assert(b[i] == t[i]);
        }
        if exists|i: int| 0 <= i < b.len() && #[trigger] b[i] is SendTx {
            let i = choose|i: int| 0 <= i < b.len() && #[trigger] b[i] is SendTx;
            if i < b.len() - 1 {
                assert(t[i] == b[i]);
            } else {
                assert(b.last() == b[i]);
            }
        }
        if b.last() is SendTx {
            assert(b[b.len() - 1] == b.last());
        }
    }
}

proof fn lemma_step_mic(t: SessionView, inp: SessionInput)
    ensures
        input_step(t, inp).0.mic_opened == (t.mic_opened || tx_payloads(input_step(t, inp).1).len() > 0),
{
    let b = input_step(t, inp).1;
    match inp {
        SessionInput::Control(d, tm) => {
            law_control_emits_at_most_one(t, d, tm);
        },
        SessionInput::Audio(d, tm) => {},
    }
    assert(b.len() <= 2);
    lemma_tx_nonempty(b);
}

proof fn lemma_run_mic(s: SessionView, inputs: Seq<SessionInput>)
    ensures
        run_session(s, inputs).0.mic_opened == (s.mic_opened || tx_payloads(run_session(s, inputs).1).len() > 0),
    decreases inputs.len(),
{
    if inputs.len() == 0 {
        assert(tx_payloads(Seq::<ActionView>::empty()).len() == 0);
    } else {
        lemma_run_mic(s, inputs.drop_last());
        let (t, a) = run_session(s, inputs.drop_last());
        let (t2, b) = input_step(t, inputs.last());
        lemma_tx_concat(a, b);
        lemma_step_mic(t, inputs.last());
    }
}

/// Over a whole connection: a MIC_CLOSE is owed at the wind-down exactly
/// when the microphone was open at the start or a MIC_OPEN was sent during
/// the connection (the only TX writes a connection asks for are MIC_OPENs,
/// each answering an accepted START_SEARCH).
pub proof fn law_connection_mic_close_owed(s: SessionView, inputs: Seq<SessionInput>)
    ensures
        ({
            let (t, acts) = run_session(s, inputs);
            take_mic_close_step(finish_step(t).0).1 is Some <==> (s.mic_opened || tx_payloads(acts).len() > 0)
        }),
{
    lemma_run_mic(s, inputs);
}

} // verus!
