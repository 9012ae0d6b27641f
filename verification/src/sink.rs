//! PCM outlets.
//!
//! The 16 kHz mono PCM decoded by a session leaves through [`AudioSink`].
//! Implementations (loopback output, WAV dump, later speech recognition) are
//! provided by the application; the bridge calls them synchronously.

use vstd::prelude::*;

verus! {

/// What a sink is handed, in order.
pub enum SinkEvent {
    Start,
    Pcm(Seq<i16>),
    Stop,
}

/// The PCM among sink events, in order.
pub open spec fn pcm_heard(evs: Seq<SinkEvent>) -> Seq<i16>
    decreases evs.len(),
{
    if evs.len() == 0 {
        Seq::empty()
    } else {
        pcm_heard(evs.drop_last()) + match evs.last() {
            SinkEvent::Pcm(p) => p,
            _ => Seq::empty(),
        }
    }
}

/// Whether a stream is open after `evs`: the last start or stop is a start.
pub open spec fn stream_open(evs: Seq<SinkEvent>) -> bool
    decreases evs.len(),
{
    if evs.len() == 0 {
        false
    } else {
        match evs.last() {
            SinkEvent::Start => true,
            SinkEvent::Stop => false,
            SinkEvent::Pcm(_) => stream_open(evs.drop_last()),
        }
    }
}

pub proof fn lemma_pcm_heard_concat(a: Seq<SinkEvent>, b: Seq<SinkEvent>)
    ensures
        pcm_heard(a + b) == pcm_heard(a) + pcm_heard(b),
    decreases b.len(),
{
    if b.len() == 0 {
        assert(a + b =~= a);
        assert(pcm_heard(a) + Seq::<i16>::empty() =~= pcm_heard(a));
    } else {
        lemma_pcm_heard_concat(a, b.drop_last());
        assert((a + b).drop_last() =~= a + b.drop_last());
        assert((a + b).last() == b.last());
        let tail = match b.last() {
            SinkEvent::Pcm(p) => p,
            _ => Seq::<i16>::empty(),
        };
        assert(pcm_heard(a) + pcm_heard(b.drop_last()) + tail =~= pcm_heard(a) + (pcm_heard(b.drop_last())
            + tail));
    }
}

/// A consumer of decoded PCM.
///
/// `heard` and `records` model a sink's state: a sink that records keeps, in
/// `heard`, every stream start, block of PCM and stream stop it was handed,
/// in order. A sink that discards what it is handed, or hands it on, does not
/// record it itself; that is what a sink says unless it defines its model.
pub trait AudioSink: Send {
    open spec fn heard(&self) -> Seq<SinkEvent> {
        Seq::empty()
    }

    open spec fn records(&self) -> bool {
        false
    }

    /// A voice stream begins.
    fn on_stream_start(&mut self)
        ensures
            final(self).records() == old(self).records(),
            old(self).records() ==> final(self).heard() == old(self).heard().push(SinkEvent::Start),
    ;

    /// 16 kHz mono 16-bit PCM.
    fn push(&mut self, pcm: &[i16])
        ensures
            final(self).records() == old(self).records(),
            old(self).records() ==> final(self).heard() == old(self).heard().push(SinkEvent::Pcm(pcm@)),
    ;

    /// The voice stream ends.
    fn on_stream_stop(&mut self)
        ensures
            final(self).records() == old(self).records(),
            old(self).records() ==> final(self).heard() == old(self).heard().push(SinkEvent::Stop),
    ;
}

/// Discards everything (for debugging).
pub struct NullSink;

impl AudioSink for NullSink {
    fn on_stream_start(&mut self) {
    }

    fn push(&mut self, _pcm: &[i16]) {
    }

    fn on_stream_stop(&mut self) {
    }
}

/// Fans out to several sinks, in order.
pub struct MultiSink {
    sinks: Vec<Box<dyn AudioSink>>,
}

impl MultiSink {
    pub fn new(sinks: Vec<Box<dyn AudioSink>>) -> (r: Self)
        ensures
            r.len() == sinks@.len(),
    {
        MultiSink { sinks }
    }

    pub closed spec fn len(&self) -> nat {
        self.sinks@.len()
    }

    /// Whether the `i`-th sink records what it is handed.
    pub closed spec fn sink_records(&self, i: int) -> bool {
        self.sinks@[i].records()
    }

    /// What the `i`-th sink has been handed so far.
    pub closed spec fn sink_heard(&self, i: int) -> Seq<SinkEvent> {
        self.sinks@[i].heard()
    }

    pub fn is_empty(&self) -> (r: bool)
        ensures
            r == (self.len() == 0),
    {
        self.sinks.len() == 0
    }
}

impl AudioSink for MultiSink {
    /// Starts the stream on every sink, in order.
    fn on_stream_start(&mut self)
        ensures
            final(self).len() == old(self).len(),
            forall|i: int|
                0 <= i < old(self).len() ==> (#[trigger] final(self).sink_records(i)) == old(self).sink_records(i)
                    && (old(self).sink_records(i) ==> final(self).sink_heard(i) == old(self).sink_heard(i).push(
                    SinkEvent::Start,
                )),
    {
        let n = self.sinks.len();
        let mut i: usize = 0;
        while i < n
            invariant
                n == self.sinks@.len(),
                n == old(self).sinks@.len(),
                i <= n,
                forall|j: int|
                    0 <= j < i ==> (#[trigger] self.sinks@[j].records()) == old(self).sinks@[j].records()
                        && (old(self).sinks@[j].records() ==> self.sinks@[j].heard() == old(
                        self,
                    ).sinks@[j].heard().push(SinkEvent::Start)),
                forall|j: int| i <= j < n ==> self.sinks@[j] == old(self).sinks@[j],
            decreases n - i,
        {
            self.sinks[i].on_stream_start();
            i = i + 1;
        }
    }

    /// Hands the PCM to every sink, in order.
    fn push(&mut self, pcm: &[i16])
        ensures
            final(self).len() == old(self).len(),
            forall|i: int|
                0 <= i < old(self).len() ==> (#[trigger] final(self).sink_records(i)) == old(self).sink_records(i)
                    && (old(self).sink_records(i) ==> final(self).sink_heard(i) == old(self).sink_heard(i).push(
                    SinkEvent::Pcm(pcm@),
                )),
    {
        let n = self.sinks.len();
        let mut i: usize = 0;
        while i < n
            invariant
                n == self.sinks@.len(),
                n == old(self).sinks@.len(),
                i <= n,
                forall|j: int|
                    0 <= j < i ==> (#[trigger] self.sinks@[j].records()) == old(self).sinks@[j].records()
                        && (old(self).sinks@[j].records() ==> self.sinks@[j].heard() == old(
                        self,
                    ).sinks@[j].heard().push(SinkEvent::Pcm(pcm@))),
                forall|j: int| i <= j < n ==> self.sinks@[j] == old(self).sinks@[j],
            decreases n - i,
        {
            self.sinks[i].push(pcm);
            i = i + 1;
        }
    }

    /// Stops the stream on every sink, in order.
    fn on_stream_stop(&mut self)
        ensures
            final(self).len() == old(self).len(),
            forall|i: int|
                0 <= i < old(self).len() ==> (#[trigger] final(self).sink_records(i)) == old(self).sink_records(i)
                    && (old(self).sink_records(i) ==> final(self).sink_heard(i) == old(self).sink_heard(i).push(
                    SinkEvent::Stop,
                )),
    {
        let n = self.sinks.len();
        let mut i: usize = 0;
        while i < n
            invariant
                n == self.sinks@.len(),
                n == old(self).sinks@.len(),
                i <= n,
                forall|j: int|
                    0 <= j < i ==> (#[trigger] self.sinks@[j].records()) == old(self).sinks@[j].records()
                        && (old(self).sinks@[j].records() ==> self.sinks@[j].heard() == old(
                        self,
                    ).sinks@[j].heard().push(SinkEvent::Stop)),
                forall|j: int| i <= j < n ==> self.sinks@[j] == old(self).sinks@[j],
            decreases n - i,
        {
            self.sinks[i].on_stream_stop();
            i = i + 1;
        }
    }
}

} // verus!
