//! Frame reassembly and the integer part of audio post-processing.

use vstd::prelude::*;

verus! {

/// The complete `frame_size`-byte frames at the front of `s`, in order.
pub open spec fn chunks(s: Seq<u8>, frame_size: nat) -> Seq<Seq<u8>>
    decreases s.len(),
{
    if frame_size == 0 || s.len() < frame_size {
        Seq::empty()
    } else {
        seq![s.take(frame_size as int)] + chunks(s.skip(frame_size as int), frame_size)
    }
}

/// What is left of `s` after its complete frames: fewer than `frame_size` bytes.
pub open spec fn rest(s: Seq<u8>, frame_size: nat) -> Seq<u8>
    decreases s.len(),
{
    if frame_size == 0 || s.len() < frame_size {
        s
    } else {
        rest(s.skip(frame_size as int), frame_size)
    }
}

/// All bytes of a sequence of frames, in order.
pub open spec fn flatten(frames: Seq<Seq<u8>>) -> Seq<u8>
    decreases frames.len(),
{
    if frames.len() == 0 {
        Seq::empty()
    } else {
        frames[0] + flatten(frames.skip(1))
    }
}

/// All the data of several pushes, in order.
pub open spec fn concat_all(datas: Seq<Seq<u8>>) -> Seq<u8>
    decreases datas.len(),
{
    if datas.len() == 0 {
        Seq::empty()
    } else {
        concat_all(datas.drop_last()) + datas.last()
    }
}

/// The frames handed out, and the bytes left pending, by pushing each of
/// `datas` in turn onto pending bytes `p` with frame size `k`, as each push's
/// contract describes it.
pub open spec fn run_pushes(p: Seq<u8>, datas: Seq<Seq<u8>>, k: nat) -> (Seq<Seq<u8>>, Seq<u8>)
    decreases datas.len(),
{
    if datas.len() == 0 {
        (Seq::empty(), p)
    } else {
        let (f, q) = run_pushes(p, datas.drop_last(), k);
        (f + chunks(q + datas.last(), k), rest(q + datas.last(), k))
    }
}

/// Frames across pushes: pushing data in several parts hands out the same
/// frames, in the same order, and leaves the same bytes pending as pushing
/// it all at once. The pending bytes `p` are those an accumulator holds,
/// fewer than a frame. From an empty accumulator (after `new` or `reset`) the
/// frames are the complete frames of all the data pushed.
pub proof fn law_frames_across_pushes(p: Seq<u8>, datas: Seq<Seq<u8>>, k: nat)
    requires
        k > 0,
        p.len() < k,
    ensures
        run_pushes(p, datas, k) == (chunks(p + concat_all(datas), k), rest(p + concat_all(datas), k)),
    decreases datas.len(),
{
    if datas.len() == 0 {
        assert(p + concat_all(datas) =~= p);
        assert(chunks(p, k) =~= Seq::<Seq<u8>>::empty());
    } else {
        let c = concat_all(datas.drop_last());
        law_frames_across_pushes(p, datas.drop_last(), k);
        lemma_chunks_concat(p + c, datas.last(), k);
        assert(p + c + datas.last() =~= p + concat_all(datas));
    }
}

/// The frames of `s` are its consecutive `k`-byte pieces: there are
/// `s.len() / k` of them, the `i`-th being bytes `k * i` up to `k * (i + 1)`.
pub proof fn law_chunks_are_consecutive_pieces(s: Seq<u8>, k: nat)
    requires
        k > 0,
    ensures
        chunks(s, k).len() == (s.len() as int) / (k as int),
        forall|i: int|
            0 <= i < chunks(s, k).len() ==> #[trigger] chunks(s, k)[i] == s.subrange(k * i, k * i + k),
    decreases s.len(),
{
    if s.len() >= k {
        let t = s.skip(k as int);
        law_chunks_are_consecutive_pieces(t, k);
        let n = s.len() as int;
        assert((n - k) / (k as int) + 1 == n / (k as int)) by (nonlinear_arith)
            requires
                n >= k,
                k > 0,
        {
            vstd::arithmetic::div_mod::lemma_fundamental_div_mod(n - k, k as int);
            vstd::arithmetic::div_mod::lemma_fundamental_div_mod(n, k as int);
        }
        let c = chunks(s, k);
        assert forall|i: int| 0 <= i < c.len() implies #[trigger] c[i] == s.subrange(k * i, k * i + k) by {
            if i == 0 {
                assert(c[0] == s.take(k as int));
                assert(s.take(k as int) =~= s.subrange(0, k as int));
                assert(k * 0 == 0) by (nonlinear_arith);
            } else {
                assert(c[i] == chunks(t, k)[i - 1]);
                let q = (n - k) / (k as int);
                assert(k * (i - 1) + k <= n - k) by (nonlinear_arith)
                    requires
                        i - 1 < q,
                        q == (n - k) / (k as int),
                        n - k >= 0,
                        k > 0,
                {
                    vstd::arithmetic::div_mod::lemma_fundamental_div_mod(n - k, k as int);
                }
                assert(k * (i - 1) + k == k * i) by (nonlinear_arith);
                assert(k * (i - 1) + k + k == k * i + k) by (nonlinear_arith);
                assert(k * (i - 1) >= 0) by (nonlinear_arith)
                    requires
                        i >= 1,
                ;
                assert(t.subrange(k * (i - 1), k * (i - 1) + k) =~= s.subrange(k * i, k * i + k));
            }
        }
    } else {
        assert((s.len() as int) / (k as int) == 0) by (nonlinear_arith)
            requires
                0 <= s.len() < k,
        ;
    }
}

pub open spec fn frames_view(frames: Seq<Vec<u8>>) -> Seq<Seq<u8>> {
    frames.map_values(|f: Vec<u8>| f@)
}

/// Every frame is exactly `frame_size` bytes, the remainder is shorter than a
/// frame, and frames followed by the remainder give back the input.
pub proof fn lemma_chunks_partition(s: Seq<u8>, frame_size: nat)
    requires
        frame_size > 0,
    ensures
        flatten(chunks(s, frame_size)) + rest(s, frame_size) == s,
        rest(s, frame_size).len() < frame_size,
        forall|i: int| 0 <= i < chunks(s, frame_size).len()
            ==> #[trigger] chunks(s, frame_size)[i].len() == frame_size,
    decreases s.len(),
{
    if s.len() >= frame_size {
        let t = s.skip(frame_size as int);
        lemma_chunks_partition(t, frame_size);
        let c = chunks(s, frame_size);
        assert(c.skip(1) =~= chunks(t, frame_size));
        assert(s =~= s.take(frame_size as int) + t);
        assert forall|i: int| 0 <= i < c.len() implies #[trigger] c[i].len() == frame_size by {
            if i > 0 {
                assert(c[i] == chunks(t, frame_size)[i - 1]);
            }
        }
    } else {
        assert(flatten(Seq::<Seq<u8>>::empty()) =~= Seq::<u8>::empty());
        assert(Seq::<u8>::empty() + s =~= s);
    }
}

/// Chunking is incremental: chunking `x` and then its remainder followed by
/// `y` yields the same frames and remainder as chunking `x + y` at once.
pub proof fn lemma_chunks_concat(x: Seq<u8>, y: Seq<u8>, frame_size: nat)
    requires
        frame_size > 0,
    ensures
        chunks(x + y, frame_size) == chunks(x, frame_size) + chunks(
            rest(x, frame_size) + y,
            frame_size,
        ),
        rest(x + y, frame_size) == rest(rest(x, frame_size) + y, frame_size),
    decreases x.len(),
{
    if x.len() >= frame_size {
        let t = x.skip(frame_size as int);
        lemma_chunks_concat(t, y, frame_size);
        assert((x + y).skip(frame_size as int) =~= t + y);
        assert((x + y).take(frame_size as int) =~= x.take(frame_size as int));
        assert(chunks(x + y, frame_size) =~= chunks(x, frame_size) + chunks(
            rest(x, frame_size) + y,
            frame_size,
        ));
    } else {
        assert(chunks(x, frame_size) =~= Seq::<Seq<u8>>::empty());
        assert(chunks(x + y, frame_size) =~= chunks(x, frame_size) + chunks(x + y, frame_size));
    }
}

/// Collects variable-sized GATT notifications into fixed-size ADPCM frames.
pub struct FrameAccumulator {
    pending: Vec<u8>,
}

impl View for FrameAccumulator {
    type V = Seq<u8>;

    /// The bytes received that do not yet make up a complete frame.
    closed spec fn view(&self) -> Seq<u8> {
        self.pending@
    }
}

fn copy_range(v: &Vec<u8>, lo: usize, hi: usize) -> (r: Vec<u8>)
    requires
        lo <= hi <= v@.len(),
    ensures
        r@ == v@.subrange(lo as int, hi as int),
{
    let mut r: Vec<u8> = Vec::new();
    let mut i = lo;
    while i < hi
        invariant
            lo <= i <= hi <= v@.len(),
            r@ == v@.subrange(lo as int, i as int),
        decreases hi - i,
    {
        r.push(v[i]);
        i = i + 1;
        assert(r@ =~= v@.subrange(lo as int, i as int));
    }
    r
}

impl FrameAccumulator {
    pub fn new() -> (r: Self)
        ensures
            r@ == Seq::<u8>::empty(),
    {
        FrameAccumulator { pending: Vec::new() }
    }

    /// Appends `data` and returns every frame that is now complete, in order.
    /// A zero `frame_size` is ignored altogether (nothing is buffered).
    pub fn push(&mut self, data: &[u8], frame_size: usize) -> (frames: Vec<Vec<u8>>)
        ensures
            frame_size == 0 ==> final(self)@ == old(self)@ && frames@.len() == 0,
            frame_size > 0 ==> frames_view(frames@) == chunks(old(self)@ + data@, frame_size as nat)
                && final(self)@ == rest(old(self)@ + data@, frame_size as nat),
    {
        let mut frames: Vec<Vec<u8>> = Vec::new();
        if frame_size == 0 {
            return frames;
        }
        let ghost fs = frame_size as nat;
        let ghost p0 = self.pending@;
        let mut i: usize = 0;
        while i < data.len()
            invariant
                i <= data@.len(),
                self.pending@ == p0 + data@.take(i as int),
            decreases data@.len() - i,
        {
            self.pending.push(data[i]);
            i = i + 1;
            assert(self.pending@ =~= p0 + data@.take(i as int));
        }
        assert(data@.take(data@.len() as int) =~= data@);
        let ghost all = self.pending@;
        let len = self.pending.len();
        let mut off: usize = 0;
        assert(all.skip(0) =~= all);
        while len - off >= frame_size
            invariant
                len == all.len(),
                all == self.pending@,
                off <= len,
                fs == frame_size,
                frame_size > 0,
                frames_view(frames@) + chunks(all.skip(off as int), fs) == chunks(all, fs),
                rest(all.skip(off as int), fs) == rest(all, fs),
            decreases len - off,
        {
            let frame = copy_range(&self.pending, off, off + frame_size);
            proof {
                let t = all.skip(off as int);
                assert(t.take(fs as int) =~= frame@);
                assert(t.skip(fs as int) =~= all.skip(off + fs));
                assert(frames_view(frames@.push(frame)) =~= frames_view(frames@).push(frame@));
                assert(chunks(t, fs) == seq![frame@] + chunks(all.skip(off + fs), fs));
                assert(frames_view(frames@).push(frame@) + chunks(all.skip(off + fs), fs)
                    =~= frames_view(frames@) + chunks(t, fs));
            }
            frames.push(frame);
            off = off + frame_size;
        }
        proof {
            let t = all.skip(off as int);
            assert(chunks(t, fs) =~= Seq::<Seq<u8>>::empty());
            assert(frames_view(frames@) + chunks(t, fs) =~= frames_view(frames@));
        }
        let remaining = copy_range(&self.pending, off, len);
        assert(remaining@ =~= all.skip(off as int));
        self.pending = remaining;
        frames
    }

    pub fn reset(&mut self)
        ensures
            final(self)@ == Seq::<u8>::empty(),
    {
        self.pending.clear();
    }
}

impl Default for FrameAccumulator {
    fn default() -> (r: Self)
        ensures
            r@ == Seq::<u8>::empty(),
    {
        Self::new()
    }
}

/// The (1, 2, 1) / 4 three-tap smoothing, rounded towards negative infinity.
/// The first and last samples are left as they are, and so is any sequence
/// shorter than three samples.
pub open spec fn smoothed(s: Seq<i16>) -> Seq<i16> {
    if s.len() < 3 {
        s
    } else {
        Seq::new(
            s.len(),
            |i: int|
                if i == 0 || i == s.len() - 1 {
                    s[i]
                } else {
                    ((s[i - 1] as int + 2 * s[i] as int + s[i + 1] as int) / 4) as i16
                },
        )
    }
}

/// Applies the three-tap smoothing in place. This is the integer part of the
/// post-processing; the decibel gain is floating point and applied by the
/// caller.
pub fn smooth(samples: &mut Vec<i16>)
    ensures
        final(samples)@ == smoothed(old(samples)@),
{
    let n = samples.len();
    if n < 3 {
        return;
    }
    let orig = samples.clone();
    let ghost o = old(samples)@;
    assert(orig@ == o);
    let mut i: usize = 1;
    while i < n - 1
        invariant
            n == o.len(),
            n >= 3,
            orig@ == o,
            1 <= i <= n - 1,
            samples@.len() == n,
            samples@[0] == o[0],
            samples@[n - 1] == o[n - 1],
            forall|j: int| 1 <= j < i ==> #[trigger] samples@[j] == smoothed(o)[j],
            forall|j: int| i <= j < n ==> #[trigger] samples@[j] == o[j],
        decreases n - 1 - i,
    {
        let x: i32 = orig[i - 1] as i32 + 2 * (orig[i] as i32) + orig[i + 1] as i32;
        let q = x >> 2;
        assert(4 * q <= x && x < 4 * q + 4 && -32768 <= q <= 32767) by (bit_vector)
            requires
                q == x >> 2,
                -131072 <= x <= 131068,
        ;
        assert(q as int == (x as int) / 4);
        samples.set(i, q as i16);
        i = i + 1;
    }
    assert(samples@ =~= smoothed(o));
}

} // verus!
