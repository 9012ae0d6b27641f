//! IMA/DVI ADPCM decoder.
//!
//! ATVV audio carries two 4-bit samples per byte (high nibble first) and
//! decodes to 16-bit PCM.

use vstd::prelude::*;

verus! {

pub const STEP_TABLE: [i32; 89] = [
    7, 8, 9, 10, 11, 12, 13, 14, 16, 17, 19, 21, 23, 25, 28, 31, 34, 37, 41, 45, 50, 55, 60, 66,
    73, 80, 88, 97, 107, 118, 130, 143, 157, 173, 190, 209, 230, 253, 279, 307, 337, 371, 408,
    449, 494, 544, 598, 658, 724, 796, 876, 963, 1060, 1166, 1282, 1411, 1552, 1707, 1878, 2066,
    2272, 2499, 2749, 3024, 3327, 3660, 4026, 4428, 4871, 5358, 5894, 6484, 7132, 7845, 8630,
    9493, 10442, 11487, 12635, 13899, 15289, 16818, 18500, 20350, 22385, 24623, 27086, 29794,
    32767,
];

pub const INDEX_TABLE: [i32; 8] = [-1, -1, -1, -1, 2, 4, 6, 8];

/// Decoder state: the predicted sample and the index into the step table.
pub struct AdpcmState {
    pub predictor: int,
    pub step_index: int,
}

pub open spec fn clamp(v: int, lo: int, hi: int) -> int {
    if v < lo {
        lo
    } else if v > hi {
        hi
    } else {
        v
    }
}

pub open spec fn state_ok(s: AdpcmState) -> bool {
    &&& -32768 <= s.predictor <= 32767
    &&& 0 <= s.step_index <= 88
}

/// The quantized difference that nibble `n` (0..=15) encodes for step size `step`.
pub open spec fn nibble_diff(step: i32, n: i32) -> int {
    (step >> 3) as int
        + (if n & 1 != 0 { (step >> 2) as int } else { 0 })
        + (if n & 2 != 0 { (step >> 1) as int } else { 0 })
        + (if n & 4 != 0 { step as int } else { 0 })
}

/// The state after decoding nibble `n`; its predictor is the emitted sample.
pub open spec fn next_state(s: AdpcmState, n: i32) -> AdpcmState {
    let step = STEP_TABLE@[s.step_index];
    let diff = nibble_diff(step, n);
    let p = if n & 8 != 0 { s.predictor - diff } else { s.predictor + diff };
    AdpcmState {
        predictor: clamp(p, -32768, 32767),
        step_index: clamp(s.step_index + INDEX_TABLE@[(n & 7) as int], 0, 88),
    }
}

/// Decoding a byte sequence from state `s`: the samples produced and the
/// final state. Each byte yields its high nibble's sample, then its low
/// nibble's.
pub open spec fn decode(s: AdpcmState, data: Seq<u8>) -> (Seq<i16>, AdpcmState)
    decreases data.len(),
{
    if data.len() == 0 {
        (Seq::empty(), s)
    } else {
        let (out, s1) = decode(s, data.drop_last());
        let b = data.last();
        let s2 = next_state(s1, (b >> 4) as i32);
        let s3 = next_state(s2, (b & 0x0F) as i32);
        (out.push(s2.predictor as i16).push(s3.predictor as i16), s3)
    }
}

/// One decoding step keeps the decoder state in range.
pub proof fn law_step_keeps_state_in_range(s: AdpcmState, n: i32)
    requires
        state_ok(s),
    ensures
        state_ok(next_state(s, n)),
{
}

/// The difference that a nibble encodes is the IMA ADPCM one: an eighth of
/// the step, plus a quarter of it for bit 0, half of it for bit 1 and the
/// whole step for bit 2 (each part rounded down); bit 3 is the sign.
pub open spec fn ima_difference(step: int, n: int) -> int {
    step / 8 + (if n % 2 == 1 { step / 4 } else { 0 }) + (if (n / 2) % 2 == 1 {
        step / 2
    } else {
        0
    }) + (if (n / 4) % 2 == 1 { step } else { 0 })
}

/// Each nibble moves the prediction by the IMA ADPCM difference for the
/// current step: up when bit 3 is clear, down when it is set, then clamped to
/// 16 bits; the difference does not depend on the sign bit.
pub proof fn law_nibble_follows_ima(s: AdpcmState, n: i32)
    requires
        state_ok(s),
        0 <= n < 16,
    ensures
        ({
            let step = STEP_TABLE@[s.step_index];
            let d = ima_difference(step as int, n as int);
            &&& nibble_diff(step, n) == d
            &&& next_state(s, n).predictor == clamp(
                if n < 8 { s.predictor + d } else { s.predictor - d },
                -32768,
                32767,
            )
        }),
{
    let step = STEP_TABLE@[s.step_index];
    assert(0 <= step <= 32767);
    assert((step >> 3) == step / 8 && (step >> 2) == step / 4 && (step >> 1) == step / 2)
        by (bit_vector)
        requires
            0 <= step <= 32767,
    ;
    assert(((n & 1) != 0) == (n % 2 == 1) && ((n & 2) != 0) == ((n / 2) % 2 == 1) && ((n & 4)
        != 0) == ((n / 4) % 2 == 1) && ((n & 8) != 0) == (n >= 8)) by (bit_vector)
        requires
            0 <= n < 16,
    ;
}

/// Decoding keeps the state in range, and yields two samples per byte.
pub proof fn lemma_decode_ok(s: AdpcmState, data: Seq<u8>)
    requires
        state_ok(s),
    ensures
        state_ok(decode(s, data).1),
        decode(s, data).0.len() == 2 * data.len(),
    decreases data.len(),
{
    if data.len() > 0 {
        lemma_decode_ok(s, data.drop_last());
    }
}

/// Decoding is incremental: decoding `a` and then, from the state reached,
/// decoding `b` produces exactly what decoding `a + b` at once produces.
pub proof fn lemma_decode_concat(s: AdpcmState, a: Seq<u8>, b: Seq<u8>)
    ensures
        decode(s, a + b).0 == decode(s, a).0 + decode(decode(s, a).1, b).0,
        decode(s, a + b).1 == decode(decode(s, a).1, b).1,
    decreases b.len(),
{
    if b.len() == 0 {
        assert(a + b =~= a);
    } else {
        lemma_decode_concat(s, a, b.drop_last());
        assert((a + b).drop_last() =~= a + b.drop_last());
        assert((a + b).last() == b.last());
        let s1 = decode(s, a).1;
        let (o, _) = decode(s1, b.drop_last());
        let o1 = decode(s, a).0;
        let x = decode(s, a + b).0;
        assert(x =~= o1 + decode(s1, b).0);
    }
}

pub struct ImaAdpcmDecoder {
    predictor: i32,
    step_index: i32,
}

impl View for ImaAdpcmDecoder {
    type V = AdpcmState;

    closed spec fn view(&self) -> AdpcmState {
        AdpcmState { predictor: self.predictor as int, step_index: self.step_index as int }
    }
}

fn clamp_i32(v: i32, lo: i32, hi: i32) -> (r: i32)
    requires
        lo <= hi,
    ensures
        r == clamp(v as int, lo as int, hi as int),
{
    if v < lo {
        lo
    } else if v > hi {
        hi
    } else {
        v
    }
}

impl ImaAdpcmDecoder {
    #[verifier::type_invariant]
    closed spec fn inv(self) -> bool {
        state_ok(self@)
    }

    pub fn new() -> (r: Self)
        ensures
            r@ == (AdpcmState { predictor: 0, step_index: 0 }),
    {
        Self { predictor: 0, step_index: 0 }
    }

    /// Resets the decoder state, clamping both values into range. AUDIO_SYNC
    /// uses it to align the decoder with the state the remote announces.
    pub fn reset(&mut self, predictor: i32, step_index: i32)
        ensures
            final(self)@ == (AdpcmState {
                predictor: clamp(predictor as int, -32768, 32767),
                step_index: clamp(step_index as int, 0, 88),
            }),
    {
        let p = clamp_i32(predictor, -32768, 32767);
        let s = clamp_i32(step_index, 0, 88);
        *self = Self { predictor: p, step_index: s };
    }

    /// Decodes `data` and appends two samples per byte to `out`.
    pub fn decode_into(&mut self, data: &[u8], out: &mut Vec<i16>)
        ensures
            final(out)@ == old(out)@ + decode(old(self)@, data@).0,
            final(self)@ == decode(old(self)@, data@).1,
            state_ok(final(self)@),
            final(out)@.len() == old(out)@.len() + 2 * data@.len(),
    {
        proof {
            use_type_invariant(&*self);
        }
        let ghost s0 = self@;
        let ghost out0 = out@;
        let n = data.len();
        let mut i: usize = 0;
        while i < n
            invariant
                n == data@.len(),
                i <= n,
                out@ == out0 + decode(s0, data@.take(i as int)).0,
                self@ == decode(s0, data@.take(i as int)).1,
            decreases n - i,
        {
            let byte = data[i];
            proof {
                assert(data@.take(i + 1).drop_last() =~= data@.take(i as int));
                assert(data@.take(i + 1).last() == byte);
            }
            assert((byte >> 4) < 16 && (byte & 0x0F) < 16) by (bit_vector);
            let hi = self.nibble((byte >> 4) as i32);
            out.push(hi);
            let lo = self.nibble((byte & 0x0F) as i32);
            out.push(lo);
            i = i + 1;
            proof {
                assert(out@ =~= out0 + decode(s0, data@.take(i as int)).0);
            }
        }
        proof {
            assert(data@.take(n as int) =~= data@);
            lemma_decode_ok(s0, data@);
        }
    }

    fn nibble(&mut self, n: i32) -> (sample: i16)
        requires
            0 <= n < 16,
        ensures
            final(self)@ == next_state(old(self)@, n),
            sample == final(self)@.predictor as i16,
            sample as int == final(self)@.predictor,
    {
        proof {
            use_type_invariant(&*self);
        }
        let step = STEP_TABLE[self.step_index as usize];
        assert(0 <= step <= 32767);
        assert((step >> 3) <= step && (step >> 2) <= step && (step >> 1) <= step
            && 0 <= (step >> 3) && 0 <= (step >> 2) && 0 <= (step >> 1)) by (bit_vector)
            requires
                0 <= step <= 32767,
        ;
        let mut diff = step >> 3;
        if n & 1 != 0 {
            diff += step >> 2;
        }
        if n & 2 != 0 {
            diff += step >> 1;
        }
        if n & 4 != 0 {
            diff += step;
        }
        assert(diff == nibble_diff(step, n));
        let p = if n & 8 != 0 { self.predictor - diff } else { self.predictor + diff };
        let p = clamp_i32(p, -32768, 32767);
        assert(0 <= (n & 7) < 8) by (bit_vector);
        let s = clamp_i32(self.step_index + INDEX_TABLE[(n & 7) as usize], 0, 88);
        *self = Self { predictor: p, step_index: s };
        p as i16
    }
}

impl Default for ImaAdpcmDecoder {
    fn default() -> (r: Self)
        ensures
            r@ == (AdpcmState { predictor: 0, step_index: 0 }),
    {
        Self::new()
    }
}

} // verus!
