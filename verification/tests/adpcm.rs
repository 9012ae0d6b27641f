use rctool_core::adpcm::ImaAdpcmDecoder;

#[test]
fn decodes_known_nibbles() {
    // 0x77: for n = 7, diff = step>>3 + step>>2 + step>>1 + step.
    // First sample: step 7 -> diff 11; second: step 16 -> diff 30.
    let mut dec = ImaAdpcmDecoder::new();
    let mut out = Vec::new();
    dec.decode_into(&[0x77], &mut out);
    assert_eq!(out, vec![11, 41]);
}

#[test]
fn zero_nibbles_hold_predictor() {
    let mut dec = ImaAdpcmDecoder::new();
    dec.reset(100, 5);
    let mut out = Vec::new();
    dec.decode_into(&[0x00], &mut out);
    assert_eq!(out, vec![101, 102]);
}

#[test]
fn reset_clamps_ranges() {
    let mut dec = ImaAdpcmDecoder::new();
    dec.reset(99_999, 999);
    let mut out = Vec::new();
    dec.decode_into(&[0x08], &mut out);
    assert_eq!(out.len(), 2);
}

#[test]
fn reset_clamps_to_exact_bounds() {
    // predictor clamps to 32767, step index to 88 (step 32767).
    // High nibble 0: diff = 32767 >> 3 = 4095, predictor stays clamped at 32767.
    // Low nibble 8: sign bit, diff = 4095 with step index now 87 (step 29794 -> 3724).
    let mut dec = ImaAdpcmDecoder::new();
    dec.reset(99_999, 999);
    let mut out = Vec::new();
    dec.decode_into(&[0x08], &mut out);
    assert_eq!(out[0], 32767);
    assert_eq!(out[1], 32767 - (29794 >> 3));
    let mut low = ImaAdpcmDecoder::new();
    low.reset(-99_999, -5);
    let mut out = Vec::new();
    low.decode_into(&[0x88], &mut out);
    assert_eq!(out, vec![-32768, -32768]);
}

#[test]
fn decoding_in_pieces_matches_decoding_at_once() {
    let data: Vec<u8> = (0u16..200).map(|i| (i * 37 % 256) as u8).collect();
    let mut whole = ImaAdpcmDecoder::new();
    let mut all = Vec::new();
    whole.decode_into(&data, &mut all);
    let mut pieces = ImaAdpcmDecoder::new();
    let mut parts = Vec::new();
    pieces.decode_into(&data[..77], &mut parts);
    pieces.decode_into(&data[77..], &mut parts);
    assert_eq!(all, parts);
    assert_eq!(all.len(), 400);
}

#[test]
fn default_equals_new() {
    let mut a = ImaAdpcmDecoder::default();
    let mut b = ImaAdpcmDecoder::new();
    let (mut x, mut y) = (Vec::new(), Vec::new());
    a.decode_into(&[0x12, 0x34], &mut x);
    b.decode_into(&[0x12, 0x34], &mut y);
    assert_eq!(x, y);
}
