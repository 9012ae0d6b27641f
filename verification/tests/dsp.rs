use rctool_core::dsp::{smooth, FrameAccumulator};

#[test]
fn accumulator_reassembles_across_notifications() {
    let mut acc = FrameAccumulator::new();
    let mut frames: Vec<Vec<u8>> = Vec::new();
    frames.extend(acc.push(&[1, 2, 3], 4));
    assert!(frames.is_empty());
    frames.extend(acc.push(&[4, 5, 6, 7, 8], 4));
    assert_eq!(frames, vec![vec![1, 2, 3, 4], vec![5, 6, 7, 8]]);
    acc.reset();
    frames.extend(acc.push(&[9, 9, 9, 9], 4));
    assert_eq!(frames.len(), 3);
}

#[test]
fn accumulator_ignores_zero_frame_size() {
    let mut acc = FrameAccumulator::new();
    assert!(acc.push(&[1, 2, 3], 0).is_empty());
    // Nothing was buffered by the ignored call.
    assert_eq!(acc.push(&[7], 1), vec![vec![7]]);
}

#[test]
fn accumulator_keeps_partial_frame() {
    let mut acc = FrameAccumulator::default();
    assert_eq!(acc.push(&[1, 2, 3, 4, 5], 2), vec![vec![1, 2], vec![3, 4]]);
    assert_eq!(acc.push(&[6], 2), vec![vec![5, 6]]);
}

#[test]
fn postprocess_smooths_interior_samples() {
    let mut samples = vec![100i16, 200, 100];
    smooth(&mut samples);
    assert_eq!(samples, vec![100, 150, 100]);
}

#[test]
fn smoothing_rounds_down_and_leaves_short_input() {
    let mut samples = vec![-1i16, -1, 0, 3];
    smooth(&mut samples);
    // (-1 - 2 + 0) >> 2 = -1; (-1 + 0 + 3) >> 2 = 0.
    assert_eq!(samples, vec![-1, -1, 0, 3]);
    let mut short = vec![5i16, -5];
    smooth(&mut short);
    assert_eq!(short, vec![5, -5]);
    let mut extreme = vec![i16::MIN, i16::MIN, i16::MIN, i16::MAX, i16::MAX];
    smooth(&mut extreme);
    assert_eq!(extreme, vec![i16::MIN, i16::MIN, -16385, 16383, i16::MAX]);
}

#[test]
fn frames_do_not_depend_on_how_data_is_split() {
    let data: Vec<u8> = (0u8..23).collect();
    let mut whole = FrameAccumulator::new();
    let all_at_once = whole.push(&data, 5);
    let mut parts = FrameAccumulator::new();
    let mut frames = Vec::new();
    for piece in [&data[0..3], &data[3..4], &data[4..17], &data[17..23]] {
        frames.extend(parts.push(piece, 5));
    }
    assert_eq!(frames, all_at_once);
    assert_eq!(frames.len(), 4);
    assert_eq!(frames[2], vec![10, 11, 12, 13, 14]);
    assert_eq!(parts.push(&[23, 24], 5), vec![vec![20, 21, 22, 23, 24]]);
}
