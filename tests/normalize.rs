use pi_game::normalize::{downmix, normalize_i16, normalize_i32, normalize_i8, stereo_to_mono};

#[test]
fn stereo_pairs_are_halved_then_summed() {
    assert_eq!(stereo_to_mono(&[10000, -10000, 3, 3]), vec![0, 2]);
}

#[test]
fn stereo_halves_round_toward_zero() {
    assert_eq!(stereo_to_mono(&[-3, -3, 1, 0]), vec![-2, 0]);
}

#[test]
fn stereo_extremes_do_not_overflow() {
    assert_eq!(
        stereo_to_mono(&[i16::MAX, i16::MAX, i16::MIN, i16::MIN]),
        vec![32766, -32768]
    );
}

#[test]
fn stereo_drops_trailing_sample() {
    assert_eq!(stereo_to_mono(&[4, 6, 8]), vec![5]);
    assert_eq!(stereo_to_mono(&[7]), Vec::<i16>::new());
    assert_eq!(stereo_to_mono(&[]), Vec::<i16>::new());
}

#[test]
fn stereo_output_length_is_half() {
    let frame: Vec<i16> = (0..101).map(|x| x as i16).collect();
    assert_eq!(stereo_to_mono(&frame).len(), 50);
}

#[test]
fn two_channel_downmix_matches_stereo() {
    let frame = [10000, -10000, 3, 3, -7, 5];
    assert_eq!(downmix(&frame, 2), stereo_to_mono(&frame));
    assert_eq!(normalize_i16(&frame, 2), vec![0, 2, -1]);
}

#[test]
fn three_channel_downmix_sums_shares() {
    assert_eq!(downmix(&[10, 20, 30, 1], 3), vec![19]);
    assert_eq!(downmix(&[i16::MIN, i16::MIN, i16::MIN], 3), vec![-32766]);
    assert_eq!(downmix(&[i16::MAX, i16::MAX, i16::MAX], 3), vec![32766]);
}

#[test]
fn mono_frame_is_unchanged() {
    assert_eq!(normalize_i16(&[1, -2, 3], 1), vec![1, -2, 3]);
}

#[test]
fn i8_samples_are_widened() {
    assert_eq!(normalize_i8(&[1, -1, 0], 1), vec![256, -256, 0]);
    assert_eq!(normalize_i8(&[127, 127, -128, -128], 2), vec![32512, -32768]);
}

#[test]
fn i32_samples_keep_top_bits() {
    assert_eq!(normalize_i32(&[65536, -65536, -1, 0x7fff_0000], 1), vec![1, -1, -1, 32767]);
    assert_eq!(normalize_i32(&[131072, 65536], 2), vec![1]);
}
