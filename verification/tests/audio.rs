//! Sample-pipeline behavior: down-mix, resampling, mixing, quantization.

use meeting_recorder::sample::{
    to_mono, resample_linear, mix_soft, fx_to_pcm16, pcm16_to_fx, pcm32_to_fx, i16_to_fx, FX_ONE,
};
use meeting_recorder::errors::RecorderError;

#[test]
fn to_mono_averages_stereo_frames() {
    let input: Vec<i32> = vec![100, 300, -100, -300];
    let out = to_mono(&input, 2).unwrap();
    assert_eq!(out, vec![200, -200]);
}

#[test]
fn to_mono_length_is_floor_of_len_over_channels() {
    let input: Vec<i32> = vec![1, 2, 3, 4, 5, 6, 7];
    let out = to_mono(&input, 3).unwrap();
    assert_eq!(out.len(), 7 / 3);
}

#[test]
fn to_mono_single_channel_is_identity() {
    let input: Vec<i32> = vec![5, -6, 7];
    let out = to_mono(&input, 1).unwrap();
    assert_eq!(out, input);
}

#[test]
fn to_mono_rejects_zero_channels() {
    let input: Vec<i32> = vec![1, 2];
    assert_eq!(to_mono(&input, 0).unwrap_err(), RecorderError::UnsupportedLayout);
}

#[test]
fn resample_equal_rates_is_identity() {
    let input: Vec<i32> = vec![10, -20, 30, -40, 50];
    let out = resample_linear(&input, 16000, 16000);
    assert_eq!(out, input);
}

#[test]
fn resample_halves_length_when_downsampling_by_two() {
    let input: Vec<i32> = vec![0, 100, 200, 300, 400, 500, 600, 700];
    let out = resample_linear(&input, 32000, 16000);
    assert_eq!(out.len(), 4);
    assert_eq!(out[0], 0);
    assert_eq!(out[1], 200);
}

#[test]
fn resample_interpolates_when_upsampling() {
    let input: Vec<i32> = vec![0, 100];
    let out = resample_linear(&input, 8000, 16000);
    assert_eq!(out.len(), 4);
    assert_eq!(out[0], 0);
    assert_eq!(out[1], 50);
    assert_eq!(out[2], 100);
}

#[test]
fn mix_soft_output_is_bounded_for_extreme_inputs() {
    let mic: Vec<i32> = vec![0x10_0000, -0x10_0000, 0x10_0000];
    let sys: Vec<i32> = vec![0x10_0000, -0x10_0000, -0x10_0000];
    let out = mix_soft(&mic, &sys, 1000, 1000);
    for s in out {
        assert!(-FX_ONE <= s && s <= FX_ONE);
    }
}

#[test]
fn mix_soft_passes_in_range_sums_through() {
    let mic: Vec<i32> = vec![16384];
    let sys: Vec<i32> = vec![8192];
    let out = mix_soft(&mic, &sys, 100, 100);
    assert_eq!(out, vec![24576]);
}

#[test]
fn mix_soft_clips_smoothly_above_full_scale() {
    // One full-scale sample under gain 2.0: the sum 2.0 saturates to
    // 1 - 1/2 = 0.5 of full scale.
    let mic: Vec<i32> = vec![32768];
    let sys: Vec<i32> = vec![];
    let out = mix_soft(&mic, &sys, 200, 0);
    assert_eq!(out, vec![16384]);
}

#[test]
fn mix_soft_length_is_max_and_missing_samples_are_silence() {
    let mic: Vec<i32> = vec![1000, 2000];
    let sys: Vec<i32> = vec![100, 200, 300, 400];
    let out = mix_soft(&mic, &sys, 100, 100);
    assert_eq!(out.len(), 4);
    assert_eq!(out[2], 300);
    assert_eq!(out[3], 400);
}

#[test]
fn quantize_full_scale_hits_pcm_extremes() {
    assert_eq!(fx_to_pcm16(FX_ONE), 32767);
    assert_eq!(fx_to_pcm16(-FX_ONE), -32767);
    assert_eq!(fx_to_pcm16(0), 0);
    assert_eq!(fx_to_pcm16(FX_ONE * 10), 32767);
    assert_eq!(fx_to_pcm16(-FX_ONE * 10), -32767);
}

#[test]
fn quantize_floors_negative_samples() {
    // Half of negative full scale lands on -16383.5 PCM steps; the floor
    // the stop path applies takes it down, not towards zero.
    assert_eq!(fx_to_pcm16(-16384), -16384);
    assert_eq!(fx_to_pcm16(16384), 16383);
    assert_eq!(fx_to_pcm16(-1), -1);
}

#[test]
fn quantize_round_trip_stays_within_one_step() {
    for s in [-32768i32, -12345, -1, 0, 1, 777, 32767, 32768] {
        let back = pcm16_to_fx(fx_to_pcm16(s));
        assert!((back - s).abs() <= 2, "sample {} came back as {}", s, back);
    }
}

#[test]
fn i16_samples_are_fixed_point_verbatim() {
    assert_eq!(i16_to_fx(-32768), -32768);
    assert_eq!(i16_to_fx(12345), 12345);
}

#[test]
fn wide_pcm_dequantization_matches_the_loader_scale() {
    assert_eq!(pcm32_to_fx(0), 0);
    assert_eq!(pcm32_to_fx(i32::MAX), 32768);
    // One step below half scale: the exact ratio truncates.
    assert_eq!(pcm32_to_fx(i32::MAX / 2), 16383);
    assert_eq!(pcm32_to_fx(-i32::MAX), -32768);
}
