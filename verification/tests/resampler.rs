use stem_engine::resampler::LinearResampler;
use stem_engine::types::AudioError;

/// Linear interpolation between two samples, `numerator / denominator` of the way.
fn blend(before: f32, after: f32, numerator: u32, denominator: u32) -> f32 {
    let fraction = numerator as f64 / denominator as f64;
    before + (after - before) * fraction as f32
}

#[test]
fn ten_frames_from_44100_to_48000_give_eleven() {
    let resampler = LinearResampler::new(44100, 48000, 2);
    let input: Vec<f32> = (0..20).map(|i| i as f32).collect();
    let output = resampler.process(&input, blend).unwrap();
    assert_eq!(output.len(), 11 * 2);
    assert_eq!(resampler.frames_for(10), Some(11));
}

#[test]
fn equal_rates_hand_the_input_back() {
    let resampler = LinearResampler::new(48000, 48000, 2);
    let input = vec![0.1f32, -0.2, f32::INFINITY, f32::NAN, -0.0, 1.0e-40, 7.0];
    let output = resampler.process(&input, blend).unwrap();
    assert_eq!(output.len(), input.len());
    for (out, sample) in output.iter().zip(input.iter()) {
        assert_eq!(out.to_bits(), sample.to_bits());
    }
    // Even without rates or channels there is nothing to convert.
    let idle = LinearResampler::new(0, 0, 0);
    assert_eq!(idle.process(&[1.0f32, 2.0], blend).unwrap(), vec![1.0, 2.0]);
}

#[test]
fn doubling_the_rate_interpolates_half_way() {
    let resampler = LinearResampler::new(24000, 48000, 1);
    let output = resampler.process(&[0.0f32, 1.0, 0.5], blend).unwrap();
    // Output frame j lies at j / 2 in the input; the tail repeats the last frame.
    assert_eq!(output, vec![0.0, 0.5, 1.0, 0.75, 0.5, 0.5]);
}

#[test]
fn halving_the_rate_keeps_every_other_frame() {
    let resampler = LinearResampler::new(48000, 24000, 2);
    let input = vec![1.0f32, -1.0, 2.0, -2.0, 3.0, -3.0, 4.0, -4.0, 5.0, -5.0];
    let output = resampler.process(&input, blend).unwrap();
    // Five frames in, three out: ceil(5 / 2).
    assert_eq!(output, vec![1.0, -1.0, 3.0, -3.0, 5.0, -5.0]);
}

#[test]
fn channels_stay_interleaved() {
    let resampler = LinearResampler::new(2, 3, 2);
    // Left counts up by one, right by ten.
    let input = vec![0.0f32, 0.0, 3.0, 30.0];
    let output = resampler.process(&input, blend).unwrap();
    // Two frames in, three out, at 0, 2/3 and 4/3 of the input.
    assert_eq!(output.len(), 6);
    assert_eq!(&output[0..2], &[0.0, 0.0]);
    assert!((output[2] - 2.0).abs() < 1e-6);
    assert!((output[3] - 20.0).abs() < 1e-5);
    assert_eq!(&output[4..6], &[3.0, 30.0]);
}

#[test]
fn the_kernel_gets_exact_fractions() {
    let resampler = LinearResampler::new(44100, 48000, 1);
    let input = vec![0u64, 1, 2, 3];
    // Pack what the kernel is told into the output.
    let output = resampler
        .process(&input, |before, after, numerator, denominator| {
            assert_eq!(denominator, 48000);
            before * 1_000_000_000 + after * 1_000_000 + numerator as u64
        })
        .unwrap();
    // ceil(4 * 48000 / 44100) = 5 frames; frame j lies at j * 44100 / 48000.
    assert_eq!(output.len(), 5);
    for (j, packed) in output.iter().enumerate() {
        let place = j as u64 * 44100;
        let lower = place / 48000;
        let upper = (lower + 1).min(3);
        assert_eq!(*packed, lower * 1_000_000_000 + upper * 1_000_000 + place % 48000);
    }
}

#[test]
fn a_trailing_partial_frame_is_ignored() {
    let resampler = LinearResampler::new(1, 2, 2);
    let output = resampler.process(&[1.0f32, 2.0, 3.0], blend).unwrap();
    assert_eq!(output, vec![1.0, 2.0, 1.0, 2.0]);
    let output = resampler.process(&[] as &[f32], blend).unwrap();
    assert!(output.is_empty());
}

#[test]
fn impossible_conversions_are_refused() {
    let no_source = LinearResampler::new(0, 48000, 2);
    assert!(matches!(no_source.process(&[0.0f32; 4], blend), Err(AudioError::InvalidFormat(_))));
    assert_eq!(no_source.frames_for(4), None);
    let no_channels = LinearResampler::new(44100, 48000, 0);
    assert!(matches!(no_channels.process(&[0.0f32; 4], blend), Err(AudioError::InvalidFormat(_))));
    // A target rate of zero leaves nothing.
    let no_target = LinearResampler::new(44100, 0, 2);
    assert!(no_target.process(&[0.0f32; 4], blend).unwrap().is_empty());
    // The output would not fit in memory.
    let huge = LinearResampler::new(1, u32::MAX, 1);
    assert_eq!(huge.frames_for(usize::MAX), None);
}

#[test]
fn output_length_is_the_rounded_up_quotient() {
    for (source, target, frames) in [
        (44100u32, 48000u32, 10usize),
        (48000, 44100, 10),
        (44100, 48000, 44100),
        (8000, 48000, 1),
        (96000, 48000, 3),
        (22050, 44100, 0),
        (48000, 44100, 1),
    ] {
        let resampler = LinearResampler::new(source, target, 1);
        let exact = (frames as u128 * target as u128 + source as u128 - 1) / source as u128;
        assert_eq!(resampler.frames_for(frames), Some(exact as usize));
        let output = resampler.process(&vec![0.0f32; frames], blend).unwrap();
        assert_eq!(output.len(), exact as usize);
    }
}

#[test]
fn reset_changes_nothing() {
    let mut resampler = LinearResampler::new(44100, 48000, 2);
    resampler.reset();
    assert_eq!(resampler, LinearResampler::new(44100, 48000, 2));
}
