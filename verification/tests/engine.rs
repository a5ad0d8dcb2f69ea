use std::sync::Arc;
use stem_engine::gain::{SILENCE_BITS, UNITY_BITS};
use stem_engine::mixer::MultiTrackEngine;
use stem_engine::types::{AudioError, PlaybackState, StemCapacity};

fn bits(value: f32) -> u32 {
    value.to_bits()
}

fn volume(engine: &MultiTrackEngine<f32>, slot: usize) -> f32 {
    f32::from_bits(engine.stem_volume(slot))
}

fn amplify(sample: f32, gain: u32) -> f32 {
    sample * f32::from_bits(gain)
}

fn sum(left: f32, right: f32) -> f32 {
    left + right
}

fn louder(peak: u32, sample: f32) -> u32 {
    f32::from_bits(peak).max(sample.abs()).to_bits()
}

/// One block of `frames` stereo frames, as the output stream would ask for it.
fn render(engine: &mut MultiTrackEngine<f32>, frames: usize) -> Vec<f32> {
    let mut output = vec![f32::NAN; frames * 2];
    engine.audio_callback(&mut output, 0.0, amplify, sum, louder);
    output
}

#[test]
fn test_stem_capacity_enum() {
    assert_eq!(StemCapacity::Standard.as_usize(), 16);
    assert_eq!(StemCapacity::Extended.as_usize(), 32);
    assert_eq!(StemCapacity::Professional.as_usize(), 64);
    assert_eq!(StemCapacity::Custom(100).as_usize(), 100);

    assert_eq!(StemCapacity::from_usize(16), StemCapacity::Standard);
    assert_eq!(StemCapacity::from_usize(32), StemCapacity::Extended);
    assert_eq!(StemCapacity::from_usize(64), StemCapacity::Professional);
    assert_eq!(StemCapacity::from_usize(100), StemCapacity::Custom(100));
}

#[test]
fn test_multi_track_engine_initialization() {
    let result = MultiTrackEngine::<f32>::new(16);
    assert!(result.is_ok(), "Multi-track engine should initialize successfully");

    let engine = result.unwrap();
    assert_eq!(engine.max_stems(), 16, "Should support 16 stems");
    assert_eq!(engine.active_stems(), 0, "Should start with 0 active stems");
}

#[test]
fn test_stem_capacity_standard() {
    let engine = MultiTrackEngine::<f32>::new_standard().expect("Failed to create standard engine");
    assert_eq!(engine.max_stems(), 16, "Standard capacity should be 16 stems");
}

#[test]
fn test_stem_capacity_extended() {
    let engine = MultiTrackEngine::<f32>::new_extended().expect("Failed to create extended engine");
    assert_eq!(engine.max_stems(), 32, "Extended capacity should be 32 stems");
}

#[test]
fn test_stem_capacity_professional() {
    let engine =
        MultiTrackEngine::<f32>::new_professional().expect("Failed to create professional engine");
    assert_eq!(engine.max_stems(), 64, "Professional capacity should be 64 stems");
}

#[test]
fn test_stem_capacity_custom() {
    let engine = MultiTrackEngine::<f32>::with_capacity(StemCapacity::Custom(128))
        .expect("Failed to create custom engine");
    assert_eq!(engine.max_stems(), 128, "Custom capacity should be 128 stems");
}

#[test]
fn test_maximum_stem_limit() {
    // Should succeed with 256 stems (maximum allowed)
    let result = MultiTrackEngine::<f32>::new(256);
    assert!(result.is_ok(), "Should support up to 256 stems");

    // Should fail with 257 stems (exceeds limit)
    let result = MultiTrackEngine::<f32>::new(257);
    assert!(result.is_err(), "Should reject more than 256 stems");
}

#[test]
fn test_minimum_stem_limit() {
    // Should fail with 0 stems
    let result = MultiTrackEngine::<f32>::new(0);
    assert!(result.is_err(), "Should reject 0 stems");

    // Should succeed with 1 stem
    let result = MultiTrackEngine::<f32>::new(1);
    assert!(result.is_ok(), "Should support at least 1 stem");
}

#[test]
fn test_stem_synchronization() {
    let mut engine = MultiTrackEngine::<f32>::new(4).expect("Failed to create engine");

    engine.play().ok();

    // One position for all stems, counted in samples.
    let position = engine.position();
    assert_eq!(position, 0, "Position should start at zero");
}

#[test]
fn test_per_stem_volume_control() {
    let mut engine = MultiTrackEngine::<f32>::new(4).expect("Failed to create engine");

    // Set different volumes for different stems
    engine.set_stem_volume(0, bits(0.5));
    engine.set_stem_volume(1, bits(0.8));
    engine.set_stem_volume(2, bits(1.0));
    engine.set_stem_volume(3, bits(0.3));

    assert_eq!(volume(&engine, 0), 0.5);
    assert_eq!(volume(&engine, 1), 0.8);
    assert_eq!(volume(&engine, 2), 1.0);
    assert_eq!(volume(&engine, 3), 0.3);
}

#[test]
fn test_volume_clamping_per_stem() {
    let mut engine = MultiTrackEngine::<f32>::new(2).expect("Failed to create engine");

    // Test volume clamping to [0.0, 1.0]
    engine.set_stem_volume(0, bits(1.5));
    assert_eq!(volume(&engine, 0), 1.0, "Volume should be clamped to 1.0");

    engine.set_stem_volume(1, bits(-0.5));
    assert_eq!(volume(&engine, 1), 0.0, "Volume should be clamped to 0.0");
}

#[test]
fn test_stem_mute_functionality() {
    let mut engine = MultiTrackEngine::<f32>::new(4).expect("Failed to create engine");

    // All stems should start unmuted
    assert!(!engine.is_stem_muted(0), "Stem 0 should start unmuted");
    assert!(!engine.is_stem_muted(1), "Stem 1 should start unmuted");

    // Mute stem 0
    engine.set_stem_mute(0, true);
    assert!(engine.is_stem_muted(0), "Stem 0 should be muted");
    assert!(!engine.is_stem_muted(1), "Stem 1 should still be unmuted");

    // Unmute stem 0
    engine.set_stem_mute(0, false);
    assert!(!engine.is_stem_muted(0), "Stem 0 should be unmuted");
}

#[test]
fn test_stem_solo_functionality() {
    let mut engine = MultiTrackEngine::<f32>::new(4).expect("Failed to create engine");

    // No stems should be soloed initially
    assert!(!engine.is_stem_soloed(0), "Stem 0 should not be soloed");
    assert!(!engine.is_stem_soloed(1), "Stem 1 should not be soloed");

    // Solo stem 0
    engine.set_stem_solo(0, true);
    assert!(engine.is_stem_soloed(0), "Stem 0 should be soloed");

    assert!(!engine.is_stem_soloed(1), "Stem 1 should not be soloed");
}

#[test]
fn test_multiple_stem_solo() {
    let mut engine = MultiTrackEngine::<f32>::new(4).expect("Failed to create engine");

    // Solo stems 0 and 2
    engine.set_stem_solo(0, true);
    engine.set_stem_solo(2, true);

    assert!(engine.is_stem_soloed(0), "Stem 0 should be soloed");
    assert!(engine.is_stem_soloed(2), "Stem 2 should be soloed");
    assert!(!engine.is_stem_soloed(1), "Stem 1 should not be soloed");
    assert!(!engine.is_stem_soloed(3), "Stem 3 should not be soloed");
}

#[test]
fn test_solo_overrides_mute() {
    let mut engine = MultiTrackEngine::<f32>::new(2).expect("Failed to create engine");

    // Mute stem 0
    engine.set_stem_mute(0, true);
    assert!(engine.is_stem_muted(0), "Stem 0 should be muted");

    // Solo stem 0 (should override mute)
    engine.set_stem_solo(0, true);
    assert!(engine.is_stem_soloed(0), "Stem 0 should be soloed");

    // Stem is audible when soloed, even if muted
    engine.load_stem_from_samples(Arc::new(vec![0.5, 0.5])).unwrap();
    assert!(engine.is_audible(0));
}

#[test]
fn test_stem_count_limits() {
    let mut engine = MultiTrackEngine::<f32>::new(16).expect("Failed to create engine");

    // Should handle up to 16 stems
    for i in 0..16 {
        engine.set_stem_volume(i, bits(0.8));
        assert_eq!(volume(&engine, i), 0.8);
    }

    // Accessing stem 16 (out of bounds) should not panic
    engine.set_stem_volume(16, bits(0.5));
    assert_eq!(engine.stem_volume(16), SILENCE_BITS);
    for i in 0..16 {
        assert_eq!(volume(&engine, i), 0.8);
    }
}

#[test]
fn test_buffer_pool_allocation() {
    let engine = MultiTrackEngine::<f32>::new(8).expect("Failed to create engine");

    assert!(
        engine.buffer_pool_capacity() >= 8,
        "Buffer pool should have capacity for at least 8 stems"
    );
}

#[test]
fn test_clear_all_stems() {
    let mut engine = MultiTrackEngine::<f32>::new(4).expect("Failed to create engine");
    engine.load_stem_from_samples(Arc::new(vec![0.1, 0.2])).unwrap();
    engine.load_stem_from_samples(Arc::new(vec![0.3, 0.4])).unwrap();
    assert_eq!(engine.active_stems(), 2);

    // Clear all stems
    engine.clear_stems();

    assert_eq!(engine.active_stems(), 0, "Should have 0 active stems after clearing");
}

#[test]
fn test_real_time_volume_update() {
    let mut engine = MultiTrackEngine::<f32>::new(2).expect("Failed to create engine");

    // Start playback
    engine.play().ok();

    // Update volume during playback
    engine.set_stem_volume(0, bits(0.5));
    engine.set_stem_volume(0, bits(0.7));
    engine.set_stem_volume(0, bits(1.0));

    assert_eq!(volume(&engine, 0), 1.0);
}

#[test]
fn test_synchronized_playback_start() {
    let mut engine = MultiTrackEngine::<f32>::new(4).expect("Failed to create engine");

    // All stems should start at position 0
    engine.play().ok();

    let position = engine.position();
    assert_eq!(position, 0, "All stems should start at position 0");
}

#[test]
fn test_stem_metadata() {
    let engine = MultiTrackEngine::<f32>::new(2).expect("Failed to create engine");
    assert_eq!(engine.stem_count(), 0);
}

#[test]
fn test_multi_track_engine_creation() {
    let engine = MultiTrackEngine::<f32>::with_capacity(StemCapacity::Standard);
    assert!(engine.is_ok());

    let engine = engine.unwrap();
    assert_eq!(engine.max_stems(), 16);
    assert_eq!(engine.active_stems(), 0);
}

#[test]
fn test_multi_track_engine_stem_controls() {
    let mut engine = MultiTrackEngine::<f32>::with_capacity(StemCapacity::Standard)
        .expect("Failed to create engine");

    // Test volume control
    engine.set_stem_volume(0, bits(0.5));
    assert_eq!(volume(&engine, 0), 0.5);

    // Test mute control
    engine.set_stem_mute(0, true);
    assert!(engine.is_stem_muted(0));

    engine.set_stem_mute(0, false);
    assert!(!engine.is_stem_muted(0));

    // Test solo control
    engine.set_stem_solo(0, true);
    assert!(engine.is_stem_soloed(0));

    engine.set_stem_solo(0, false);
    assert!(!engine.is_stem_soloed(0));
}

#[test]
fn test_multi_track_engine_playback_controls() {
    let mut engine = MultiTrackEngine::<f32>::with_capacity(StemCapacity::Standard)
        .expect("Failed to create engine");

    // Test play/pause/stop
    assert!(engine.play().is_ok());
    assert_eq!(engine.state(), PlaybackState::Playing);
    assert!(engine.pause().is_ok());
    assert_eq!(engine.state(), PlaybackState::Paused);
    assert!(engine.stop().is_ok());
    assert_eq!(engine.state(), PlaybackState::Stopped);
}

#[test]
fn new_engine_refuses_bad_capacity_as_device_init() {
    assert!(matches!(MultiTrackEngine::<f32>::new(0), Err(AudioError::DeviceInit(_))));
    assert!(matches!(MultiTrackEngine::<f32>::new(257), Err(AudioError::DeviceInit(_))));
    assert!(matches!(
        MultiTrackEngine::<f32>::with_capacity(StemCapacity::Custom(0)),
        Err(AudioError::DeviceInit(_))
    ));
}

#[test]
fn new_engine_starts_at_unity_and_stopped() {
    let engine = MultiTrackEngine::<f32>::new(3).unwrap();
    for slot in 0..3 {
        assert_eq!(engine.stem_volume(slot), UNITY_BITS);
        assert!(!engine.is_stem_muted(slot));
        assert!(!engine.is_stem_soloed(slot));
        assert_eq!(engine.stem_level(slot), SILENCE_BITS);
        assert!(!engine.is_audible(slot));
    }
    assert_eq!(engine.master_volume(), UNITY_BITS);
    assert_eq!(engine.master_level(), SILENCE_BITS);
    assert_eq!(engine.state(), PlaybackState::Stopped);
    assert_eq!(engine.position(), 0);
    assert_eq!(engine.device_sample_rate(), 48000);
    assert_eq!(engine.duration_frames(), 0);
}

#[test]
fn load_takes_the_first_free_slot_and_reports_full() {
    let mut engine = MultiTrackEngine::<f32>::new(2).unwrap();
    assert_eq!(engine.load_stem_from_samples(Arc::new(vec![1.0, 1.0])).unwrap(), 0);
    assert_eq!(engine.load_stem_from_samples(Arc::new(vec![2.0, 2.0])).unwrap(), 1);
    assert!(matches!(
        engine.load_stem_from_samples(Arc::new(vec![3.0, 3.0])),
        Err(AudioError::NoSlot)
    ));
    assert_eq!(engine.active_stems(), 2);
    assert_eq!(engine.longest_stem(), 2);
}

#[test]
fn two_stem_mix_at_unity_gain() {
    let mut engine = MultiTrackEngine::<f32>::new(16).unwrap();
    engine.load_stem_from_samples(Arc::new(vec![1.0, 0.5])).unwrap();
    engine.load_stem_from_samples(Arc::new(vec![-0.25, 0.0])).unwrap();
    engine.set_master_volume(bits(1.0));
    engine.play().unwrap();

    assert_eq!(render(&mut engine, 1), vec![0.75, 0.5]);
    assert_eq!(engine.position(), 2);
    assert_eq!(f32::from_bits(engine.stem_level(0)), 1.0);
    assert_eq!(f32::from_bits(engine.stem_level(1)), 0.25);
    assert_eq!(f32::from_bits(engine.master_level()), 0.75);
}

#[test]
fn mute_takes_a_stem_out_of_the_mix() {
    let mut engine = MultiTrackEngine::<f32>::new(16).unwrap();
    engine.load_stem_from_samples(Arc::new(vec![1.0, 0.5])).unwrap();
    engine.load_stem_from_samples(Arc::new(vec![-0.25, 0.0])).unwrap();
    engine.set_stem_mute(1, true);
    engine.play().unwrap();

    assert_eq!(render(&mut engine, 1), vec![1.0, 0.5]);
    assert_eq!(engine.stem_level(1), SILENCE_BITS);
}

#[test]
fn solo_dominates_mute() {
    let mut engine = MultiTrackEngine::<f32>::new(16).unwrap();
    engine.load_stem_from_samples(Arc::new(vec![1.0, 0.5])).unwrap();
    engine.load_stem_from_samples(Arc::new(vec![-0.25, 0.125])).unwrap();
    engine.load_stem_from_samples(Arc::new(vec![0.0625, 0.0625])).unwrap();
    engine.set_stem_solo(1, true);
    engine.play().unwrap();
    assert_eq!(render(&mut engine, 1), vec![-0.25, 0.125]);

    // Muting the soloed stem, or any other, changes nothing.
    engine.seek(0).unwrap();
    engine.set_stem_mute(1, true);
    engine.set_stem_mute(2, true);
    assert_eq!(render(&mut engine, 1), vec![-0.25, 0.125]);
    assert!(engine.any_solo());
    assert!(engine.is_audible(1));
    assert!(!engine.is_audible(0));
    assert!(!engine.is_audible(2));
}

#[test]
fn a_solo_flag_on_an_empty_slot_silences_the_rest() {
    let mut engine = MultiTrackEngine::<f32>::new(4).unwrap();
    engine.load_stem_from_samples(Arc::new(vec![1.0, 0.5])).unwrap();
    engine.set_stem_solo(3, true);
    engine.play().unwrap();
    assert_eq!(render(&mut engine, 1), vec![0.0, 0.0]);
}

#[test]
fn gain_scales_a_single_stem() {
    let mut engine = MultiTrackEngine::<f32>::new(2).unwrap();
    engine.load_stem_from_samples(Arc::new(vec![1.0, -0.5, 0.25, 0.75])).unwrap();
    engine.set_stem_volume(0, bits(0.5));
    engine.play().unwrap();
    let output = render(&mut engine, 2);
    assert_eq!(output, vec![0.5, -0.25, 0.125, 0.375]);
    let loudest = output.iter().fold(0.0f32, |m, s| m.max(s.abs()));
    assert!(loudest <= 0.5 * 1.0);
    assert_eq!(f32::from_bits(engine.master_level()), 0.5);
}

#[test]
fn master_gain_scales_the_whole_mix() {
    let mut engine = MultiTrackEngine::<f32>::new(2).unwrap();
    engine.load_stem_from_samples(Arc::new(vec![1.0, 0.5])).unwrap();
    engine.set_master_volume(bits(0.5));
    engine.play().unwrap();
    assert_eq!(render(&mut engine, 1), vec![0.5, 0.25]);
    engine.set_master_volume(bits(7.0));
    assert_eq!(engine.master_volume(), UNITY_BITS);
    engine.set_master_volume(bits(f32::NAN));
    assert_eq!(engine.master_volume(), SILENCE_BITS);
}

#[test]
fn nothing_is_mixed_and_nothing_moves_unless_playing() {
    let mut engine = MultiTrackEngine::<f32>::new(2).unwrap();
    engine.load_stem_from_samples(Arc::new(vec![1.0, 0.5, 0.25, 0.125])).unwrap();
    assert_eq!(render(&mut engine, 1), vec![0.0, 0.0]);
    assert_eq!(engine.position(), 0);

    engine.play().unwrap();
    assert_eq!(render(&mut engine, 1), vec![1.0, 0.5]);
    engine.pause().unwrap();
    assert!(engine.contribution(0, 2).is_none());
    assert_eq!(render(&mut engine, 1), vec![0.0, 0.0]);
    assert_eq!(engine.position(), 2, "pause holds the position");
    assert_eq!(engine.master_level(), SILENCE_BITS, "meters fall back for every block");

    engine.play().unwrap();
    assert_eq!(render(&mut engine, 1), vec![0.25, 0.125]);
    engine.stop().unwrap();
    assert_eq!(engine.position(), 0, "stop resets the position");
}

#[test]
fn position_moves_by_the_block_while_playing() {
    let mut engine = MultiTrackEngine::<f32>::new(2).unwrap();
    engine.load_stem_from_samples(Arc::new(vec![0.0; 2000])).unwrap();
    engine.play().unwrap();
    let mut expected = 0u64;
    for frames in [1usize, 7, 64, 256, 3] {
        render(&mut engine, frames);
        expected += 2 * frames as u64;
        assert_eq!(engine.position(), expected);
    }
    assert_eq!(engine.position_frames(), expected / 2);
}

#[test]
fn a_short_stem_ends_while_a_long_one_goes_on() {
    let mut engine = MultiTrackEngine::<f32>::new(2).unwrap();
    engine.load_stem_from_samples(Arc::new(vec![1.0, 1.0])).unwrap();
    engine.load_stem_from_samples(Arc::new(vec![0.5, 0.5, 0.25, 0.25, 0.125, 0.125])).unwrap();
    engine.play().unwrap();
    assert_eq!(render(&mut engine, 2), vec![1.5, 1.5, 0.25, 0.25]);
    assert_eq!(render(&mut engine, 2), vec![0.125, 0.125, 0.0, 0.0]);
    assert_eq!(engine.position(), 8);
    // The position is past every stem now: it stays where it is.
    assert_eq!(render(&mut engine, 2), vec![0.0, 0.0, 0.0, 0.0]);
    assert_eq!(engine.position(), 8);
}

#[test]
fn position_stays_put_without_stems() {
    let mut engine = MultiTrackEngine::<f32>::new(2).unwrap();
    engine.play().unwrap();
    assert!(engine.is_past_end());
    render(&mut engine, 4);
    assert_eq!(engine.position(), 0);
    engine.load_stem_from_samples(Arc::new(vec![0.0; 4])).unwrap();
    assert!(!engine.is_past_end());
    render(&mut engine, 4);
    assert_eq!(engine.position(), 8);
    assert!(engine.is_past_end());
    render(&mut engine, 4);
    assert_eq!(engine.position(), 8);
}

#[test]
fn seek_clamps_to_the_length_of_the_song() {
    let mut engine = MultiTrackEngine::<f32>::new(2).unwrap();
    // Sixty seconds of stereo at 48000 Hz.
    engine.load_stem_from_samples(Arc::new(vec![0.0; 60 * 48000 * 2])).unwrap();
    assert_eq!(engine.duration_frames(), 60 * 48000);

    engine.seek(75 * 48000).unwrap();
    assert_eq!(engine.position(), 5_760_000);
    let seconds = engine.position() as f64 / (engine.device_sample_rate() as f64 * 2.0);
    assert!((seconds - 60.0).abs() <= 1.0 / 48000.0);

    engine.seek(30 * 48000).unwrap();
    assert_eq!(engine.position(), 2_880_000);
    assert_eq!(engine.position_frames(), 30 * 48000);
    engine.seek(0).unwrap();
    assert_eq!(engine.position(), 0);
}

#[test]
fn seek_lands_on_whole_frames() {
    let mut engine = MultiTrackEngine::<f32>::new(2).unwrap();
    engine.load_stem_from_samples(Arc::new(vec![0.0; 7])).unwrap();
    engine.seek(100).unwrap();
    assert_eq!(engine.position(), 6);
    engine.clear_stems();
    engine.seek(5).unwrap();
    assert_eq!(engine.position(), 0);
}

#[test]
fn contribution_is_the_window_at_the_position() {
    let mut engine = MultiTrackEngine::<f32>::new(2).unwrap();
    engine.load_stem_from_samples(Arc::new(vec![1.0, 2.0, 3.0, 4.0, 5.0, 6.0])).unwrap();
    engine.set_stem_volume(0, bits(0.25));
    engine.play().unwrap();
    engine.seek(1).unwrap();
    let part = engine.contribution(0, 2).unwrap();
    assert_eq!(part.samples, &[3.0, 4.0]);
    assert_eq!(part.gain, bits(0.25));
    let part = engine.contribution(0, 100).unwrap();
    assert_eq!(part.samples, &[3.0, 4.0, 5.0, 6.0]);
    let part = engine.contribution(0, 0).unwrap();
    assert!(part.samples.is_empty());
    assert!(engine.contribution(1, 2).is_none());
    assert!(engine.contribution(2, 2).is_none());
}

#[test]
fn levels_are_magnitudes() {
    let mut engine = MultiTrackEngine::<f32>::new(2).unwrap();
    engine.set_stem_level(0, bits(-0.5));
    assert_eq!(f32::from_bits(engine.stem_level(0)), 0.5);
    engine.set_stem_level(0, bits(f32::NAN));
    assert_eq!(engine.stem_level(0), SILENCE_BITS);
    engine.set_stem_level(5, bits(0.5));
    assert_eq!(engine.stem_level(5), SILENCE_BITS);
    engine.set_master_level(bits(-0.75));
    assert_eq!(f32::from_bits(engine.master_level()), 0.75);
    engine.set_stem_level(0, bits(0.5));
    engine.set_stem_level(1, bits(0.25));
    assert_eq!(render(&mut engine, 2), vec![0.0; 4]);
    assert_eq!(engine.stem_level(0), SILENCE_BITS);
    assert_eq!(engine.stem_level(1), SILENCE_BITS);
    assert_eq!(engine.master_level(), SILENCE_BITS);
}

#[test]
fn a_new_device_rate_invalidates_the_stems() {
    let mut engine = MultiTrackEngine::<f32>::new(2).unwrap();
    engine.load_stem_from_samples(Arc::new(vec![0.0; 8])).unwrap();
    engine.set_stem_volume(0, bits(0.5));
    engine.play().unwrap();
    render(&mut engine, 1);

    assert_eq!(engine.set_device_sample_rate(48000).unwrap(), false);
    assert_eq!(engine.active_stems(), 1);
    assert_eq!(engine.position(), 2);

    assert_eq!(engine.set_device_sample_rate(44100).unwrap(), true);
    assert_eq!(engine.device_sample_rate(), 44100);
    assert_eq!(engine.active_stems(), 0);
    assert_eq!(engine.position(), 0);
    assert_eq!(volume(&engine, 0), 0.5);
    assert_eq!(engine.state(), PlaybackState::Playing);

    assert!(matches!(engine.set_device_sample_rate(0), Err(AudioError::DeviceInit(_))));
    assert_eq!(engine.device_sample_rate(), 44100);
}

#[test]
fn out_of_range_indices_are_ignored() {
    let mut engine = MultiTrackEngine::<f32>::new(2).unwrap();
    engine.set_stem_mute(2, true);
    engine.set_stem_solo(2, true);
    engine.set_stem_volume(usize::MAX, bits(0.1));
    assert!(!engine.is_stem_muted(2));
    assert!(!engine.is_stem_soloed(2));
    assert!(!engine.any_solo());
    assert!(!engine.is_audible(2));
}

#[test]
fn error_messages_name_the_kind() {
    assert_eq!(
        AudioError::DeviceInit("no device".to_string()).message(),
        "Failed to initialize audio device: no device"
    );
    assert_eq!(
        AudioError::DecodeError("bad".to_string()).message(),
        "Failed to decode audio file: bad"
    );
    assert_eq!(AudioError::FileError("gone".to_string()).message(), "Failed to open audio file: gone");
    assert_eq!(AudioError::PlaybackError("x".to_string()).message(), "Audio playback error: x");
    assert_eq!(AudioError::InvalidFormat("y".to_string()).message(), "Invalid audio format: y");
    assert_eq!(AudioError::NoSlot.message(), "No available stem slots");
    assert_eq!(
        AudioError::UnknownStem("s1".to_string()).message(),
        "Stem not found in audio engine: s1"
    );
}

#[test]
fn a_snapshot_reads_position_state_and_meters() {
    let mut engine = MultiTrackEngine::<f32>::new(3).unwrap();
    engine.load_stem_from_samples(Arc::new(vec![1.0, 0.5, 0.25, 0.25])).unwrap();
    engine.load_stem_from_samples(Arc::new(vec![-0.5, 0.0, 0.0, 0.0])).unwrap();
    let idle = engine.snapshot();
    assert!(!idle.is_playing);
    assert_eq!(idle.position, 0);
    assert_eq!(idle.levels, vec![SILENCE_BITS; 3]);

    engine.play().unwrap();
    render(&mut engine, 1);
    let shot = engine.snapshot();
    assert!(shot.is_playing);
    assert_eq!(shot.position, 2);
    assert_eq!(shot.sample_rate, 48000);
    let levels: Vec<f32> = shot.levels.iter().map(|bits| f32::from_bits(*bits)).collect();
    assert_eq!(levels, vec![1.0, 0.5, 0.0]);
    assert_eq!(f32::from_bits(shot.master), 0.5);
}

#[test]
fn the_callback_works_for_integer_samples_too() {
    let mut engine = MultiTrackEngine::<i32>::new(4).unwrap();
    engine.load_stem_from_samples(Arc::new(vec![100, -200, 300, -400])).unwrap();
    engine.load_stem_from_samples(Arc::new(vec![1, 2])).unwrap();
    engine.load_stem_from_samples(Arc::new(vec![10, 20, 30, 40, 50, 60])).unwrap();
    engine.set_stem_mute(2, true);
    engine.play().unwrap();
    engine.seek(1).unwrap();

    // The kernels see samples and gains as they are: here the gain is not applied at all.
    let mut output = vec![7; 6];
    engine.audio_callback(
        &mut output,
        0,
        |sample, _gain| sample,
        |left, right| left + right,
        |peak, sample: i32| peak.max(sample.unsigned_abs()),
    );
    // From sample 2 on: the first stem has two samples left, the second none.
    assert_eq!(output, vec![300, -400, 0, 0, 0, 0]);
    assert_eq!(engine.stem_level(0), 400);
    assert_eq!(engine.stem_level(1), 0);
    assert_eq!(engine.stem_level(2), 0);
    assert_eq!(engine.master_level(), 400);
    assert_eq!(engine.position(), 8);
}

#[test]
fn slots_are_added_in_order() {
    let mut engine = MultiTrackEngine::<u64>::new(3).unwrap();
    engine.load_stem_from_samples(Arc::new(vec![1, 1])).unwrap();
    engine.load_stem_from_samples(Arc::new(vec![2, 2])).unwrap();
    engine.load_stem_from_samples(Arc::new(vec![3])).unwrap();
    engine.play().unwrap();
    let mut output = vec![0u64; 2];
    // Writing the digits one after the other shows the order of the additions.
    engine.audio_callback(
        &mut output,
        0,
        |sample, _gain| sample,
        |left, right| left * 10 + right,
        |peak, sample: u64| peak.max(sample as u32),
    );
    assert_eq!(output, vec![123, 12]);
}
