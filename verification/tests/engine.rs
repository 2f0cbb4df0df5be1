use clean_comp::engine::{ConfigError, DynamicsEngine, EngineConfig};
use clean_comp::envelope::{Baseline, EnvelopeState};
use clean_comp::gain::{GainAction, Mode};

fn carry_out(action: GainAction, sample: f32, ratio: f32, threshold: f32) -> f32 {
    action.apply(sample, threshold, threshold + (sample - threshold) / ratio + sample)
}

fn process_group(
    engine: &mut DynamicsEngine,
    samples: &mut Vec<f32>,
    threshold: f32,
    ratio: f32,
    mode: Mode,
) {
    let exceeds: Vec<bool> = samples.iter().map(|sample| *sample > threshold).collect();
    let compressed: Vec<f32> = samples
        .iter()
        .map(|sample| threshold + (*sample - threshold) / ratio + *sample)
        .collect();
    engine.process_frame(samples, &exceeds, &compressed, threshold, mode);
}

fn engine(sample_rate_hz: i32, channels: usize) -> DynamicsEngine {
    match DynamicsEngine::new(sample_rate_hz, channels) {
        Ok(engine) => engine,
        Err(error) => panic!("no engine at {} Hz: {:?}", sample_rate_hz, error),
    }
}

#[test]
fn config_accepts_positive_rates_only() {
    assert!(matches!(EngineConfig::new(0), Err(ConfigError::NonPositiveSampleRate)));
    assert!(matches!(EngineConfig::new(-44100), Err(ConfigError::NonPositiveSampleRate)));
    assert!(matches!(EngineConfig::new(i32::MIN), Err(ConfigError::NonPositiveSampleRate)));
    match EngineConfig::new(44100) {
        Ok(config) => assert_eq!(config.sample_rate_hz(), 44100),
        Err(error) => panic!("{:?}", error),
    }
    match EngineConfig::new(1) {
        Ok(config) => assert_eq!(config.sample_rate_hz(), 1),
        Err(error) => panic!("{:?}", error),
    }
}

#[test]
fn engine_refuses_zero_and_negative_rates() {
    assert!(matches!(DynamicsEngine::new(0, 2), Err(ConfigError::NonPositiveSampleRate)));
    assert!(matches!(DynamicsEngine::new(-1, 2), Err(ConfigError::NonPositiveSampleRate)));
    assert!(matches!(DynamicsEngine::new(i32::MIN, 0), Err(ConfigError::NonPositiveSampleRate)));
}

#[test]
fn new_engine_is_fresh() {
    let engine = engine(44100, 2);
    assert_eq!(engine.sample_rate_hz(), 44100);
    assert_eq!(engine.channels(), 2);
    assert_eq!(engine.baseline(), Baseline { attack: 0, release: 0 });
    assert_eq!(engine.gate(0), EnvelopeState::new());
    assert_eq!(engine.gate(1), EnvelopeState::new());
}

#[test]
fn engine_without_channels() {
    let mut engine = engine(44100, 0);
    assert_eq!(engine.channels(), 0);
    let mut samples: Vec<f32> = Vec::new();
    process_group(&mut engine, &mut samples, 0.1, 2.0, Mode::Limit);
    assert!(samples.is_empty());
}

#[test]
fn compress_end_to_end() {
    let mut engine = engine(44100, 1);
    assert_eq!(engine.set_attack_count(0), 0);
    assert_eq!(engine.set_release_count(0), 0);
    let (sample, threshold, ratio) = (0.3f32, 0.1f32, 2.0f32);
    let action = engine.step(0, sample > threshold, Mode::Compress);
    assert_eq!(action, GainAction::Compress);
    let output = carry_out(action, sample, ratio, threshold);
    assert!((output - 0.5).abs() < 1e-6, "output {}", output);
}

#[test]
fn limit_end_to_end() {
    let mut engine = engine(44100, 1);
    assert_eq!(engine.set_attack_count(0), 0);
    assert_eq!(engine.set_release_count(0), 0);
    let (sample, threshold, ratio) = (0.3f32, 0.1f32, 2.0f32);
    let action = engine.step(0, sample > threshold, Mode::Limit);
    assert_eq!(action, GainAction::Clamp);
    assert_eq!(carry_out(action, sample, ratio, threshold), 0.1f32);
}

#[test]
fn attack_of_four_samples_end_to_end() {
    let mut engine = engine(48000, 1);
    assert_eq!(engine.set_attack_count(12000), 4);
    assert_eq!(engine.set_release_count(6), 8000);
    let threshold = 0.1f32;
    // The first sample stays below the threshold and arms the attack.
    assert_eq!(engine.step(0, 0.05 > threshold, Mode::Limit), GainAction::Pass);
    let input = [0.3f32, 0.3, 0.3, 0.05, 0.3, 0.3, 0.3, 0.3];
    let mut output = Vec::new();
    for &sample in &input {
        let action = engine.step(0, sample > threshold, Mode::Limit);
        output.push(carry_out(action, sample, 2.0, threshold));
    }
    assert_eq!(output, vec![0.3f32, 0.3, 0.3, 0.05, 0.3, 0.3, 0.3, 0.1]);
}

#[test]
fn hundred_milliseconds_at_48k_means_instant_attack() {
    let mut engine = engine(48000, 1);
    // 48000 / (1000 * 100) is cut to zero.
    assert_eq!(engine.set_attack_count(1000 * 100), 0);
    assert_eq!(engine.set_release_count(1), 48000);
    assert_eq!(engine.step(0, false, Mode::Limit), GainAction::Pass);
    assert_eq!(engine.step(0, true, Mode::Limit), GainAction::Clamp);
}

#[test]
fn baselines_follow_the_settings() {
    let mut engine = engine(44100, 2);
    assert_eq!(engine.set_attack_count(1000), 44);
    assert_eq!(engine.baseline(), Baseline { attack: 44, release: 0 });
    assert_eq!(engine.set_release_count(2000), 22);
    assert_eq!(engine.baseline(), Baseline { attack: 44, release: 22 });
    assert_eq!(engine.set_attack_count(0), 0);
    assert_eq!(engine.baseline(), Baseline { attack: 0, release: 22 });
    assert_eq!(engine.set_release_count(50_000), 0);
    assert_eq!(engine.baseline(), Baseline { attack: 0, release: 0 });
}

#[test]
fn new_baselines_leave_countdowns_alone() {
    let mut engine = engine(44100, 1);
    engine.set_attack_count(4410);
    engine.set_release_count(441);
    engine.step(0, false, Mode::Compress);
    engine.step(0, true, Mode::Compress);
    let before = engine.gate(0);
    assert_eq!(before, EnvelopeState { attack_countdown: 9, release_countdown: 99 });
    engine.set_attack_count(0);
    engine.set_release_count(0);
    assert_eq!(engine.gate(0), before);
    // The stale countdown still delays gain reduction.
    assert_eq!(engine.step(0, true, Mode::Compress), GainAction::Pass);
}

#[test]
fn channels_are_gated_independently() {
    let mut engine = engine(44100, 2);
    engine.set_attack_count(22050);
    engine.set_release_count(441);
    assert_eq!(engine.baseline(), Baseline { attack: 2, release: 100 });
    engine.step(0, false, Mode::Limit);
    engine.step(1, false, Mode::Limit);
    assert_eq!(engine.step(0, true, Mode::Limit), GainAction::Pass);
    assert_eq!(engine.gate(0), EnvelopeState { attack_countdown: 1, release_countdown: 99 });
    assert_eq!(engine.gate(1), EnvelopeState { attack_countdown: 2, release_countdown: 100 });
    assert_eq!(engine.step(0, true, Mode::Limit), GainAction::Clamp);
    assert_eq!(engine.step(1, true, Mode::Limit), GainAction::Pass);
    assert_eq!(engine.step(1, true, Mode::Limit), GainAction::Clamp);
}

#[test]
fn frame_agrees_with_steps() {
    let mut framed = engine(48000, 3);
    let mut stepped = engine(48000, 3);
    for engine in [&mut framed, &mut stepped] {
        engine.set_attack_count(16000);
        engine.set_release_count(8000);
        assert_eq!(engine.baseline(), Baseline { attack: 3, release: 6 });
    }
    let (threshold, ratio) = (0.25f32, 4.0f32);
    let frames = [
        [0.0f32, 0.5, 0.75],
        [0.5, 1.0, 0.25],
        [0.75, 0.5, 1.0],
        [1.0, -0.5, 0.5],
        [0.5, 0.5, 0.5],
        [0.125, 0.75, 1.0],
        [0.5, 1.0, 0.75],
        [0.75, 0.5, 0.5],
    ];
    for (index, frame) in frames.iter().enumerate() {
        let mode = if index % 2 == 0 { Mode::Compress } else { Mode::Limit };
        let mut samples = frame.to_vec();
        process_group(&mut framed, &mut samples, threshold, ratio, mode);
        assert_eq!(samples.len(), 3);
        for channel in 0..3 {
            let sample = frame[channel];
            let action = stepped.step(channel, sample > threshold, mode);
            assert_eq!(samples[channel], carry_out(action, sample, ratio, threshold));
            assert_eq!(framed.gate(channel), stepped.gate(channel));
        }
    }
}

#[test]
fn frame_rewrites_samples_in_place() {
    let mut engine = engine(44100, 2);
    // Fresh gates gate their first sample.
    let mut samples = vec![0.75f32, 0.125];
    process_group(&mut engine, &mut samples, 0.25, 2.0, Mode::Compress);
    // 0.25 + (0.75 - 0.25) / 2 + 0.75 = 1.25; the other sample is within the
    // threshold.
    assert_eq!(samples, vec![1.25f32, 0.125]);
    let mut samples = vec![0.75f32, 0.5];
    process_group(&mut engine, &mut samples, 0.25, 2.0, Mode::Limit);
    assert_eq!(samples, vec![0.25f32, 0.25]);
}

#[test]
fn frame_leaves_ungated_samples_alone() {
    let mut engine = engine(44100, 2);
    assert_eq!(engine.set_attack_count(4410), 10);
    assert_eq!(engine.set_release_count(441), 100);
    let mut samples = vec![0.0f32, 0.0];
    process_group(&mut engine, &mut samples, 0.25, 2.0, Mode::Limit);
    // Both channels are armed now; the attack keeps gain reduction off.
    let mut samples = vec![0.75f32, 1.0];
    process_group(&mut engine, &mut samples, 0.25, 2.0, Mode::Limit);
    assert_eq!(samples, vec![0.75f32, 1.0]);
}

#[test]
fn frame_takes_any_amplitude_type() {
    let mut engine = engine(44100, 2);
    let mut samples = vec![7i64, 2];
    engine.process_frame(&mut samples, &[true, false], &[5, 2], 3, Mode::Compress);
    assert_eq!(samples, vec![5i64, 2]);
    let mut samples = vec![7i64, 9];
    engine.process_frame(&mut samples, &[true, true], &[5, 6], 3, Mode::Limit);
    assert_eq!(samples, vec![3i64, 3]);
}

#[test]
fn initialize_starts_afresh() {
    let mut engine = engine(44100, 2);
    engine.set_attack_count(1000);
    engine.set_release_count(1000);
    engine.step(0, true, Mode::Compress);
    engine.step(1, false, Mode::Compress);
    assert_eq!(engine.initialize(48000), Ok(()));
    assert_eq!(engine.sample_rate_hz(), 48000);
    assert_eq!(engine.channels(), 2);
    assert_eq!(engine.baseline(), Baseline { attack: 0, release: 0 });
    assert_eq!(engine.gate(0), EnvelopeState::new());
    assert_eq!(engine.gate(1), EnvelopeState::new());
    assert_eq!(engine.set_attack_count(1000), 48);
}

#[test]
fn failed_initialize_changes_nothing() {
    let mut engine = engine(44100, 1);
    engine.set_attack_count(1000);
    engine.set_release_count(2000);
    engine.step(0, false, Mode::Compress);
    engine.step(0, true, Mode::Compress);
    let gate = engine.gate(0);
    assert_eq!(engine.initialize(0), Err(ConfigError::NonPositiveSampleRate));
    assert_eq!(engine.initialize(-48000), Err(ConfigError::NonPositiveSampleRate));
    assert_eq!(engine.sample_rate_hz(), 44100);
    assert_eq!(engine.baseline(), Baseline { attack: 44, release: 22 });
    assert_eq!(engine.gate(0), gate);
}
