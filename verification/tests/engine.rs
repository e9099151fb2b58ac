use std::sync::Mutex;

use noise_gen::audio_processor::AudioProcessor;
use noise_gen::noise_config::{convert_string_to_noise_type, NoiseConfig, NoiseType};
use noise_gen::ratio::Ratio;
use noise_gen::{render_frames, silent_frames, NoiseError};

#[test]
fn clock_wraps_after_one_second() {
    let sample_rate = 100;
    let mut processor = AudioProcessor::new(sample_rate).unwrap();
    assert_eq!(processor.sample_clock, 0);
    assert_eq!(processor.seconds_gone_by, 0);

    for _ in 0..sample_rate {
        processor.increment_sample_clock();
    }
    assert_eq!(processor.sample_clock, 0);
    assert_eq!(processor.seconds_gone_by, 1);

    for _ in 0..sample_rate {
        processor.increment_sample_clock();
    }
    assert_eq!(processor.sample_clock, 0);
    assert_eq!(processor.seconds_gone_by, 2);
}

#[test]
fn colored_noise_is_silent_past_the_envelope() {
    let sample_rate = 50;
    let mut processor = AudioProcessor::new(sample_rate).unwrap();
    let fade_in = Ratio::new(1, 1);
    let hold = Ratio::new(0, 1);
    let fade_out = Ratio::new(0, 1);

    // One second of fade-in, then the envelope is over: every later sample
    // is exactly zero, no matter how long playback goes on.
    for _ in 0..sample_rate {
        let _ = processor.colored_noise(fade_in, hold, fade_out);
    }
    for _ in 0..sample_rate * 3 {
        let sample = processor.colored_noise(fade_in, hold, fade_out);
        assert_eq!(sample.num, 0);
    }
}

#[test]
fn colored_noise_holds_at_full_amplitude() {
    let sample_rate = 10;
    let mut processor = AudioProcessor::new(sample_rate).unwrap();
    let fade_in = Ratio::new(0, 1);
    let hold = Ratio::new(4096, 1);
    let fade_out = Ratio::new(0, 1);

    // With no fade-in the envelope holds at one, so the sample is exactly
    // the three-voice average, which stays within the worst-case range of
    // [-3/5, 3/5]: each voice contributes at most half its range width.
    for _ in 0..sample_rate * 2 {
        let sample = processor.colored_noise(fade_in, hold, fade_out);
        let value = sample.num as f64 / sample.den as f64;
        assert!(value >= -0.6 - 1e-9);
        assert!(value <= 0.6 + 1e-9);
    }
}

#[test]
fn pink_noise_deterministic_given_clock() {
    let sample_rate = 100;
    let mut first = AudioProcessor::new(sample_rate).unwrap();
    let mut second = AudioProcessor::new(sample_rate).unwrap();

    // The two engines hold different random buffers, yet the harmonic terms
    // agree call for call: nothing but the sample rate and the sample clock
    // enters them.
    for _ in 0..250 {
        let a = first.pink_noise();
        let b = second.pink_noise();
        assert_eq!(a, b);
    }
}

#[test]
fn pink_noise_has_ten_weighted_terms() {
    let sample_rate = 100;
    let mut processor = AudioProcessor::new(sample_rate).unwrap();
    let terms = processor.pink_noise();

    assert_eq!(terms.len(), 10);
    for (j, term) in terms.iter().enumerate() {
        let i = (j + 1) as i128;
        // Weight 1 - (i-1)/i == 1/i.
        assert!(term.amp.value_eq(&Ratio::new(1, i)));
        // Phase clock * freq / rate with clock == 1 and freq == i*rate/100.
        assert!(term.phase.value_eq(&Ratio::new(i, 100)));
    }
}

#[test]
fn render_frames_replicates_channels() {
    let sample_rate = 100;
    let mut processor = AudioProcessor::new(sample_rate).unwrap();
    let frames = 5;
    let channels = 3;
    let out = render_frames(
        &mut processor,
        frames,
        channels,
        Ratio::new(1, 1),
        Ratio::new(5, 1),
        Ratio::new(10, 1),
    );

    assert_eq!(out.len(), frames * channels);
    for f in 0..frames {
        for c in 1..channels {
            assert_eq!(out[f * channels + c], out[f * channels]);
        }
    }
    // Every sample of the run stays within the proven range [-3/5, 3/5].
    for sample in &out {
        let value = sample.num as f64 / sample.den as f64;
        assert!(value >= -0.6 - 1e-9);
        assert!(value <= 0.6 + 1e-9);
    }
}

#[test]
fn silent_when_engine_locked() {
    let sample_rate = 100;
    let engine = Mutex::new(AudioProcessor::new(sample_rate).unwrap());

    // A mutator holds the engine; the delivery path must not wait for it.
    let _held = engine.try_lock().unwrap();
    let frames = 32;
    let channels = 2;
    let out = match engine.try_lock() {
        Ok(_) => panic!("the engine lock should be contended here"),
        Err(_) => silent_frames(frames, channels),
    };

    assert_eq!(out.len(), frames * channels);
    for sample in &out {
        assert_eq!(sample.num, 0);
        assert_eq!(sample.den, 1);
    }
}

#[test]
fn convert_string_recognises_both_noise_types() {
    assert!(matches!(
        convert_string_to_noise_type("default".to_owned()),
        Ok(NoiseType::Default)
    ));
    assert!(matches!(
        convert_string_to_noise_type("pink".to_owned()),
        Ok(NoiseType::Pink)
    ));
}

#[test]
fn convert_string_rejects_unknown_noise_type() {
    let result = convert_string_to_noise_type("brown".to_owned());
    assert!(matches!(result, Err(NoiseError::UnknownNoiseType)));
}

#[test]
fn noise_config_new_carries_envelope() {
    let config = NoiseConfig::new(
        "default".to_owned(),
        Ratio::new(1, 1),
        Ratio::new(5, 1),
        Ratio::new(10, 1),
    )
    .unwrap();

    assert!(matches!(config.noise_type, NoiseType::Default));
    assert_eq!(config.fade_in, Ratio::new(1, 1));
    assert_eq!(config.hold, Ratio::new(5, 1));
    assert_eq!(config.fade_out, Ratio::new(10, 1));

    let bad = NoiseConfig::new(
        "white".to_owned(),
        Ratio::new(1, 1),
        Ratio::new(5, 1),
        Ratio::new(10, 1),
    );
    assert!(matches!(bad, Err(NoiseError::UnknownNoiseType)));
}
