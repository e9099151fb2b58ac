use noise_gen::noise_element::NoiseElement;
use noise_gen::ratio::Ratio;
use noise_gen::NoiseError;

fn value_of(r: &Ratio) -> f64 {
    r.num as f64 / r.den as f64
}

#[test]
fn noise_element_noise_element_next_returns_f32_in_range() {
    let mock_sample_rate = 100;
    let min = Ratio::new(-1, 1);
    let max = Ratio::new(1, 1);
    let mut noise_element = NoiseElement::new(1, &min, &max, mock_sample_rate).unwrap();

    let mut sample_clock = 0;
    for _ in 1..mock_sample_rate * 2 {
        sample_clock = sample_clock + 1;

        let result = noise_element.next(sample_clock);
        assert!(value_of(&result) >= -1.0);
        assert!(value_of(&result) <= 1.0);
    }
}

#[test]
fn audio_processor_noise_element_next_returns_f32_in_range() {
    let mock_sample_rate = 100;
    let min = Ratio::new(-1, 1);
    let max = Ratio::new(1, 1);
    let mut noise_element = NoiseElement::new(1, &min, &max, mock_sample_rate).unwrap();

    let mut sample_clock = 0;
    for _ in 1..mock_sample_rate * 2 {
        sample_clock = sample_clock + 1;

        let result = noise_element.next(sample_clock);
        assert!(value_of(&result) >= -1.0);
        assert!(value_of(&result) <= 1.0);
    }
}

#[test]
fn noise_element_next_returns_f32_in_range_2() {
    let mock_sample_rate = 100;
    let min = Ratio::new(-1, 2);
    let max = Ratio::new(1, 2);
    let mut noise_element = NoiseElement::new(1, &min, &max, mock_sample_rate).unwrap();

    let mut sample_clock = 0;
    for _ in 1..mock_sample_rate * 2 {
        sample_clock = sample_clock + 1;

        let result = noise_element.next(sample_clock);
        assert!(value_of(&result) >= -0.5);
        assert!(value_of(&result) <= 0.5);
    }
}

#[test]
fn noise_element_same_min_max_is_invalid_range() {
    let mock_sample_rate = 100;
    let min = Ratio::new(1, 1);
    let max = Ratio::new(1, 1);
    let result = NoiseElement::new(1, &min, &max, mock_sample_rate);
    assert!(matches!(result, Err(NoiseError::InvalidRange)));
}

#[test]
fn noise_element_large_min_is_invalid_range() {
    let mock_sample_rate = 100;
    let min = Ratio::new(1, 1);
    let max = Ratio::new(1, 2);
    let result = NoiseElement::new(1, &min, &max, mock_sample_rate);
    assert!(matches!(result, Err(NoiseError::InvalidRange)));
}

#[test]
fn noise_element_next_returns_f32_in_range_3() {
    let mock_sample_rate = 100;
    let min = Ratio::new(1, 100);
    let max = Ratio::new(1, 1);
    let diff = 1.0 - 0.01;
    let mut noise_element = NoiseElement::new(1, &min, &max, mock_sample_rate).unwrap();

    let mut sample_clock = 0;
    for _ in 1..mock_sample_rate * 2 {
        sample_clock = sample_clock + 1;

        let result = noise_element.next(sample_clock);
        assert!(value_of(&result) >= -diff);
        assert!(value_of(&result) <= diff);
    }
}

#[test]
fn noise_element_next_cycles_through() {
    let mock_sample_rate = 100;
    let min = Ratio::new(-1, 1);
    let max = Ratio::new(1, 1);
    let mut noise_element = NoiseElement::new(1, &min, &max, mock_sample_rate).unwrap();

    let mut sample_clock = 0;
    for _ in 1..mock_sample_rate * 2 {
        sample_clock = sample_clock + 1;
        let _ = noise_element.next(sample_clock);
    }
}

#[test]
fn noise_element_next_occurance_rate_2() {
    let occurance_rate = 2;
    let mock_sample_rate = 100;
    let min = Ratio::new(-1, 1);
    let max = Ratio::new(1, 1);
    let diff = 2.0;

    let mut noise_element =
        NoiseElement::new(occurance_rate, &min, &max, mock_sample_rate).unwrap();

    let mut sample_clock = 0;
    for i in 0..mock_sample_rate {
        sample_clock = sample_clock + 1;

        let result = noise_element.next(sample_clock);
        if i % occurance_rate != 0 {
            assert!(value_of(&result) >= -diff);
            assert!(value_of(&result) <= diff);
        } else {
            assert_eq!(result, Ratio::new(0, 1));
        }
    }
}

#[test]
fn noise_element_next_occurance_rate_7() {
    let occurance_rate = 7;
    let mock_sample_rate = 100;
    let min = Ratio::new(-1, 1);
    let max = Ratio::new(1, 1);
    let diff = 2.0;

    let mut noise_element =
        NoiseElement::new(occurance_rate, &min, &max, mock_sample_rate).unwrap();

    let mut sample_clock = 0;
    for i in 0..mock_sample_rate {
        sample_clock = sample_clock + 1;

        let result = noise_element.next(sample_clock);
        if i % occurance_rate != 0 {
            assert!(value_of(&result) >= -diff);
            assert!(value_of(&result) <= diff);
        } else {
            assert_eq!(result, Ratio::new(0, 1));
        }
    }
}

#[test]
fn noise_element_silent_between_firings() {
    let occurance_rate = 5;
    let mock_sample_rate = 100;
    let min = Ratio::new(-1, 1);
    let max = Ratio::new(1, 1);
    let mut noise_element =
        NoiseElement::new(occurance_rate, &min, &max, mock_sample_rate).unwrap();

    for sample_clock in 1..300usize {
        let result = noise_element.next(sample_clock);
        if sample_clock % occurance_rate != 0 {
            assert_eq!(result, Ratio::new(0, 1));
        }
    }
}
