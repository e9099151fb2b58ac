use noise_gen::ratio::Ratio;
use noise_gen::utils::{
    clamp, create_random_vec_f32, get_amp_for_fade_in, get_amp_for_fade_in_at_second,
    get_amp_for_fade_out, get_amp_for_fade_out_at_second, noise_values, random_f32,
    scalar_from_bytes,
};
use noise_gen::NoiseError;

fn value_of(r: &Ratio) -> f64 {
    r.num as f64 / r.den as f64
}

#[test]
fn get_amp_for_fade_out_at_second_initial() {
    let result = get_amp_for_fade_out_at_second(&Ratio::new(10, 1), &Ratio::new(0, 1));

    assert!(result.value_eq(&Ratio::new(1, 1)));
}

#[test]
fn get_amp_for_fade_out_at_second_half() {
    let result = get_amp_for_fade_out_at_second(&Ratio::new(10, 1), &Ratio::new(5, 1));

    assert!(result.value_eq(&Ratio::new(1, 2)));
}

#[test]
fn get_amp_for_fade_out_at_second_end() {
    let result = get_amp_for_fade_out_at_second(&Ratio::new(10, 1), &Ratio::new(10, 1));

    assert!(result.value_eq(&Ratio::new(0, 1)));
}

#[test]
fn get_amp_for_fade_out_initial_is_1() {
    let result = get_amp_for_fade_out(&Ratio::new(2, 1), 100, &Ratio::new(0, 1), 0);

    assert!(result.value_eq(&Ratio::new(1, 1)));
}

#[test]
fn get_amp_for_fade_out_half_is_half() {
    let result = get_amp_for_fade_out(&Ratio::new(2, 1), 100, &Ratio::new(1, 1), 0);

    assert!(result.value_eq(&Ratio::new(1, 2)));
}

#[test]
fn get_amp_for_fade_out_between_sec_1_and_2() {
    let result = get_amp_for_fade_out(&Ratio::new(2, 1), 100, &Ratio::new(1, 1), 50);

    assert!(result.value_eq(&Ratio::new(1, 4)));
}

#[test]
fn get_amp_for_fade_out_end_sec_1_greater_than_half() {
    let result = get_amp_for_fade_out(&Ratio::new(2, 1), 100, &Ratio::new(0, 1), 99);

    assert!(value_of(&result) > 0.5);
}

#[test]
fn get_amp_for_fade_in_at_second_boundaries() {
    let zero = get_amp_for_fade_in_at_second(&Ratio::new(10, 1), &Ratio::new(0, 1));
    assert!(zero.value_eq(&Ratio::new(0, 1)));

    let full = get_amp_for_fade_in_at_second(&Ratio::new(10, 1), &Ratio::new(10, 1));
    assert!(full.value_eq(&Ratio::new(1, 1)));

    let negative = get_amp_for_fade_in_at_second(&Ratio::new(10, 1), &Ratio::new(-3, 1));
    assert!(negative.value_eq(&Ratio::new(0, 1)));
}

#[test]
fn fade_in_at_second_strictly_increases() {
    let len = Ratio::new(10, 1);
    let mut previous = get_amp_for_fade_in_at_second(&len, &Ratio::new(0, 1));
    for t in 1..=9 {
        let current = get_amp_for_fade_in_at_second(&len, &Ratio::new(t, 1));
        assert!(value_of(&current) > value_of(&previous));
        previous = current;
    }
}

#[test]
fn fade_out_at_second_mirrors_fade_in() {
    let len = Ratio::new(10, 1);
    for t in -2..=12 {
        let rising = get_amp_for_fade_in_at_second(&len, &Ratio::new(t, 1));
        let falling = get_amp_for_fade_out_at_second(&len, &Ratio::new(t, 1));
        let mirrored = Ratio::new(1, 1).sub(&rising);
        assert!(falling.value_eq(&mirrored));
    }
}

#[test]
fn fade_in_interpolates_halfway_through_first_second() {
    let result = get_amp_for_fade_in(&Ratio::new(1, 1), 100, &Ratio::new(0, 1), 50);

    assert!(result.value_eq(&Ratio::new(1, 2)));
}

#[test]
fn fade_in_amp_is_zero_at_start() {
    let result = get_amp_for_fade_in(&Ratio::new(1, 1), 100, &Ratio::new(0, 1), 0);

    assert!(result.value_eq(&Ratio::new(0, 1)));
}

#[test]
fn create_random_vec_f32_is_correct_size() {
    let mock_size = 400;
    let random_vec =
        create_random_vec_f32(&Ratio::new(-1, 1), &Ratio::new(1, 1), mock_size).unwrap();

    assert_eq!(random_vec.len(), mock_size);
}

#[test]
fn create_random_vec_f32_no_elements_less_than_min() {
    let random_vec = create_random_vec_f32(&Ratio::new(-1, 1), &Ratio::new(1, 1), 99).unwrap();

    let less_than_min: Vec<Ratio> = random_vec
        .clone()
        .into_iter()
        .filter(|n| value_of(n) < -1.0)
        .collect();

    assert_eq!(less_than_min.len(), 0);
}

#[test]
fn create_random_vec_f32_no_elements_greater_than_max() {
    let random_vec = create_random_vec_f32(&Ratio::new(-1, 1), &Ratio::new(1, 1), 99).unwrap();

    let greater_than_max: Vec<Ratio> = random_vec
        .clone()
        .into_iter()
        .filter(|n| value_of(n) > 1.0)
        .collect();

    assert_eq!(greater_than_max.len(), 0);
}

#[test]
fn create_random_vec_f32_rejects_empty_range() {
    let result = create_random_vec_f32(&Ratio::new(1, 2), &Ratio::new(1, 2), 10);
    assert!(matches!(result, Err(NoiseError::InvalidRange)));

    let inverted = create_random_vec_f32(&Ratio::new(1, 1), &Ratio::new(-1, 1), 10);
    assert!(matches!(inverted, Err(NoiseError::InvalidRange)));
}

#[test]
fn noise_values_maps_each_byte_exactly() {
    let bytes = vec![0u8, 255, 51];
    let out = noise_values(&bytes, &Ratio::new(-1, 1), &Ratio::new(1, 1));

    // Range width 2: byte 0 maps to -w/2 == -1, byte 255 to +1, and byte 51
    // to (102 - 255) * 2 / 510 == -3/5.
    assert_eq!(out.len(), 3);
    assert!(out[0].value_eq(&Ratio::new(-1, 1)));
    assert!(out[1].value_eq(&Ratio::new(1, 1)));
    assert!(out[2].value_eq(&Ratio::new(-3, 5)));
}

#[test]
fn scalar_from_bytes_is_sum_over_765() {
    let r = scalar_from_bytes(1, 2, 3);
    assert_eq!(r.num, 6);
    assert_eq!(r.den, 765);

    let top = scalar_from_bytes(255, 255, 255);
    assert_eq!(top.num, 765);
    assert_eq!(top.den, 765);
}

#[test]
fn random_f32_lies_in_unit_interval() {
    for _ in 0..32 {
        let r = random_f32().unwrap();
        assert_eq!(r.den, 765);
        assert!(r.num >= 0);
        assert!(r.num <= 765);
    }
}

#[test]
fn clamp_works() {
    let result_high = clamp(Ratio::new(3, 2));
    assert_eq!(result_high, Ratio::new(1, 1));

    let result_low = clamp(Ratio::new(-9, 2));
    assert_eq!(result_low, Ratio::new(-1, 1));

    let result_pass = clamp(Ratio::new(1, 2));
    assert_eq!(result_pass, Ratio::new(1, 2));
}
