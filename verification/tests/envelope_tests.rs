use radio_conductor::envelope::{envelope, resolve_duration_bits, F32_ONE_BITS, WINDOW};

#[test]
fn empty_input_empty_envelope() {
    let samples: Vec<u32> = vec![];
    assert_eq!(envelope(&samples).len(), 0);
}

#[test]
fn short_window_takes_peak_of_absolute_values() {
    let samples: Vec<u32> = vec![
        0.5f32.to_bits(),
        (-0.75f32).to_bits(),
        0.25f32.to_bits(),
    ];
    let env = envelope(&samples);
    assert_eq!(env.len(), 1);
    assert_eq!(env[0], 0.75f32.to_bits());
    assert_eq!(f32::from_bits(env[0]), 0.75);
}

#[test]
fn envelope_length_rounds_up() {
    // ceil(sampleCount / WINDOW) windows, the last one shorter.
    let n = 10 * 44100;
    let samples: Vec<u32> = vec![0.1f32.to_bits(); n];
    let env = envelope(&samples);
    assert_eq!(env.len(), (n + WINDOW - 1) / WINDOW);
    assert_eq!(env.len(), 431);
}

#[test]
fn exact_window_boundary() {
    let samples: Vec<u32> = vec![0.5f32.to_bits(); WINDOW];
    assert_eq!(envelope(&samples).len(), 1);
    let samples2: Vec<u32> = vec![0.5f32.to_bits(); WINDOW + 1];
    assert_eq!(envelope(&samples2).len(), 2);
}

#[test]
fn windows_are_independent() {
    let mut samples: Vec<u32> = vec![0.5f32.to_bits(); WINDOW];
    samples.push((-1.0f32).to_bits());
    let env = envelope(&samples);
    assert_eq!(env.len(), 2);
    assert_eq!(env[0], 0.5f32.to_bits());
    assert_eq!(env[1], 1.0f32.to_bits());
    assert_eq!(env[1], F32_ONE_BITS);
}

#[test]
fn normalized_samples_stay_within_one() {
    let samples: Vec<u32> = vec![
        0.0f32.to_bits(),
        (-0.999f32).to_bits(),
        1.0f32.to_bits(),
        0.25f32.to_bits(),
    ];
    for v in envelope(&samples) {
        let x = f32::from_bits(v);
        assert!((0.0..=1.0).contains(&x));
        assert!(v <= F32_ONE_BITS);
    }
}

#[test]
fn probe_failure_is_exactly_zero() {
    let bits = resolve_duration_bits(None);
    assert_eq!(bits, 0);
    let d = f32::from_bits(bits);
    assert_eq!(d, 0.0);
    assert!(!d.is_nan());
    assert!(d.is_sign_positive());
}

#[test]
fn probe_success_is_kept() {
    let bits = 12.34f32.to_bits();
    assert_eq!(resolve_duration_bits(Some(bits)), bits);
    assert_eq!(f32::from_bits(resolve_duration_bits(Some(bits))), 12.34);
}
