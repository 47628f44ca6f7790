use aetherion::sdr::{IqSample, RtlSdr, FmDemodulator, AmDemodulator, Decimator, LowPassFilter, SdrError};

fn fx(x: f64) -> i64 {
    (x * 65536.0).round() as i64
}

fn to_f(v: i64) -> f64 {
    v as f64 / 65536.0
}

#[test]
fn test_iq_sample_creation() {
    let sample = IqSample::new(100, -50);
    assert_eq!(sample.i, 100);
    assert_eq!(sample.q, -50);
}

#[test]
fn test_iq_sample_from_u8() {
    let sample = IqSample::from_u8(200, 50);
    assert_eq!(sample.i, 73); // 200 - 127
    assert_eq!(sample.q, -77); // 50 - 127
}

#[test]
fn test_iq_sample_magnitude() {
    let sample = IqSample::new(3, 4);
    let mag = to_f(sample.magnitude());
    assert!((mag - 5.0).abs() < 0.001); // sqrt(9 + 16) = 5
}

#[test]
fn test_iq_sample_phase() {
    let sample = IqSample::new(1, 1);
    let phase = to_f(sample.phase());
    assert!((phase - core::f64::consts::FRAC_PI_4).abs() < 0.001); // 45 degrees
}

#[test]
fn test_rtlsdr_frequency_range() {
    let sdr = RtlSdr::new();

    // Valid frequency
    assert!(sdr.get_frequency() > 0);

    // Default frequency should be 100 MHz
    assert_eq!(sdr.get_frequency(), 100_000_000);
}

#[test]
fn test_rtlsdr_sample_rate() {
    let sdr = RtlSdr::new();

    // Default should be 2.048 MHz
    assert_eq!(sdr.get_sample_rate(), 2_048_000);
}

#[test]
fn test_rtlsdr_tune() {
    let mut sdr = RtlSdr::new();
    assert!(sdr.tune(100_500_000).is_ok());
    assert_eq!(sdr.get_frequency(), 100_500_000);
    assert_eq!(sdr.tune(1_000_000).unwrap_err(), SdrError::FrequencyOutOfRange);
    assert_eq!(sdr.get_frequency(), 100_500_000);
}

#[test]
fn test_fm_demodulator_creation() {
    let demod = FmDemodulator::new(2_048_000);
    assert_eq!(demod.sample_rate, 2_048_000);
}

#[test]
fn test_fm_demodulation_output_size() {
    let mut demod = FmDemodulator::new(2_048_000);

    let samples = vec![
        IqSample::new(100, 0),
        IqSample::new(0, 100),
        IqSample::new(-100, 0),
        IqSample::new(0, -100),
    ];

    let audio = demod.demodulate(&samples);

    // Output should have same number of samples
    assert_eq!(audio.len(), samples.len());
}

#[test]
fn test_fm_demodulation_tracks_rotation() {
    let mut demod = FmDemodulator::new(2_048_000);
    // a steadily rotating carrier gives a steady positive audio value
    let samples = vec![
        IqSample::new(100, 0),
        IqSample::new(0, 100),
        IqSample::new(-100, 0),
        IqSample::new(0, -100),
    ];
    let audio = demod.demodulate(&samples);
    for &v in audio[1..].iter() {
        assert!((to_f(v) - core::f64::consts::FRAC_PI_2).abs() < 0.01);
    }
}

#[test]
fn test_am_demodulator_creation() {
    let demod = AmDemodulator::new();
    assert_eq!(demod.dc_offset, 0);
}

#[test]
fn test_am_demodulation_envelope() {
    let demod = AmDemodulator::new();
    let samples = vec![IqSample::new(3, 4), IqSample::new(0, 0)];
    let audio = demod.demodulate(&samples);
    assert_eq!(audio, vec![fx(5.0), 0]);
}

#[test]
fn test_decimator_creation() {
    let decimator = Decimator::new(4, 48000);
    assert_eq!(decimator.factor, 4);
}

#[test]
fn test_decimation() {
    let decimator = Decimator::new(2, 48000);
    let input = vec![fx(1.0), fx(2.0), fx(3.0), fx(4.0), fx(5.0), fx(6.0)];
    let output = decimator.decimate(&input);

    // Output should be half the size
    assert!(output.len() <= input.len() / 2 + 1);
}

#[test]
fn test_decimation_keeps_every_nth() {
    let decimator = Decimator::new(3, 48000);
    let input = vec![10i64, 20, 30, 40, 50, 60, 70];
    let output = decimator.decimate(&input);
    assert_eq!(output, vec![10, 40]);
}

#[test]
fn test_lowpass_filter_creation() {
    let filter = LowPassFilter::new(1000, 48000, 51);
    assert_eq!(filter.coefficients.len(), 51);
}

#[test]
fn test_lowpass_filter_centre_tap() {
    let filter = LowPassFilter::new(1000, 48000, 51);
    // the centre tap of the windowed sinc is 2 * fc / fs
    assert_eq!(filter.coefficients[25], 131072 * 1000 / 48000);
    // the response is symmetric around the centre
    assert_eq!(filter.coefficients[24], filter.coefficients[26]);
}
