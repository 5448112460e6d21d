use jack_fourier::analyzer::{
    ConfigError, SpectralAnalyzer, BUFFER_SIZE, CHANNEL_CAPACITY, FFT_SIZE,
};
use jack_fourier::channel::SampleChannel;

#[test]
fn default_sizes() {
    assert_eq!(BUFFER_SIZE, 256);
    assert_eq!(FFT_SIZE, 4096);
    assert_eq!(CHANNEL_CAPACITY, 50_000);
    let analyzer = SpectralAnalyzer::new(BUFFER_SIZE, FFT_SIZE).unwrap();
    assert_eq!(analyzer.buffer_size(), 256);
    assert_eq!(analyzer.fft_size(), 4096);
    assert_eq!(analyzer.padding(), 3840);
    assert_eq!(analyzer.spectrum_len(), 2049);
}

#[test]
fn window_longer_than_transform_is_refused() {
    assert_eq!(
        SpectralAnalyzer::new(4097, 4096).err(),
        Some(ConfigError::WindowExceedsTransform)
    );
    assert_eq!(
        SpectralAnalyzer::new(1, 0).err(),
        Some(ConfigError::WindowExceedsTransform)
    );
}

#[test]
fn window_as_long_as_transform_is_accepted() {
    let analyzer = SpectralAnalyzer::new(4096, 4096).unwrap();
    assert_eq!(analyzer.padding(), 0);
    let empty = SpectralAnalyzer::new(0, 0).unwrap();
    assert_eq!(empty.spectrum_len(), 1);
}

#[test]
fn odd_transform_length_keeps_the_lower_half_and_one() {
    let analyzer = SpectralAnalyzer::new(3, 9).unwrap();
    assert_eq!(analyzer.spectrum_len(), 5);
}

#[test]
fn no_window_until_enough_samples_wait() {
    let analyzer = SpectralAnalyzer::new(4, 16).unwrap();
    let mut channel = SampleChannel::new(32);
    for s in 0..3u32 {
        assert!(channel.push(s));
    }
    assert!(!analyzer.ready(&channel));
    assert_eq!(analyzer.take_window(&mut channel), None);
    assert_eq!(channel.len(), 3);
}

#[test]
fn window_is_the_oldest_samples_in_order() {
    let analyzer = SpectralAnalyzer::new(4, 16).unwrap();
    let mut channel = SampleChannel::new(32);
    for s in 100..110u32 {
        assert!(channel.push(s));
    }
    assert!(analyzer.ready(&channel));
    assert_eq!(analyzer.take_window(&mut channel), Some(vec![100, 101, 102, 103]));
    assert_eq!(channel.len(), 6);
    assert_eq!(analyzer.take_window(&mut channel), Some(vec![104, 105, 106, 107]));
    assert_eq!(analyzer.take_window(&mut channel), None);
    assert_eq!(channel.pop_batch(8), vec![108, 109]);
}

#[test]
fn zero_pad_fills_up_to_the_transform_length() {
    let analyzer = SpectralAnalyzer::new(3, 8).unwrap();
    assert_eq!(analyzer.zero_pad(vec![1, 2, 3]), vec![1, 2, 3, 0, 0, 0, 0, 0]);
    assert_eq!(analyzer.zero_pad(Vec::new()), vec![0; 8]);
}

#[test]
fn zero_pad_leaves_a_full_input_alone() {
    let analyzer = SpectralAnalyzer::new(2, 2).unwrap();
    assert_eq!(analyzer.zero_pad(vec![5, 6]), vec![5, 6]);
    assert_eq!(analyzer.zero_pad(vec![5, 6, 7]), vec![5, 6, 7]);
}

#[test]
fn zero_sample_is_positive_zero() {
    let analyzer = SpectralAnalyzer::new(0, 1).unwrap();
    let padded = analyzer.zero_pad(Vec::new());
    assert_eq!(padded.len(), 1);
    assert_eq!(f32::from_bits(padded[0]), 0.0);
    assert!(f32::from_bits(padded[0]).is_sign_positive());
}

#[test]
fn frame_keeps_the_lower_half_and_raises_to_the_floor() {
    let analyzer = SpectralAnalyzer::new(2, 8).unwrap();
    let levels = vec![-3_000, -95_000, -90_000, 1_500, -200_000, -1, -2, -3];
    let frame = analyzer.frame(&levels).unwrap();
    assert_eq!(frame.len(), 5);
    assert_eq!(frame.levels(), vec![-3_000, -90_000, -90_000, 1_500, -90_000]);
}

#[test]
fn frame_needs_a_level_for_every_bin() {
    let analyzer = SpectralAnalyzer::new(2, 8).unwrap();
    assert!(analyzer.frame(&vec![0, 0, 0, 0]).is_none());
    assert!(analyzer.frame(&vec![0, 0, 0, 0, 0]).is_some());
}
