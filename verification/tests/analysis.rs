//! Tests of the spectral analyzer: band queries, the coarse estimator,
//! and the sample history.

use turbo_audio::audio_processing::{sample_channel, AudioSignalProcessor, FftResult, FFT_SIZE};

fn constant_frame(value: u32) -> FftResult {
    let mut bins = Vec::new();
    for _ in 0..FFT_SIZE {
        bins.push(value);
    }
    FftResult::new(bins)
}

#[test]
fn degenerate_interval_yields_zero() {
    let fr = constant_frame(7);
    assert_eq!(fr.get_frequency_interval_average_amplitude(&5, &5), Some(0));
    assert_eq!(fr.get_frequency_interval_average_amplitude(&10, &3), Some(0));
}

#[test]
fn empty_frame_queries_yield_zero() {
    let fr = FftResult::new(Vec::new());
    assert_eq!(fr.get_low_frequency_amplitude(), 0);
    assert_eq!(fr.get_mid_frequency_amplitude(), 0);
    assert_eq!(fr.get_high_frequency_amplitude(), 0);
    assert_eq!(fr.get_frequency_interval_average(0, 1000), 0);
}

#[test]
fn constant_bins_give_constant_band_amplitude() {
    // With every bin at 1000, interpolation gives 1000 bin units at any
    // frequency, i.e. 1_000_000 milli-units.
    let fr = constant_frame(1000);
    assert_eq!(fr.get_low_frequency_amplitude(), 1_000_000);
    assert_eq!(fr.get_mid_frequency_amplitude(), 1_000_000);
    assert_eq!(fr.get_high_frequency_amplitude(), 1_000_000);
}

#[test]
fn interpolated_amplitude_exact_value() {
    // Bins 0 and 1 hold 0 and 4800.  At 10 Hz the precise index is
    // 10*1024/48000, so the interpolated value over [10, 11) is
    // (0*(48000-10240) + 4800*10240) * 1000 / 48000 = 1_024_000.
    let mut bins = vec![0u32; FFT_SIZE];
    bins[1] = 4800;
    let fr = FftResult::new(bins);
    let got = fr.get_frequency_interval_average_amplitude(&10, &11).unwrap();
    assert_eq!(got, 1_024_000);
}

#[test]
fn queries_beyond_the_last_bin_degrade_to_zero() {
    let fr = constant_frame(500);
    // 40_000 Hz maps past bin 853; 100_000 Hz maps past the array.
    let got = fr
        .get_frequency_interval_average_amplitude(&100_000, &100_010)
        .unwrap();
    assert_eq!(got, 0);
}

#[test]
fn range_average_zero_when_indices_collapse() {
    let fr = constant_frame(123);
    // Same bound twice: both resolve to the same bin index.
    assert_eq!(fr.get_frequency_interval_average(100, 100), 0);
    // An interval narrower than one bin (resolution is 46.875 Hz).
    assert_eq!(fr.get_frequency_interval_average(0, 40), 0);
}

#[test]
fn range_average_exact_values() {
    let fr = FftResult::new(vec![10, 20, 30, 40]);
    // low 0 -> index 0; high huge -> clamped to index 3; the mean of
    // the four bins in the closed range is (10+20+30+40)/4.
    assert_eq!(fr.get_frequency_interval_average(0, 1_000_000), 25);
    // low 0 -> index 0; high 94 Hz -> index 2; (10+20+30)/3 = 20.
    assert_eq!(fr.get_frequency_interval_average(0, 94), 20);
}

#[test]
fn history_holds_exactly_one_window_of_samples() {
    let (mut tx, rx) = sample_channel(4096);
    let mut proc = AudioSignalProcessor::new(rx);
    assert_eq!(proc.window_contents().len(), FFT_SIZE);

    // Draining an empty queue keeps the zeroed window.
    assert_eq!(proc.ingest(), 0);
    let w = proc.window_contents();
    assert_eq!(w.len(), FFT_SIZE);
    assert!(w.iter().all(|s| *s == 0));

    // A short drain shifts in at the end.
    assert_eq!(tx.push_samples(&vec![1, 2, 3]), 3);
    assert_eq!(proc.ingest(), 3);
    let w = proc.window_contents();
    assert_eq!(w.len(), FFT_SIZE);
    assert_eq!(&w[FFT_SIZE - 3..], &[1, 2, 3]);
    assert!(w[..FFT_SIZE - 3].iter().all(|s| *s == 0));

    // More queued samples than one window: a drain takes at most a
    // window's worth, and the buffer keeps only the newest window.
    let mut many = Vec::new();
    for i in 0..2000i32 {
        many.push(i);
    }
    assert_eq!(tx.push_samples(&many), 2000);
    assert_eq!(proc.ingest(), FFT_SIZE);
    assert_eq!(proc.ingest(), 2000 - FFT_SIZE);
    let w = proc.window_contents();
    assert_eq!(w.len(), FFT_SIZE);
    assert_eq!(w[0], 2000 - FFT_SIZE as i32);
    assert_eq!(w[FFT_SIZE - 1], 1999);
}

#[test]
fn absorbing_a_drained_batch_shifts_the_window() {
    let (_tx, rx) = sample_channel(16);
    let mut proc = AudioSignalProcessor::new(rx);
    assert_eq!(proc.absorb_samples(&vec![7, 8]), 2);
    let w = proc.window_contents();
    assert_eq!(&w[FFT_SIZE - 2..], &[7, 8]);
    assert!(w[..FFT_SIZE - 2].iter().all(|s| *s == 0));
}

#[test]
fn publish_frame_replaces_the_snapshot() {
    let (_tx, rx) = sample_channel(16);
    let mut proc = AudioSignalProcessor::new(rx);
    assert_eq!(proc.fft_result.raw_bins.len(), 0);
    proc.publish_frame(vec![5, 6, 7]);
    assert_eq!(proc.fft_result.raw_bins, vec![5, 6, 7]);
    proc.publish_frame(vec![9]);
    assert_eq!(proc.fft_result.raw_bins, vec![9]);
}
