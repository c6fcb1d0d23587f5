//! Feeds a pure sine tone through the same windowed-FFT chain the
//! runner uses and checks that the published frame peaks in the band
//! containing the tone.

use dasp_window::Window;
use rustfft::num_complex::Complex;
use rustfft::FftPlanner;
use turbo_audio::audio_processing::{sample_channel, AudioSignalProcessor, FFT_SIZE, SAMPLE_RATE};

/// Scale between f32 samples in [-1, 1] and the analyzer's fixed-point
/// samples.
const SAMPLE_SCALE: f32 = 32768.0;

/// Scale between f32 magnitudes and the frame's fixed-point bins.
const BIN_SCALE: f32 = 1000.0;

/// The windowed forward transform, as the runner performs it: Hann
/// window, forward FFT, squared magnitude over the square root of the
/// window size, scaled into fixed-point bins.
fn transform(window: &[i32]) -> Vec<u32> {
    let mut buffer: Vec<Complex<f32>> = window
        .iter()
        .enumerate()
        .map(|(index, value)| {
            let hann = dasp_window::Hanning::window(index as f32 / (FFT_SIZE as f32 - 1.0));
            Complex {
                re: (*value as f32 / SAMPLE_SCALE) * hann,
                im: 0.0,
            }
        })
        .collect();
    let mut planner = FftPlanner::new();
    let fft = planner.plan_fft_forward(FFT_SIZE);
    fft.process(&mut buffer);
    buffer
        .iter()
        .map(|bin| {
            let mag = bin.norm_sqr() / (FFT_SIZE as f32).sqrt();
            let scaled = mag * BIN_SCALE;
            if scaled >= u32::MAX as f32 {
                u32::MAX
            } else {
                scaled as u32
            }
        })
        .collect()
}

#[test]
fn sine_tone_peaks_in_its_own_band() {
    let tone_hz = 1000.0f32;
    let (mut tx, rx) = sample_channel(2 * FFT_SIZE);
    let mut proc = AudioSignalProcessor::new(rx);
    let mut samples: Vec<i32> = Vec::new();
    for n in 0..FFT_SIZE {
        let t = n as f32 / SAMPLE_RATE as f32;
        let v = (2.0 * std::f32::consts::PI * tone_hz * t).sin();
        samples.push((v * 0.8 * SAMPLE_SCALE) as i32);
    }
    assert_eq!(tx.push_samples(&samples), FFT_SIZE);
    assert_eq!(proc.ingest(), FFT_SIZE);
    let bins = transform(&proc.window_contents());
    proc.publish_frame(bins);

    let near = proc
        .fft_result
        .get_frequency_interval_average_amplitude(&900, &1100)
        .unwrap();
    let far = proc
        .fft_result
        .get_frequency_interval_average_amplitude(&5000, &5200)
        .unwrap();
    assert!(near > far, "band near the tone ({near}) should beat a distant band ({far})");

    // The coarse estimator agrees.
    let near_coarse = proc.fft_result.get_frequency_interval_average(900, 1100);
    let far_coarse = proc.fft_result.get_frequency_interval_average(5000, 5200);
    assert!(near_coarse > far_coarse);
}
