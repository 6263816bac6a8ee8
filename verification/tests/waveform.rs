use sound_analysis::waveform::{Aggregator, WaveformBatch};

#[derive(Debug, Clone, Copy, PartialEq)]
struct Bin {
    min: f32,
    max: f32,
    rms: f32,
}

fn mix(frame: &[f32]) -> f32 {
    frame.iter().sum::<f32>() / frame.len() as f32
}

fn summarize(window: &[f32]) -> Bin {
    let mut min = window[0];
    let mut max = window[0];
    let mut sum_sq = 0.0f64;
    for &s in window {
        min = min.min(s);
        max = max.max(s);
        sum_sq += f64::from(s) * f64::from(s);
    }
    Bin {
        min,
        max,
        rms: (sum_sq / window.len() as f64).sqrt() as f32,
    }
}

fn agg() -> Aggregator<f32, Bin> {
    Aggregator::new(4, 2, "Test".into(), 44100, 10)
}

fn push(a: &mut Aggregator<f32, Bin>, samples: &[f32], channels: u16) -> Option<WaveformBatch<Bin>> {
    a.push(samples, channels, &mix, &summarize)
}

#[test]
fn bin_math_min_max_rms() {
    let mut a = agg();
    assert!(push(&mut a, &[1.0, -0.5, 0.0, 0.5], 1).is_none());
    assert_eq!(a.bins().len(), 1);
    let b = a.bins()[0];
    assert!((b.min - (-0.5)).abs() < 1e-6);
    assert!((b.max - 1.0).abs() < 1e-6);
    assert!((b.rms - 0.612_372_4).abs() < 1e-5);
}

#[test]
fn batch_produced_when_full() {
    let mut a = agg();
    assert!(push(&mut a, &[1.0, -0.5, 0.0, 0.5], 1).is_none());
    let batch = push(&mut a, &[0.0, 0.0, 0.0, 0.0], 1).expect("凑满一批");
    assert_eq!(batch.bins.len(), 2);
    assert_eq!(batch.device, "Test");
    assert_eq!(batch.sample_rate, 44100);
    assert_eq!(batch.window_ms, 10);
    assert_eq!(batch.duration_ms, 20);
    assert!(push(&mut a, &[0.0, 0.0, 0.0, 0.0], 1).is_none());
}

#[test]
fn multi_channel_mixed_to_mono() {
    let mut a = agg();
    let batch = push(
        &mut a,
        &[1.0, -1.0, 1.0, -1.0, 1.0, -1.0, 1.0, -1.0, 0.0, 0.0, 0.0, 0.0, 0.0, 0.0, 0.0, 0.0],
        2,
    )
    .expect("凑满一批");
    assert_eq!(batch.bins.len(), 2);
    for b in &batch.bins {
        assert!((b.min - 0.0).abs() < 1e-6);
        assert!((b.max - 0.0).abs() < 1e-6);
    }
}

#[test]
fn window_spanning_across_pushes() {
    let mut a = agg();
    assert!(push(&mut a, &[1.0, -0.5], 1).is_none());
    assert!(push(&mut a, &[0.0, 0.5], 1).is_none());
    assert_eq!(a.bins().len(), 1);
    assert!(a.pending_len() == 0, "窗口完成后 pending 应清空");
}

#[test]
fn partial_window_accumulates_pending() {
    let mut a = agg();
    push(&mut a, &[0.0, 0.0, 0.0, 0.0, 1.0], 1);
    assert_eq!(a.bins().len(), 1);
    assert_eq!(a.pending_len(), 1);
    let batch = push(&mut a, &[0.0, 0.0, 0.0], 1).expect("凑满一批");
    assert_eq!(batch.bins.len(), 2);
    assert_eq!(batch.bins[1].max, 1.0);
    assert_eq!(batch.bins[1].min, 0.0);
}

#[test]
fn silence_has_zero_rms() {
    let mut a = agg();
    let batch = push(&mut a, &[0.0, 0.0, 0.0, 0.0, 0.0, 0.0, 0.0, 0.0], 1).expect("凑满一批");
    for b in &batch.bins {
        assert_eq!(b.rms, 0.0);
        assert_eq!(b.min, 0.0);
        assert_eq!(b.max, 0.0);
    }
}

// Integer samples make the windows themselves visible: each bin is the
// whole window, each mono sample the sum of its frame.

fn sum_frame(frame: &[i64]) -> i64 {
    frame.iter().sum()
}

fn keep_window(window: &[i64]) -> Vec<i64> {
    window.to_vec()
}

#[test]
fn windows_hold_consecutive_mono_samples() {
    let mut a: Aggregator<i64, Vec<i64>> = Aggregator::new(3, 10, "Dev".into(), 8000, 5);
    assert!(a.push(&[1, 2, 3, 4, 5, 6, 7], 1, &sum_frame, &keep_window).is_none());
    assert_eq!(a.bins(), &[vec![1, 2, 3], vec![4, 5, 6]][..]);
    assert_eq!(a.pending_len(), 1);
    assert!(a.push(&[8, 9], 1, &sum_frame, &keep_window).is_none());
    assert_eq!(a.bins().len(), 3);
    assert_eq!(a.bins()[2], vec![7, 8, 9]);
    assert_eq!(a.pending_len(), 0);
}

#[test]
fn trailing_partial_frame_is_dropped() {
    let mut a: Aggregator<i64, Vec<i64>> = Aggregator::new(2, 10, "Dev".into(), 8000, 5);
    // Three channels, seven samples: two whole frames, one sample dropped.
    assert!(a.push(&[1, 1, 1, 2, 2, 2, 9], 3, &sum_frame, &keep_window).is_none());
    assert_eq!(a.bins(), &[vec![3, 6]][..]);
    assert_eq!(a.pending_len(), 0);
}

#[test]
fn zero_channels_count_as_one() {
    let mut a: Aggregator<i64, Vec<i64>> = Aggregator::new(2, 10, "Dev".into(), 8000, 5);
    assert!(a.push(&[4, 5, 6], 0, &sum_frame, &keep_window).is_none());
    assert_eq!(a.bins(), &[vec![4, 5]][..]);
    assert_eq!(a.pending_len(), 1);
}

#[test]
fn zero_frame_window_closes_every_frame() {
    let mut a: Aggregator<i64, Vec<i64>> = Aggregator::new(0, 10, "Dev".into(), 8000, 5);
    assert!(a.push(&[4, 5], 1, &sum_frame, &keep_window).is_none());
    assert_eq!(a.bins(), &[vec![4], vec![5]][..]);
}

#[test]
fn batch_takes_every_bin_closed_in_one_push() {
    let mut a: Aggregator<i64, Vec<i64>> = Aggregator::new(1, 2, "Dev".into(), 8000, 7);
    let batch = a.push(&[1, 2, 3, 4, 5], 1, &sum_frame, &keep_window).expect("full");
    assert_eq!(batch.bins.len(), 5);
    assert_eq!(batch.duration_ms, 35);
    assert_eq!(batch.device, "Dev");
    assert_eq!(batch.sample_rate, 8000);
    assert_eq!(batch.window_ms, 7);
    assert!(a.bins().is_empty());
}

#[test]
fn zero_bin_batch_is_cut_on_every_push() {
    let mut a: Aggregator<i64, Vec<i64>> = Aggregator::new(4, 0, "Dev".into(), 8000, 7);
    let batch = a.push(&[1], 1, &sum_frame, &keep_window).expect("cut");
    assert!(batch.bins.is_empty());
    assert_eq!(batch.duration_ms, 0);
    assert_eq!(a.pending_len(), 1);
}

#[test]
fn split_pushes_match_one_push() {
    let samples: Vec<i64> = (1..=11).collect();
    let mut whole: Aggregator<i64, Vec<i64>> = Aggregator::new(3, 100, "Dev".into(), 8000, 5);
    whole.push(&samples, 1, &sum_frame, &keep_window);
    let mut split: Aggregator<i64, Vec<i64>> = Aggregator::new(3, 100, "Dev".into(), 8000, 5);
    split.push(&samples[..4], 1, &sum_frame, &keep_window);
    split.push(&samples[4..], 1, &sum_frame, &keep_window);
    assert_eq!(whole.bins(), split.bins());
    assert_eq!(whole.pending_len(), split.pending_len());
    assert_eq!(whole.pending_len(), 2);
}

#[test]
fn premixed_mono_pushes_like_interleaved() {
    // Two channels, one trailing partial frame that is dropped.
    let interleaved: Vec<i64> = vec![1, 2, 3, 4, 5, 6, 7, 8, 9];
    let mono: Vec<i64> = vec![3, 7, 11, 15];
    let mut a: Aggregator<i64, Vec<i64>> = Aggregator::new(3, 1, "Dev".into(), 8000, 5);
    let mut b: Aggregator<i64, Vec<i64>> = Aggregator::new(3, 1, "Dev".into(), 8000, 5);
    let ra = a.push(&interleaved, 2, &sum_frame, &keep_window).expect("full");
    let rb = b.push(&mono, 1, &sum_frame, &keep_window).expect("full");
    assert_eq!(ra.bins, rb.bins);
    assert_eq!(ra.bins, vec![vec![3, 7, 11]]);
    assert_eq!(ra.duration_ms, rb.duration_ms);
    assert_eq!(a.pending_len(), b.pending_len());
    assert_eq!(a.pending_len(), 1);
}
