use dasp_rs::decompose::{check_decompose, nmf_seed_value};
use dasp_rs::effects::{nearest_zero_crossing, remix, rms_frame_count, split_intervals, trim};
use dasp_rs::errors::{AudioError, DecomposeError, GeneratorError, HarmonicsError, MfccError, ScalingError, SequenceError, TimeDomainError};
use dasp_rs::harmonics::check_harmonic_inputs;
use dasp_rs::generators::{click_track, clicks_from_frames, max_value};
use dasp_rs::kinds::{Aggregate, Window};
use dasp_rs::manipulation::{check_delta_shape, delta_params, delta_taps, stack_memory};
use dasp_rs::rhythm::{beat_backtrack, beat_sync_bounds, beat_window, filter_by_wait, BeatLinks};
use dasp_rs::scaling::{
    check_frequency_rows, check_spectrogram_size, check_weighting_request, parse_weighting_kind, WeightingKind,
};
use dasp_rs::segment::{
    diagonal_window, label_change_points, merge_adjacent, segment_boundaries, segment_labels, sorted_unique,
    subsegment_boundaries, unit_segments, Partition,
};
use dasp_rs::sequence::{
    check_binary_viterbi, check_discriminative, check_dtw_shapes, check_viterbi_shapes, dtw_path,
    local_band, viterbi_backtrack, DtwStep,
};
use dasp_rs::time_domain::{autocorrelate_lags, check_lpc_order, log_energy_frames, zero_crossings};

#[test]
fn test_stack_memory() {
    let data = vec![vec![1.0f32, 2.0, 3.0], vec![4.0, 5.0, 6.0]];
    let result = stack_memory(&data, 3, Some(2), Some(1));
    let expected = vec![
        vec![1.0, 2.0, 3.0],
        vec![4.0, 5.0, 6.0],
        vec![1.0, 1.0, 2.0],
        vec![4.0, 4.0, 5.0],
    ];
    assert_eq!(result, expected);
}

#[test]
fn stack_memory_defaults_and_longer_delay() {
    let data = vec![vec![1, 2, 3, 4]];
    assert_eq!(stack_memory(&data, 4, None, None), vec![vec![1, 2, 3, 4], vec![1, 1, 2, 3]]);
    assert_eq!(
        stack_memory(&data, 4, Some(3), Some(2)),
        vec![vec![1, 2, 3, 4], vec![1, 1, 1, 2], vec![1, 1, 1, 1]]
    );
}

#[test]
fn delta_width_must_be_odd() {
    assert!(matches!(delta_params(Some(2), None), Err(MfccError::InvalidInput(_))));
    assert!(matches!(delta_params(Some(0), None), Err(MfccError::InvalidInput(_))));
    assert_eq!(delta_params(None, None).unwrap(), (9, true));
    assert_eq!(delta_params(Some(3), Some(0)).unwrap(), (3, false));
}

#[test]
fn delta_shape_checks() {
    assert!(matches!(check_delta_shape(1, 0, 3), Err(MfccError::InvalidDimensions(_))));
    match check_delta_shape(2, 2, 5) {
        Err(MfccError::InvalidDimensions(m)) => assert_eq!(m, "Time axis length 2 less than width 5"),
        other => panic!("unexpected {:?}", other),
    }
    assert!(check_delta_shape(2, 5, 5).is_ok());
    // A one-frame window has a zero normalisation.
    match check_delta_shape(2, 5, 1) {
        Err(MfccError::ComputationFailed(m)) => assert_eq!(m, "Normalization factor is zero"),
        other => panic!("unexpected {:?}", other),
    }
    // The shape checks come first.
    assert!(matches!(check_delta_shape(0, 5, 1), Err(MfccError::InvalidDimensions(_))));
}

#[test]
fn delta_taps_are_clamped() {
    assert_eq!(delta_taps(0, 2, 5), vec![0, 0, 0, 1, 2]);
    assert_eq!(delta_taps(4, 2, 5), vec![2, 3, 4, 4, 4]);
    assert_eq!(delta_taps(0, 0, 1), vec![0]);
}

#[test]
fn clicks_from_times_and_frames() {
    let sr: u32 = 1000;
    let times = [0.0f32, 0.001];
    let idx: Vec<usize> = times.iter().map(|&t| (t * sr as f32) as usize).collect();
    let len = idx.iter().copied().max().unwrap() + 1;
    let signal = click_track(&idx, len, 0.0f32, 1.0);
    assert_eq!(signal.len(), 2);
    assert_eq!(signal, vec![1.0, 1.0]);

    let frames = clicks_from_frames(&[0, 2], Some(2), 0.0f32, 1.0).unwrap();
    assert_eq!(frames.len(), 5);
    assert!((frames[0] - 1.0).abs() < f32::EPSILON);
    assert!((frames[4] - 1.0).abs() < f32::EPSILON);
    assert!(frames[1].abs() < f32::EPSILON);
    assert!(frames[2].abs() < f32::EPSILON);
    assert!(frames[3].abs() < f32::EPSILON);
}

#[test]
fn clicks_reject_empty_frames() {
    match clicks_from_frames(&[], None, 0.0f32, 1.0) {
        Err(GeneratorError::InvalidInput(m)) => assert_eq!(m, "Frames array cannot be empty"),
        other => panic!("unexpected {:?}", other),
    }
}

#[test]
fn clicks_default_hop_and_ignored_indices() {
    let v = clicks_from_frames(&[1], None, 0u8, 1).unwrap();
    assert_eq!(v.len(), 513);
    assert_eq!(v[512], 1);
    assert_eq!(v.iter().filter(|&&x| x == 1).count(), 1);
    assert_eq!(click_track(&[1, 7], 3, 0, 9), vec![0, 9, 0]);
    assert_eq!(max_value(&[]), 0);
    assert_eq!(max_value(&[3, 9, 2]), 9);
}

#[test]
fn wait_filter_spaces_peaks() {
    assert_eq!(filter_by_wait(&[1, 2, 5, 6, 10], 3), vec![1, 5, 10]);
    assert_eq!(filter_by_wait(&[1, 2, 5, 6, 10], 1), vec![1, 2, 5, 6, 10]);
    assert_eq!(filter_by_wait(&[], 4), Vec::<usize>::new());
}

#[test]
fn beats_follow_back_links() {
    let backlink = [0, 0, 0, 1, 2, 3, 4, 4];
    assert_eq!(beat_backtrack(&backlink, 7), vec![0, 2, 4, 7]);
    assert_eq!(beat_backtrack(&backlink, 0), vec![0]);
    assert_eq!(beat_backtrack(&[0, 1, 1], 2), vec![1, 2]);
}

#[test]
fn beat_sync_bounds_with_pad() {
    let bounds = beat_sync_bounds(&[3, 7], 10, true);
    assert_eq!(bounds, vec![0, 3, 7, 10]);
    assert_eq!(bounds.len() - 1, 3);
}

#[test]
fn beat_sync_bounds_without_pad() {
    let bounds = beat_sync_bounds(&[2, 5, 8], 10, false);
    assert_eq!(bounds, vec![2, 5, 8]);
    assert_eq!(bounds.len() - 1, 2);
    assert_eq!(beat_sync_bounds(&[0, 12, 15], 10, true), vec![0, 10]);
}

#[test]
fn boundaries_sorted_and_unique() {
    assert_eq!(sorted_unique(&[3, 1, 3, 2]), vec![1, 2, 3]);
    assert_eq!(segment_boundaries(&[5, 2, 12, 2], 10), vec![0, 2, 5, 10]);
    assert_eq!(segment_boundaries(&[], 4), vec![0, 4]);
}

#[test]
fn label_changes_are_found() {
    assert_eq!(label_change_points(&[0, 0, 1, 1, 2], 0), vec![2, 4]);
    assert_eq!(label_change_points(&[0, 0, 1, 1, 2], 10), vec![12, 14]);
    assert_eq!(label_change_points(&[], 3), Vec::<usize>::new());
}

#[test]
fn merging_segments_relabels_frames() {
    let mut segs = unit_segments(3);
    assert_eq!(segs, vec![(0, 1), (1, 2), (2, 3)]);
    merge_adjacent(&mut segs, 1);
    assert_eq!(segs, vec![(0, 1), (1, 3)]);
    assert_eq!(segment_labels(&segs, 3), vec![0, 1, 1]);
    merge_adjacent(&mut segs, 0);
    assert_eq!(segs, vec![(0, 3)]);
    assert_eq!(segment_labels(&segs, 3), vec![0, 0, 0]);
}

#[test]
fn dtw_path_follows_steps() {
    let diag = vec![vec![DtwStep::Diagonal; 3]; 3];
    assert_eq!(dtw_path(3, 3, &diag), vec![(0, 0), (1, 1), (2, 2)]);
    let mut steps = vec![vec![DtwStep::Diagonal; 3]; 3];
    steps[2][2] = DtwStep::Up;
    steps[1][2] = DtwStep::Left;
    assert_eq!(dtw_path(3, 3, &steps), vec![(0, 0), (1, 1), (1, 2), (2, 2)]);
    let row = vec![vec![DtwStep::Diagonal; 3]];
    assert_eq!(dtw_path(1, 3, &row), vec![(0, 0), (0, 1), (0, 2)]);
}

#[test]
fn dtw_shape_errors() {
    match check_dtw_shapes(0, 3, 2, 2) {
        Err(SequenceError::InvalidInput(m)) => assert_eq!(m, "Input sequence has zero frames"),
        other => panic!("unexpected {:?}", other),
    }
    match check_dtw_shapes(3, 3, 2, 4) {
        Err(SequenceError::InvalidInput(m)) => assert_eq!(m, "Feature dimension mismatch: x=2, y=4"),
        other => panic!("unexpected {:?}", other),
    }
    assert!(check_dtw_shapes(3, 4, 2, 2).is_ok());
}

#[test]
fn viterbi_backtracking() {
    let psi = vec![vec![0, 0], vec![1, 0], vec![0, 0]];
    assert_eq!(viterbi_backtrack(&psi, 2, 1), vec![1, 0, 1]);
    assert_eq!(viterbi_backtrack(&vec![vec![0, 0, 0]], 3, 2), vec![2]);
}

#[test]
fn viterbi_shape_errors() {
    match check_viterbi_shapes(2, 0, 2, 2) {
        Err(SequenceError::InvalidInput(m)) => assert_eq!(m, "Empty input"),
        other => panic!("unexpected {:?}", other),
    }
    match check_viterbi_shapes(3, 5, 2, 3) {
        Err(SequenceError::InvalidInput(m)) => assert_eq!(m, "log_trans shape [2, 3] does not match n_states=3"),
        other => panic!("unexpected {:?}", other),
    }
    assert!(check_viterbi_shapes(3, 5, 3, 3).is_ok());
}

#[test]
fn local_band_ranges() {
    assert_eq!(local_band(5, 1, 2), (1, 4));
    assert_eq!(local_band(5, 1, 0), (0, 2));
    assert_eq!(local_band(5, 10, 4), (0, 5));
}

#[test]
fn trim_keeps_loud_part() {
    let y: Vec<i32> = (0..12).collect();
    let (kept, range) = trim(&y, &[false, true, true, false, false], 4, 2);
    assert_eq!(range, (2, 10));
    assert_eq!(kept, (2..10).collect::<Vec<i32>>());
    let (all, range2) = trim(&y, &[false, false], 4, 2);
    assert_eq!(range2, (0, 8));
    assert_eq!(all.len(), 8);
    assert_eq!(rms_frame_count(12, 4, 2), 5);
    assert_eq!(rms_frame_count(0, 4, 2), 0);
}

#[test]
fn split_finds_loud_intervals() {
    assert_eq!(split_intervals(&[false, true, true, false, true], 4, 2, 12), vec![(2, 10), (8, 12)]);
    assert_eq!(split_intervals(&[false, false], 4, 2, 12), Vec::<(usize, usize)>::new());
}

#[test]
fn zero_crossing_search_and_remix() {
    let nonneg = [true, true, false, false, true, true];
    assert_eq!(nearest_zero_crossing(&nonneg, 3), 3);
    assert_eq!(nearest_zero_crossing(&nonneg, 2), 1);
    assert_eq!(nearest_zero_crossing(&nonneg, 0), 0);
    assert_eq!(nearest_zero_crossing(&nonneg, 9), 9);
    let y = [10, 20, 30, 40, 50];
    assert_eq!(remix(&y, &[(3, 5), (0, 2)], false, &[true; 5]), vec![40, 50, 10, 20]);
    assert_eq!(remix(&y, &[(4, 2), (3, 9)], false, &[true; 5]), vec![40, 50]);
}

#[test]
fn crossings_are_reported() {
    assert_eq!(zero_crossings(&[true, true, false, true], false).unwrap(), vec![2, 3]);
    assert_eq!(zero_crossings(&[true, true], true).unwrap(), vec![0]);
    assert_eq!(zero_crossings(&[true, true], false).unwrap(), Vec::<usize>::new());
    assert!(matches!(zero_crossings(&[], false), Err(TimeDomainError::InvalidLength(_))));
}

#[test]
fn lag_and_order_checks() {
    assert_eq!(autocorrelate_lags(10, None).unwrap(), 10);
    assert_eq!(autocorrelate_lags(10, Some(3)).unwrap(), 3);
    match autocorrelate_lags(10, Some(11)) {
        Err(TimeDomainError::InvalidTime(m)) => assert_eq!(m, "Max lag 11 exceeds signal length 10"),
        other => panic!("unexpected {:?}", other),
    }
    assert!(matches!(autocorrelate_lags(0, None), Err(TimeDomainError::InvalidLength(_))));
    assert!(matches!(check_lpc_order(3, 3), Err(TimeDomainError::Audio(AudioError::InvalidRange))));
    assert!(check_lpc_order(4, 3).is_ok());
}

#[test]
fn log_energy_framing() {
    assert_eq!(log_energy_frames(4096, None, None).unwrap(), (2048, 512, 5));
    match log_energy_frames(100, Some(200), None) {
        Err(TimeDomainError::InvalidTime(m)) => assert_eq!(m, "Frame length 200 exceeds signal length 100"),
        other => panic!("unexpected {:?}", other),
    }
    assert!(matches!(log_energy_frames(100, Some(2), None), Err(TimeDomainError::InvalidTime(_))));
    assert!(matches!(log_energy_frames(100, Some(0), None), Err(TimeDomainError::InvalidTime(_))));
    assert!(matches!(log_energy_frames(0, None, None), Err(TimeDomainError::InvalidLength(_))));
}

#[test]
fn kind_defaults() {
    assert_eq!(Window::default(), Window::Hann);
    assert_eq!(Aggregate::default(), Aggregate::Mean);
}

#[test]
fn partition_merges_keep_cover() {
    let mut p = Partition::singletons(4);
    assert_eq!(p.len(), 4);
    p.merge(2);
    assert_eq!(p.len(), 3);
    assert_eq!(p.segment(2), (2, 4));
    p.merge(0);
    assert_eq!(p.segment(0), (0, 2));
    assert_eq!(p.labels(), vec![0, 0, 1, 1]);
}

#[test]
fn harmonic_input_checks() {
    let names = ["amplitudes", "frequencies"];
    assert!(matches!(
        check_harmonic_inputs(&[2, 3], &names, None, None, true),
        Err(HarmonicsError::LengthMismatch(2, 3))
    ));
    assert!(check_harmonic_inputs(&[2, 3], &names, None, None, false).is_ok());
    match check_harmonic_inputs(&[0, 1, 0], &["amplitudes", "f0", "frequencies"], None, None, false) {
        Err(HarmonicsError::InvalidInput(m)) => assert_eq!(m, "amplitudes array is empty"),
        other => panic!("unexpected {:?}", other),
    }
    match check_harmonic_inputs(&[4], &["frequencies"], Some((4, 0)), None, true) {
        Err(HarmonicsError::InvalidInput(m)) => assert_eq!(m, "Spectrogram is empty"),
        other => panic!("unexpected {:?}", other),
    }
    match check_harmonic_inputs(&[], &[], None, Some((0, 3)), false) {
        Err(HarmonicsError::InvalidInput(m)) => assert_eq!(m, "Complex spectrogram is empty"),
        other => panic!("unexpected {:?}", other),
    }
    assert!(check_harmonic_inputs(&[3, 3, 3], &["a", "b", "c"], Some((2, 2)), None, true).is_ok());
}

#[test]
fn test_frequency_weighting_invalid_kind() {
    match parse_weighting_kind(Some("X")) {
        Err(ScalingError::InvalidInput(m)) => assert_eq!(m, "Unknown weighting kind: X"),
        other => panic!("unexpected {:?}", other),
    }
}

#[test]
fn weighting_kind_names() {
    assert_eq!(parse_weighting_kind(None).unwrap(), WeightingKind::A);
    assert_eq!(parse_weighting_kind(Some("B")).unwrap(), WeightingKind::B);
    assert_eq!(parse_weighting_kind(Some("C")).unwrap(), WeightingKind::C);
    assert_eq!(parse_weighting_kind(Some("D")).unwrap(), WeightingKind::D);
    assert!(parse_weighting_kind(Some("a")).is_err());
}

#[test]
fn test_multi_frequency_weighting_empty() {
    assert!(check_weighting_request(0, 2).is_err());
    assert!(check_weighting_request(1, 0).is_err());
    assert!(check_weighting_request(1, 2).is_ok());
}

#[test]
fn trim_keeps_every_loud_frame_start() {
    let y: Vec<u8> = vec![0; 40];
    let active = [false, true, false, false, true, false];
    let (_, (start, end)) = trim(&y, &active, 8, 5);
    for (k, &a) in active.iter().enumerate() {
        if a && k * 5 < y.len() {
            assert!(start <= k * 5 && k * 5 < end);
        }
    }
    assert_eq!((start, end), (5, 33));
}

#[test]
fn test_dtw_path_endpoints() {
    // Two 3-feature sequences of 10 and 7 frames, every value 1.0, with
    // Euclidean frame distances: the accumulated costs and the step chosen
    // at every cell (diagonal on ties, then up, then left).
    let x = vec![vec![1.0_f32; 10]; 3];
    let y = vec![vec![1.0_f32; 7]; 3];
    let (n, m) = (10, 7);
    let dist = |i: usize, j: usize| -> f32 {
        (0..3).map(|f| (x[f][i] - y[f][j]).powi(2)).sum::<f32>().sqrt()
    };
    let mut dp = vec![vec![f32::INFINITY; m]; n];
    dp[0][0] = dist(0, 0);
    for i in 1..n {
        dp[i][0] = dp[i - 1][0] + dist(i, 0);
    }
    for j in 1..m {
        dp[0][j] = dp[0][j - 1] + dist(0, j);
    }
    let mut steps = vec![vec![DtwStep::Diagonal; m]; n];
    for i in 1..n {
        for j in 1..m {
            let (d, u, l) = (dp[i - 1][j - 1], dp[i - 1][j], dp[i][j - 1]);
            dp[i][j] = dist(i, j) + d.min(u).min(l);
            steps[i][j] = if d <= u && d <= l { DtwStep::Diagonal } else if u <= l { DtwStep::Up } else { DtwStep::Left };
        }
    }
    let path = dtw_path(n, m, &steps);
    assert_eq!(path[0], (0, 0));
    assert_eq!(*path.last().unwrap(), (9, 6));
}

#[test]
fn test_dtw_empty_error() {
    assert!(check_dtw_shapes(0, 5, 2, 2).is_err());
}

#[test]
fn test_dtw_dimension_mismatch_error() {
    assert!(check_dtw_shapes(5, 5, 2, 3).is_err());
}

#[test]
fn test_viterbi_trivial() {
    let psi = vec![vec![0usize]; 5];
    assert_eq!(viterbi_backtrack(&psi, 1, 0), vec![0, 0, 0, 0, 0]);
}

#[test]
fn test_viterbi_empty_error() {
    assert!(check_viterbi_shapes(0, 5, 0, 0).is_err());
}

#[test]
fn test_viterbi_shape_mismatch_error() {
    assert!(check_viterbi_shapes(3, 10, 2, 2).is_err());
}

#[test]
fn test_compute_delta_invalid_width() {
    assert!(matches!(delta_params(Some(2), None), Err(MfccError::InvalidInput(_))));
}

#[test]
fn test_compute_delta_empty_input() {
    let (width, _) = delta_params(Some(3), None).unwrap();
    assert!(matches!(check_delta_shape(1, 0, width), Err(MfccError::InvalidDimensions(_))));
}

#[test]
fn test_compute_delta_insufficient_frames() {
    let (width, _) = delta_params(Some(5), None).unwrap();
    assert!(matches!(check_delta_shape(2, 2, width), Err(MfccError::InvalidDimensions(_))));
}

#[test]
fn subsegment_boundaries_merge_starts_and_changes() {
    let bounds = [0, 4, 10];
    let labels = vec![vec![0, 0, 1, 1], vec![0, 1, 1, 1, 2, 2]];
    assert_eq!(subsegment_boundaries(&bounds, &labels), vec![2, 4, 5, 8]);
    let unsplit = vec![Vec::new(), Vec::new()];
    assert_eq!(subsegment_boundaries(&bounds, &unsplit), vec![4]);
}

#[test]
fn discriminative_and_binary_checks() {
    assert!(matches!(check_discriminative(0, 4, None), Err(SequenceError::InvalidInput(_))));
    match check_discriminative(3, 4, Some(2)) {
        Err(SequenceError::InvalidInput(m)) => assert_eq!(m, "p_state length 2 does not match n_states 3"),
        other => panic!("unexpected {:?}", other),
    }
    assert!(check_discriminative(3, 4, Some(3)).is_ok());
    assert!(check_discriminative(3, 4, None).is_ok());
    match check_binary_viterbi(0, 2, 2) {
        Err(SequenceError::InvalidInput(m)) => assert_eq!(m, "prob is empty"),
        other => panic!("unexpected {:?}", other),
    }
    match check_binary_viterbi(5, 3, 2) {
        Err(SequenceError::InvalidInput(m)) => assert_eq!(m, "log_trans must be 2\u{d7}2 for binary Viterbi"),
        other => panic!("unexpected {:?}", other),
    }
    assert!(check_binary_viterbi(5, 2, 2).is_ok());
}

#[test]
fn nmf_seed_hash_values() {
    assert_eq!(nmf_seed_value(0, 0, 0), 0);
    assert_eq!(nmf_seed_value(1, 0, 0), 31153);
    assert_eq!(nmf_seed_value(0, 1, 0), 40503);
    assert_eq!(nmf_seed_value(1, 1, 1), 6121);
    assert_eq!(nmf_seed_value(u64::MAX, 0, 0), 34383);
    assert_eq!(nmf_seed_value(3, 5, u64::MAX), 33829);
}

#[test]
fn test_decompose_empty_error() {
    assert!(matches!(check_decompose(0, 0, 2), Err(DecomposeError::InvalidInput(_))));
}

#[test]
fn test_decompose_zero_components_error() {
    match check_decompose(8, 20, 0) {
        Err(DecomposeError::InvalidInput(m)) => assert_eq!(m, "n_components must be > 0"),
        other => panic!("unexpected {:?}", other),
    }
    assert!(check_decompose(20, 10, 3).is_ok());
}

#[test]
fn decompose_refuses_more_components_than_the_smaller_dimension() {
    match check_decompose(2, 3, 5) {
        Err(DecomposeError::InvalidInput(m)) => assert_eq!(m, "n_components 5 exceeds the smaller dimension 2"),
        other => panic!("unexpected {:?}", other),
    }
    assert!(matches!(check_decompose(4, 3, 4), Err(DecomposeError::InvalidInput(_))));
    assert!(check_decompose(4, 3, 3).is_ok());
}

#[test]
fn spectrogram_shape_checks() {
    match check_spectrogram_size(0, "power") {
        Err(ScalingError::InsufficientData(m)) => assert_eq!(m, "power spectrogram is empty"),
        other => panic!("unexpected {:?}", other),
    }
    assert!(check_spectrogram_size(4, "power").is_ok());
    match check_frequency_rows(1, 2) {
        Err(ScalingError::InvalidInput(m)) => assert_eq!(m, "Frequency length 1 does not match spectrogram rows 2"),
        other => panic!("unexpected {:?}", other),
    }
    assert!(check_frequency_rows(2, 2).is_ok());
}

#[test]
fn test_perceptual_weighting_mismatch() {
    assert!(check_frequency_rows(1, 2).is_err());
}

#[test]
fn test_db_to_amplitude_empty() {
    assert!(check_spectrogram_size(0, "decibel").is_err());
}

#[test]
fn diagonal_window_clips_to_the_matrix() {
    // Interior cell: the full window of 2 * half + 1 cells.
    assert_eq!(diagonal_window(10, 10, 5, 5, 2), (3, 3, 5));
    // Near the top-left corner the window starts at the border.
    assert_eq!(diagonal_window(10, 10, 1, 4, 3), (0, 3, 5));
    // Near the bottom-right corner it stops at the border.
    assert_eq!(diagonal_window(4, 6, 3, 2, 2), (1, 0, 3));
    // Half-width zero: the cell alone.
    assert_eq!(diagonal_window(3, 3, 1, 2, 0), (1, 2, 1));
}

#[test]
fn beat_links_keep_gaps_in_the_window() {
    assert_eq!(beat_window(9, 1, 3), (6, 8));
    assert_eq!(beat_window(2, 1, 3), (0, 1));
    assert_eq!(beat_window(0, 1, 3), (0, 0));
    let mut links = BeatLinks::new(10, 1, 3);
    links.link(4, 2);
    links.link(7, 4);
    links.link(9, 7);
    // A gap of four frames is outside the window and is ignored, as is a gap of one.
    links.link(5, 1);
    links.link(8, 7);
    assert_eq!(links.backtrack(9), vec![2, 4, 7, 9]);
    assert_eq!(links.backtrack(5), vec![5]);
    assert_eq!(links.backtrack(8), vec![8]);
    assert_eq!(links.len(), 10);
}
