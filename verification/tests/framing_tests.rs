use dasp_rs::errors::{AudioError, TuningError};
use dasp_rs::framing::{
    calculate_n_frames, centered_excerpt, check_signal_length, griffinlim_layout, stft_bins, istft_layout, fit_window, frame_ranges, pitch_frames, reflect_pad,
    select_segment, stft_frames, stream_blocks, stream_blocks_from, stream_hop,
};

#[test]
fn n_frames_counts() {
    assert_eq!(calculate_n_frames(10, 4, 2), 4);
    assert_eq!(calculate_n_frames(3, 4, 2), 1);
    assert_eq!(calculate_n_frames(4, 4, 1), 1);
    assert_eq!(calculate_n_frames(2048, 512, 128), 13);
}

#[test]
fn frame_ranges_are_cut_at_end() {
    assert_eq!(frame_ranges(10, 4, 3, 3), vec![(0, 4), (3, 7), (6, 10)]);
    assert_eq!(frame_ranges(5, 4, 3, 2), vec![(0, 4), (3, 5)]);
    assert!(frame_ranges(5, 4, 3, 0).is_empty());
}

#[test]
fn pitch_frames_default_hop() {
    assert_eq!(pitch_frames(100, 40, None), (10, 7));
    assert_eq!(pitch_frames(100, 40, Some(0)), (1, 61));
    assert_eq!(pitch_frames(100, 2, None), (1, 99));
    assert_eq!(pitch_frames(100, 40, Some(30)), (30, 3));
}

#[test]
fn short_signal_is_refused() {
    match check_signal_length(5, 10) {
        Err(TuningError::InsufficientData(m)) => assert_eq!(m, "Signal length is less than frame length"),
        other => panic!("unexpected {:?}", other),
    }
    assert!(check_signal_length(10, 10).is_ok());
}

#[test]
fn reflect_padding() {
    assert_eq!(reflect_pad(&[1, 2, 3, 4], 2, 0), vec![3, 2, 1, 2, 3, 4, 3, 2]);
    assert_eq!(reflect_pad(&[1, 2], 2, 0), vec![0, 0, 1, 2, 0, 0]);
    assert_eq!(reflect_pad(&[1.0f32, 2.0, 3.0], 0, 0.0), vec![1.0, 2.0, 3.0]);
}

#[test]
fn window_fitting() {
    assert_eq!(fit_window(&[1, 1], 6, 0), vec![0, 0, 1, 1, 0, 0]);
    assert_eq!(fit_window(&[1, 1, 1], 6, 0), vec![0, 1, 1, 1, 0, 0]);
    assert_eq!(fit_window(&[1, 2, 3, 4, 5], 3, 0), vec![2, 3, 4]);
}

#[test]
fn stft_shape_and_centered_frame_count() {
    assert_eq!(stft_bins(256), 256 / 2 + 1);
    assert_eq!(stft_frames(1024, 256, 64, true).unwrap(), 1 + 1024 / 64);
}

#[test]
fn stft_bin_counts() {
    assert_eq!(stft_bins(256), 129);
    assert_eq!(stft_bins(2048), 1025);
    assert_eq!(stft_bins(1), 1);
    assert_eq!(stft_bins(0), 1);
}

#[test]
fn pitch_trackers_doc_example_single_frame() {
    // Six samples, frames of four, default hop: a single frame.
    assert_eq!(pitch_frames(6, 4, None), (1, 1));
    // A signal of exactly one frame is one frame too.
    assert_eq!(pitch_frames(4, 4, None), (1, 1));
    // A given hop analyses every whole frame.
    assert_eq!(pitch_frames(6, 4, Some(1)), (1, 3));
    // From two frames on, the default hop analyses every whole frame.
    assert_eq!(pitch_frames(8, 4, None), (1, 5));
}

#[test]
fn n_frames_short_signal_with_zero_hop() {
    assert_eq!(calculate_n_frames(3, 4, 0), 1);
}

#[test]
fn stft_frame_errors() {
    match stft_frames(100, 0, 64, true) {
        Err(AudioError::InvalidInput(m)) => assert_eq!(m, "n_fft must be positive"),
        other => panic!("unexpected {:?}", other),
    }
    match stft_frames(10, 256, 64, false) {
        Err(AudioError::InsufficientData(m)) => assert_eq!(m, "Signal too short: 10 < n_fft 256"),
        other => panic!("unexpected {:?}", other),
    }
    assert_eq!(stft_frames(300, 256, 0, false).unwrap(), 45);
}

#[test]
fn test_stream_zero_frame_length() {
    let samples = vec![0.0f32, 0.1, 0.2, 0.3, 0.4, 0.5];
    let result = stream_blocks(&samples, 3, 0, Some(2), 0.0);
    assert!(matches!(result.unwrap_err(), AudioError::InvalidInput(_)));
}

#[test]
fn stream_blocks_cuts_and_pads() {
    let blocks = stream_blocks(&[1, 2, 3, 4, 5], 10, 2, Some(2), 0).unwrap();
    assert_eq!(blocks, vec![vec![1, 2], vec![3, 4], vec![5, 0]]);
    let limited = stream_blocks(&[1, 2, 3, 4, 5], 2, 2, None, 0).unwrap();
    assert_eq!(limited, vec![vec![1, 2], vec![3, 4]]);
    let overlapping = stream_blocks_from(&[1, 2, 3, 4], 10, 3, 1, 0);
    assert_eq!(overlapping, vec![vec![1, 2, 3], vec![2, 3, 4], vec![3, 4, 0]]);
}

#[test]
fn stream_errors() {
    match stream_hop(4, Some(0)) {
        Err(AudioError::InvalidInput(m)) => assert_eq!(m, "Hop length must be positive"),
        other => panic!("unexpected {:?}", other),
    }
    assert_eq!(stream_hop(4, None).unwrap(), 4);
    match stream_blocks::<i32>(&[], 3, 2, None, 0) {
        Err(AudioError::InsufficientData(m)) => assert_eq!(m, "No blocks generated"),
        other => panic!("unexpected {:?}", other),
    }
    assert!(matches!(stream_blocks(&[1, 2], 0, 2, None, 0), Err(AudioError::InsufficientData(_))));
}

#[test]
fn segment_selection() {
    let raw = [1, 2, 3, 4, 5, 6];
    assert_eq!(select_segment(&raw, 2, Some(3)).unwrap(), vec![3, 4, 5]);
    assert_eq!(select_segment(&raw, 4, None).unwrap(), vec![5, 6]);
    assert_eq!(select_segment(&raw, 4, Some(10)).unwrap(), vec![5, 6]);
    match select_segment(&raw, 10, None) {
        Err(AudioError::InsufficientData(m)) => assert_eq!(m, "No samples available"),
        other => panic!("unexpected {:?}", other),
    }
    assert!(select_segment(&raw, 1, Some(0)).is_err());
}

#[test]
fn non_overlapping_blocks_reassemble_signal() {
    let samples: Vec<i32> = (1..=7).collect();
    let blocks = stream_blocks(&samples, 10, 3, None, 0).unwrap();
    assert!(blocks.iter().all(|b| b.len() == 3));
    let flat: Vec<i32> = blocks.into_iter().flatten().collect();
    assert_eq!(flat, vec![1, 2, 3, 4, 5, 6, 7, 0, 0]);
}

#[test]
fn inverse_stft_layout() {
    assert_eq!(istft_layout(129, 17, None, None, true, None), (256, 256, 64, 1280, 128, 1024));
    assert_eq!(istft_layout(129, 17, Some(64), None, false, None), (256, 256, 64, 1280, 0, 1280));
    assert_eq!(istft_layout(5, 0, None, Some(2), true, Some(7)), (8, 2, 1, 0, 4, 7));
    assert_eq!(centered_excerpt(&[1, 2, 3, 4, 5], 2, 5, 0), vec![3, 4, 5, 0, 0]);
    assert_eq!(centered_excerpt(&[1, 2], 0, 0, 0), Vec::<i32>::new());
}

#[test]
fn griffinlim_layout_defaults_and_given_hop() {
    // 513 bins: FFT size 1024, default hop 256, 10 frames.
    assert_eq!(griffinlim_layout(513, 10, None), (1024, 256, 256 * 9 + 1024));
    assert_eq!(griffinlim_layout(513, 1, Some(100)), (1024, 100, 1024));
    // A zero hop is raised to one sample; one bin gives an empty FFT.
    assert_eq!(griffinlim_layout(3, 4, Some(0)), (4, 1, 7));
    assert_eq!(griffinlim_layout(1, 5, None), (0, 1, 4));
}
