use dasp_rs::errors::{AudioError, HarmonicsError, MfccError, PhaseRecoveryError, RhythmError, SpectralError};
use dasp_rs::manipulation::check_mfcc_to_mel;
use dasp_rs::rhythm::{check_onset_signal, check_positive, onset_bands};
use dasp_rs::harmonics::check_harmonic_inputs;
use dasp_rs::spectral::{
    check_cqt_magnitude, check_min_length, cmvn_axis, frame_count, frame_params, hpss_params, stft_params, vad_params,
};

fn invalid_parameter(r: Result<impl std::fmt::Debug, SpectralError>) -> String {
    match r {
        Err(SpectralError::InvalidParameter(m)) => m,
        other => panic!("expected InvalidParameter, got {:?}", other),
    }
}

fn invalid_size(r: Result<impl std::fmt::Debug, SpectralError>) -> String {
    match r {
        Err(SpectralError::InvalidSize(m)) => m,
        other => panic!("expected InvalidSize, got {:?}", other),
    }
}

#[test]
fn stft_params_defaults_and_errors() {
    assert_eq!(stft_params(4096, None, None).unwrap(), (2048, 512));
    assert_eq!(stft_params(8, Some(8), Some(3)).unwrap(), (8, 3));
    // An FFT of three samples has a default hop of zero.
    assert_eq!(invalid_parameter(stft_params(100, Some(3), None)), "n_fft and hop_length must be positive");
    assert_eq!(invalid_parameter(stft_params(100, Some(0), Some(1))), "n_fft and hop_length must be positive");
    assert_eq!(invalid_size(stft_params(2047, None, None)), "Signal length must be at least n_fft");
}

#[test]
fn frame_params_and_count() {
    assert_eq!(frame_params(None, None).unwrap(), (2048, 512));
    assert_eq!(frame_params(Some(4), Some(2)).unwrap(), (4, 2));
    assert_eq!(invalid_parameter(frame_params(Some(0), Some(2))), "frame_length and hop_length must be positive");
    assert_eq!(invalid_parameter(frame_params(Some(2), None)), "frame_length and hop_length must be positive");
    assert_eq!(frame_count(10, 4, 2).unwrap(), 4);
    assert_eq!(frame_count(4, 4, 3).unwrap(), 1);
    assert_eq!(invalid_size(frame_count(3, 4, 1)), "Signal length must be at least frame_length");
}

#[test]
fn hpss_params_defaults_and_errors() {
    assert_eq!(hpss_params(2048, None, None, None, None).unwrap(), (2048, 512, 31, 31));
    assert_eq!(hpss_params(16, Some(16), Some(4), Some(5), Some(7)).unwrap(), (16, 4, 5, 7));
    assert_eq!(
        invalid_parameter(hpss_params(5000, None, None, Some(0), None)),
        "n_fft, hop_length, harm_win, and perc_win must be positive"
    );
    assert_eq!(invalid_size(hpss_params(100, None, None, None, None)), "Signal length must be at least n_fft");
}

#[test]
fn vad_params_defaults_and_errors() {
    assert_eq!(vad_params(4096, None, None, None).unwrap(), (2048, 512, 2048, 5));
    assert_eq!(vad_params(10, Some(4), Some(2), Some(8)).unwrap(), (4, 2, 8, 4));
    assert_eq!(
        invalid_parameter(vad_params(4096, None, None, Some(0))),
        "frame_length, hop_length, and n_fft must be positive"
    );
    assert_eq!(
        invalid_size(vad_params(6, Some(4), Some(2), Some(8))),
        "Signal length must be at least max(frame_length, n_fft)"
    );
}

#[test]
fn cmvn_axis_resolution() {
    assert_eq!(cmvn_axis(None, 1, 5).unwrap(), 1);
    assert_eq!(cmvn_axis(Some(-1), 3, 2).unwrap(), 1);
    assert_eq!(cmvn_axis(Some(0), 2, 1).unwrap(), 0);
    assert_eq!(invalid_size(cmvn_axis(None, 5, 1)), "Feature dimension too small for normalization");
    assert_eq!(invalid_size(cmvn_axis(Some(1), 1, 5)), "Feature dimension too small for normalization");
}

#[test]
fn test_f0_harmonics_empty() {
    // Empty amplitudes and frequencies, one fundamental: the first empty array is reported.
    let r = check_harmonic_inputs(&[0, 1, 0], &["amplitudes", "f0", "frequencies"], None, None, false);
    assert!(matches!(r, Err(HarmonicsError::InvalidInput(ref m)) if m == "amplitudes array is empty"));
}

#[test]
fn onset_bands_split_the_bins() {
    // 1025 bins in 6 bands of 170 bins; the last bins are left over.
    let b = onset_bands(1025, 6);
    assert_eq!(b.len(), 6);
    assert_eq!(b[0], (0, 170));
    assert_eq!(b[5], (850, 1020));
    // Fewer bins than bands: bands of one bin, empty past the last bin.
    assert_eq!(onset_bands(3, 5), vec![(0, 1), (1, 2), (2, 3), (3, 3), (4, 3)]);
}

#[test]
fn onset_input_checks() {
    assert!(check_onset_signal(10).is_ok());
    assert!(matches!(check_onset_signal(0), Err(RhythmError::InvalidInput(ref m)) if m == "Signal is empty"));
    assert!(check_positive(6, "n_bands").is_ok());
    assert!(matches!(check_positive(0, "n_bands"), Err(RhythmError::InvalidInput(ref m)) if m == "n_bands must be > 0"));
    assert!(matches!(check_positive(0, "win_length"), Err(RhythmError::InvalidInput(ref m)) if m == "win_length must be > 0"));
}

#[test]
fn test_onset_strength_empty() {
    assert!(check_onset_signal(0).is_err());
}

#[test]
fn mfcc_to_mel_checks() {
    assert_eq!(check_mfcc_to_mel(2, 2, Some(4), None).unwrap(), (4, 2));
    assert_eq!(check_mfcc_to_mel(13, 5, None, Some(3)).unwrap(), (128, 3));
    assert!(matches!(check_mfcc_to_mel(0, 5, None, None), Err(MfccError::InvalidDimensions(ref m)) if m == "MFCC matrix is empty"));
    assert!(matches!(check_mfcc_to_mel(2, 2, None, Some(5)), Err(MfccError::InvalidInput(ref m)) if m == "Unsupported DCT type: 5"));
    assert!(matches!(check_mfcc_to_mel(2, 2, None, Some(-12)), Err(MfccError::InvalidInput(ref m)) if m == "Unsupported DCT type: -12"));
    assert!(matches!(check_mfcc_to_mel(1, 1, None, Some(i32::MIN)), Err(MfccError::InvalidInput(ref m)) if m == "Unsupported DCT type: -2147483648"));
}

#[test]
fn min_length_and_cqt_magnitude_checks() {
    assert!(check_min_length(512, 512).is_ok());
    assert!(matches!(check_min_length(100, 512), Err(AudioError::InsufficientData(ref m)) if m == "Signal too short: 100 < 512"));
    assert!(check_cqt_magnitude(12, 20).is_ok());
    assert!(matches!(check_cqt_magnitude(0, 0), Err(PhaseRecoveryError::ComputationFailed(ref m)) if m == "Empty CQT magnitude spectrogram"));
}

#[test]
fn test_griffinlim_cqt_empty() {
    // An empty magnitude spectrogram is refused before any transform.
    assert!(check_cqt_magnitude(0, 0).is_err());
}

#[test]
fn autocorr_lag_range_stays_inside() {
    assert_eq!(dasp_rs::spectral::autocorr_lag_range(88, 882, 2048), (88, 882));
    assert_eq!(dasp_rs::spectral::autocorr_lag_range(88, 882, 300), (88, 300));
    // Lags past the autocorrelation give an empty range instead of a panic.
    assert_eq!(dasp_rs::spectral::autocorr_lag_range(88, 882, 4), (4, 4));
}
