use dasp_rs::amplitude::{check_normalize, mode_from_lowercase, NormMode};
use dasp_rs::audio::AudioData;
use dasp_rs::errors::{AmplitudeError, MixingError, PanningError, SignalOpError};
use dasp_rs::kinds::ScalarOp;
use dasp_rs::ops::{
    check_dry_wet, check_mix, check_operands, check_pan_layout, check_scalar_operation,
    report_non_finite, validate_metadata,
};
use dasp_rs::text::{format_indices, usize_to_decimal};

fn test_signal(samples: Vec<f32>, sample_rate: u32, channels: u16) -> AudioData<f32> {
    AudioData::new(samples, sample_rate, channels).unwrap()
}

#[test]
fn mix_check_rejects_empty_list() {
    let result = check_mix::<f32>(&[]);
    match result {
        Err(SignalOpError::InvalidInput(m)) => assert_eq!(m, "Signal array is empty"),
        other => panic!("unexpected {:?}", other),
    }
}

#[test]
fn mix_check_rejects_empty_samples() {
    let s1 = AudioData::new(Vec::<f32>::new(), 44100, 1).unwrap();
    match check_mix(&[s1]) {
        Err(SignalOpError::InvalidInput(m)) => assert_eq!(m, "Signal samples are empty"),
        other => panic!("unexpected {:?}", other),
    }
}

#[test]
fn mix_check_describes_each_mismatch() {
    let s1 = test_signal(vec![1.0, 2.0], 44100, 1);
    let s2 = test_signal(vec![2.0, 4.0, 6.0], 44100, 1);
    let s3 = test_signal(vec![2.0, 4.0], 48000, 1);
    let s4 = test_signal(vec![0.0, 0.0], 44100, 1);
    match check_mix(&[s1, s2, s3, s4]) {
        Err(SignalOpError::InvalidInput(m)) => assert_eq!(
            m,
            "Signal 1: length mismatch (3 vs 2); Signal 2: metadata mismatch (expected 44100 Hz, 1 channels; got 48000 Hz, 1 channels)"
        ),
        other => panic!("unexpected {:?}", other),
    }
}

#[test]
fn mix_check_accepts_matching_signals() {
    let s1 = test_signal(vec![1.0, 2.0, 3.0], 44100, 1);
    let s2 = test_signal(vec![2.0, 4.0, 6.0], 44100, 1);
    assert!(check_mix(&[s1, s2]).is_ok());
}

#[test]
fn operand_check_errors() {
    let e1 = AudioData::new(Vec::<f32>::new(), 44100, 1).unwrap();
    let e2 = AudioData::new(Vec::<f32>::new(), 44100, 1).unwrap();
    assert!(matches!(check_operands(&e1, &e2), Err(SignalOpError::InvalidInput(_))));
    let s1 = test_signal(vec![2.0, 4.0], 44100, 1);
    let s2 = test_signal(vec![1.0, 2.0, 3.0], 44100, 1);
    assert!(matches!(check_operands(&s1, &s2), Err(SignalOpError::LengthMismatch(2, 3))));
    let s3 = test_signal(vec![1.0, 2.0], 44100, 2);
    match check_operands(&s1, &s3) {
        Err(SignalOpError::InvalidInput(m)) => assert_eq!(
            m,
            "Metadata mismatch: expected 44100 Hz, 1 channels; got 44100 Hz, 2 channels"
        ),
        other => panic!("unexpected {:?}", other),
    }
    assert!(check_operands(&s1, &s1).is_ok());
}

#[test]
fn metadata_check() {
    let a = test_signal(vec![1.0], 44100, 1);
    let b = test_signal(vec![1.0], 48000, 1);
    assert!(validate_metadata(&a, &a).is_ok());
    assert!(matches!(validate_metadata(&a, &b), Err(SignalOpError::InvalidInput(_))));
}

#[test]
fn non_finite_report_lists_indices() {
    assert!(report_non_finite(&[]).is_ok());
    match report_non_finite(&[0, 12, 7]) {
        Err(SignalOpError::ComputationFailed(m)) => assert_eq!(m, "Non-finite results at indices 0, 12, 7"),
        other => panic!("unexpected {:?}", other),
    }
}

#[test]
fn scalar_check_cases() {
    assert!(matches!(
        check_scalar_operation(0, ScalarOp::Add, false, &[]),
        Err(SignalOpError::InvalidInput(_))
    ));
    assert!(matches!(
        check_scalar_operation(2, ScalarOp::Divide, true, &[0, 1]),
        Err(SignalOpError::DivisionByZero(0))
    ));
    assert!(matches!(
        check_scalar_operation(2, ScalarOp::Multiply, false, &[1]),
        Err(SignalOpError::ComputationFailed(_))
    ));
    assert!(check_scalar_operation(3, ScalarOp::Add, false, &[]).is_ok());
    // A zero divisor fails at the first sample whatever positions are listed.
    assert!(matches!(
        check_scalar_operation(4, ScalarOp::Divide, true, &[]),
        Err(SignalOpError::DivisionByZero(0))
    ));
    // Other operations with a zero scalar are decided by the listed positions.
    assert!(check_scalar_operation(4, ScalarOp::Add, true, &[]).is_ok());
}

#[test]
fn pan_layout_checks() {
    let mono = test_signal(vec![1.0], 44100, 1);
    let stereo = test_signal(vec![1.0, 1.0], 44100, 2);
    assert!(matches!(check_pan_layout(&stereo, 2), Err(PanningError::NotMono(2))));
    assert!(matches!(check_pan_layout(&mono, 3), Err(PanningError::UnsupportedChannels(3))));
    assert!(check_pan_layout(&mono, 2).is_ok());
    assert!(check_pan_layout(&mono, 4).is_ok());
    assert!(check_pan_layout(&mono, 6).is_ok());
}

#[test]
fn dry_wet_checks() {
    let a = test_signal(vec![1.0, 1.0], 44100, 1);
    let b = test_signal(vec![2.0], 44100, 1);
    let c = test_signal(vec![2.0, 2.0], 48000, 1);
    assert!(matches!(check_dry_wet(&a, &b), Err(MixingError::LengthMismatch(2, 1))));
    match check_dry_wet(&a, &c) {
        Err(MixingError::InvalidParameter(m)) => assert_eq!(m, "Sample rate and channels must match"),
        other => panic!("unexpected {:?}", other),
    }
    assert!(check_dry_wet(&a, &a).is_ok());
}

#[test]
fn decimal_text() {
    assert_eq!(usize_to_decimal(0), "0");
    assert_eq!(usize_to_decimal(44100), "44100");
    assert_eq!(format_indices(&[]), "");
    assert_eq!(format_indices(&[3, 10]), "3, 10");
}


#[test]
fn test_mix_signals_empty() {
    let result = check_mix::<f32>(&[]);
    assert!(matches!(result, Err(SignalOpError::InvalidInput(_))));
}

#[test]
fn test_mix_signals_empty_samples() {
    let s1 = AudioData::new(Vec::<f32>::new(), 44100, 1).unwrap();
    let result = check_mix(&[s1]);
    assert!(matches!(result, Err(SignalOpError::InvalidInput(_))));
}

#[test]
fn test_mix_signals_length_mismatch() {
    let s1 = test_signal(vec![1.0, 2.0], 44100, 1);
    let s2 = test_signal(vec![2.0, 4.0, 6.0], 44100, 1);
    let result = check_mix(&[s1, s2]);
    assert!(matches!(result, Err(SignalOpError::InvalidInput(_))));
}

#[test]
fn test_mix_signals_metadata_mismatch() {
    let s1 = test_signal(vec![1.0, 2.0], 44100, 1);
    let s2 = test_signal(vec![2.0, 4.0], 48000, 1);
    let result = check_mix(&[s1, s2]);
    assert!(matches!(result, Err(SignalOpError::InvalidInput(_))));
}

#[test]
fn test_subtract_signals_empty() {
    let s1 = AudioData::new(Vec::<f32>::new(), 44100, 1).unwrap();
    let s2 = AudioData::new(Vec::<f32>::new(), 44100, 1).unwrap();
    assert!(matches!(check_operands(&s1, &s2), Err(SignalOpError::InvalidInput(_))));
}

#[test]
fn test_subtract_signals_mismatch() {
    let s1 = test_signal(vec![2.0, 4.0], 44100, 1);
    let s2 = test_signal(vec![1.0, 2.0, 3.0], 44100, 1);
    assert!(matches!(check_operands(&s1, &s2), Err(SignalOpError::LengthMismatch(2, 3))));
}

#[test]
fn test_multiply_signals_empty() {
    let s1 = AudioData::new(Vec::<f32>::new(), 44100, 1).unwrap();
    let s2 = AudioData::new(Vec::<f32>::new(), 44100, 1).unwrap();
    assert!(matches!(check_operands(&s1, &s2), Err(SignalOpError::InvalidInput(_))));
}

#[test]
fn test_divide_signals_empty() {
    let s1 = AudioData::new(Vec::<f32>::new(), 44100, 1).unwrap();
    let s2 = AudioData::new(Vec::<f32>::new(), 44100, 1).unwrap();
    assert!(matches!(check_operands(&s1, &s2), Err(SignalOpError::InvalidInput(_))));
}

#[test]
fn test_invalid_metadata() {
    let s1 = test_signal(vec![1.0, 2.0], 44100, 1);
    let s2 = test_signal(vec![1.0, 2.0], 44100, 2);
    assert!(matches!(check_operands(&s1, &s2), Err(SignalOpError::InvalidInput(_))));
}

#[test]
fn test_scalar_operation_empty() {
    let s = AudioData::new(Vec::<f32>::new(), 44100, 1).unwrap();
    let result = check_scalar_operation(s.samples.len(), ScalarOp::Add, false, &[]);
    assert!(matches!(result, Err(SignalOpError::InvalidInput(_))));
}

#[test]
fn test_scalar_operation_divide_by_zero() {
    let s = test_signal(vec![1.0, 2.0], 44100, 1);
    let every: Vec<usize> = (0..s.samples.len()).collect();
    let result = check_scalar_operation(s.samples.len(), ScalarOp::Divide, true, &every);
    assert!(matches!(result, Err(SignalOpError::DivisionByZero(_))));
}

#[test]
fn normalize_mode_is_case_insensitive() {
    assert_eq!(check_normalize(3, "PEAK").unwrap(), NormMode::Peak);
    assert_eq!(check_normalize(3, "Rms").unwrap(), NormMode::Rms);
    assert_eq!(check_normalize(3, "peak").unwrap(), NormMode::Peak);
    match check_normalize(3, "Loud") {
        Err(AmplitudeError::InvalidGain(m)) => assert_eq!(m, "Unknown normalization mode: Loud"),
        other => panic!("unexpected {:?}", other),
    }
    match check_normalize(0, "peak") {
        Err(AmplitudeError::InvalidSignal(m)) => assert_eq!(m, "Signal cannot be empty"),
        other => panic!("unexpected {:?}", other),
    }
}

#[test]
fn normalize_mode_from_lowercase_name() {
    assert_eq!(mode_from_lowercase("rms", "RMS").unwrap(), NormMode::Rms);
    match mode_from_lowercase("db", "dB") {
        Err(AmplitudeError::InvalidGain(m)) => assert_eq!(m, "Unknown normalization mode: dB"),
        other => panic!("unexpected {:?}", other),
    }
}
