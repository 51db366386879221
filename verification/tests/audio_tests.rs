use dasp_rs::audio::{multi_channel_mix, stereo_mix, AudioData};
use dasp_rs::errors::{AudioError, MixingError, TimeDomainError};
use dasp_rs::time_domain::{delay, time_crop, time_reversal, zero_padding};

fn signal(samples: Vec<f32>, sample_rate: u32, channels: u16) -> AudioData<f32> {
    AudioData::new(samples, sample_rate, channels).unwrap()
}

#[test]
fn test_audio_data_new_valid() {
    let audio = AudioData::new(vec![0.1f32, 0.2], 44100, 1).unwrap();
    assert_eq!(audio.samples, vec![0.1, 0.2]);
    assert_eq!(audio.sample_rate, 44100);
    assert_eq!(audio.channels, 1);
}

#[test]
fn test_audio_data_new_invalid_sample_rate() {
    let result = AudioData::new(vec![0.1f32], 0, 1);
    assert!(matches!(result, Err(AudioError::InvalidInput(_))));
}

#[test]
fn test_audio_data_new_invalid_channels() {
    let result = AudioData::new(vec![0.1f32], 44100, 0);
    assert!(matches!(result, Err(AudioError::InvalidInput(_))));
}

#[test]
fn test_audio_data_split_channels() {
    let stereo = AudioData::new(vec![0.1f32, 0.2, 0.3, 0.4], 44100, 2).unwrap();
    let channels = stereo.split_channels().unwrap();
    assert_eq!(channels, vec![vec![0.1, 0.3], vec![0.2, 0.4]]);
}

#[test]
fn test_audio_data_split_channels_invalid() {
    let invalid = AudioData::new(vec![0.1f32, 0.2, 0.3], 44100, 2).unwrap();
    let result = invalid.split_channels();
    assert!(matches!(result, Err(AudioError::InvalidInput(_))));
}

#[test]
fn test_audio_data_frame_count() {
    let stereo = AudioData::new(vec![0.1f32, 0.2, 0.3, 0.4], 44100, 2).unwrap();
    assert_eq!(stereo.frame_count(), 2);
}

#[test]
fn test_audio_data_to_raw() {
    let audio = AudioData::new(vec![0.1f32, 0.2], 44100, 1).unwrap();
    let (samples, sr, ch) = audio.to_raw();
    assert_eq!(samples, &[0.1, 0.2]);
    assert_eq!(sr, 44100);
    assert_eq!(ch, 1);
}

#[test]
fn test_export_invalid_channels() {
    let audio = AudioData::new(vec![0.1f32, 0.2], 44100, 0);
    assert!(
        matches!(audio, Err(AudioError::InvalidInput(_))),
        "AudioData::new should fail with zero channels"
    );
}

#[test]
fn test_zero_sample_rate() {
    let result = AudioData::new(vec![1.0f32, 2.0], 0, 1);
    assert!(matches!(result, Err(AudioError::InvalidInput(_))));
}

#[test]
fn test_zero_channels() {
    let result = AudioData::new(vec![1.0f32, 2.0], 44100, 0);
    assert!(matches!(result, Err(AudioError::InvalidInput(_))));
}

#[test]
fn new_reports_exact_messages() {
    match AudioData::new(vec![1.0f32], 0, 0) {
        Err(AudioError::InvalidInput(m)) => assert_eq!(m, "Sample rate must be positive"),
        other => panic!("unexpected {:?}", other),
    }
    match AudioData::new(vec![1.0f32], 8000, 0) {
        Err(AudioError::InvalidInput(m)) => assert_eq!(m, "Channel count must be positive"),
        other => panic!("unexpected {:?}", other),
    }
}

#[test]
fn split_then_interleave_round_trip() {
    let samples = vec![1, 2, 3, 4, 5, 6];
    let audio = AudioData::new(samples.clone(), 8000, 3).unwrap();
    let chans = audio.split_channels().unwrap();
    assert_eq!(chans, vec![vec![1, 4], vec![2, 5], vec![3, 6]]);
    let refs: Vec<AudioData<i32>> = chans
        .iter()
        .map(|c| AudioData::new(c.clone(), 8000, 1).unwrap())
        .collect();
    let r: Vec<&AudioData<i32>> = refs.iter().collect();
    let mixed = multi_channel_mix(&r, 3).unwrap();
    assert_eq!(mixed.samples, samples);
    assert_eq!(mixed.channels, 3);
}

#[test]
fn split_channels_message() {
    let a = AudioData::new(vec![0u8; 5], 8000, 2).unwrap();
    match a.split_channels() {
        Err(AudioError::InvalidInput(m)) => assert_eq!(m, "Sample length must be a multiple of channels"),
        other => panic!("unexpected {:?}", other),
    }
}

#[test]
fn stereo_mix_interleaves() {
    let l = signal(vec![1.0, 2.0], 44100, 1);
    let r = signal(vec![3.0, 4.0], 44100, 1);
    let m = stereo_mix(&l, &r).unwrap();
    assert_eq!(m.samples, vec![1.0, 3.0, 2.0, 4.0]);
    assert_eq!(m.channels, 2);
    assert_eq!(m.sample_rate, 44100);
}

#[test]
fn stereo_mix_errors() {
    let mono = signal(vec![1.0, 2.0], 44100, 1);
    let stereo = signal(vec![1.0, 2.0], 44100, 2);
    match stereo_mix(&mono, &stereo) {
        Err(MixingError::IncompatibleFormat(m)) => assert_eq!(m, "Both signals must be mono"),
        other => panic!("unexpected {:?}", other),
    }
    let short = signal(vec![1.0], 44100, 1);
    assert!(matches!(stereo_mix(&mono, &short), Err(MixingError::LengthMismatch(2, 1))));
    let other_rate = signal(vec![1.0, 2.0], 48000, 1);
    match stereo_mix(&mono, &other_rate) {
        Err(MixingError::InvalidParameter(m)) => assert_eq!(m, "Sample rates must match"),
        other => panic!("unexpected {:?}", other),
    }
}

#[test]
fn multi_channel_mix_errors() {
    let empty: Vec<&AudioData<f32>> = Vec::new();
    match multi_channel_mix(&empty, 2) {
        Err(MixingError::InvalidSignalCount(m)) => assert_eq!(m, "At least one signal is required"),
        other => panic!("unexpected {:?}", other),
    }
    let a = signal(vec![1.0, 2.0], 44100, 1);
    let b = signal(vec![1.0], 44100, 1);
    assert!(multi_channel_mix(&[&a, &b], 2).is_err());
    assert!(multi_channel_mix(&[&a, &a], 3).is_err());
}

#[test]
fn delay_shifts_and_keeps_length() {
    let s = signal(vec![1.0, 2.0, 3.0], 44100, 1);
    let d = delay(&s, 2, true, 0.0);
    assert_eq!(d.samples, vec![0.0, 0.0, 1.0]);
    let d2 = delay(&s, 2, false, 0.0);
    assert_eq!(d2.samples, vec![0.0, 0.0, 1.0, 2.0, 3.0]);
}

#[test]
fn reversal_twice_is_identity() {
    let s = signal(vec![1.0, 2.0, 3.0], 44100, 1);
    let r = time_reversal(&s).unwrap();
    assert_eq!(r.samples, vec![3.0, 2.0, 1.0]);
    let rr = time_reversal(&r).unwrap();
    assert_eq!(rr.samples, s.samples);
    let e = AudioData::new(Vec::<f32>::new(), 44100, 1).unwrap();
    match time_reversal(&e) {
        Err(TimeDomainError::InvalidLength(m)) => assert_eq!(m, "Signal cannot be empty"),
        other => panic!("unexpected {:?}", other),
    }
}

#[test]
fn crop_undoes_padding() {
    let s = signal(vec![1.0, 2.0, 3.0], 44100, 1);
    let p = zero_padding(&s, 2, 4, 0.0);
    assert_eq!(p.samples, vec![0.0, 0.0, 1.0, 2.0, 3.0, 0.0, 0.0, 0.0, 0.0]);
    let c = time_crop(&p, 2, 3).unwrap();
    assert_eq!(c.samples, s.samples);
}

#[test]
fn crop_cuts_at_end_and_rejects_start_past_end() {
    let s = signal(vec![1.0, 2.0, 3.0, 4.0], 44100, 1);
    let c = time_crop(&s, 2, 10).unwrap();
    assert_eq!(c.samples, vec![3.0, 4.0]);
    assert!(matches!(time_crop(&s, 4, 1), Err(TimeDomainError::InvalidCropRange(4, 1, 4))));
}
