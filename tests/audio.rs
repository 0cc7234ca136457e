use ogg_trimmer::audio_container::OggContainer;
use ogg_trimmer::audio_data::{AudioVec, LoadError, TrimOutOfRange};
use ogg_trimmer::timing::{duration_from_len, index_from_micros, round_to_decimal};

fn buffer(len: usize, rate: u64) -> AudioVec<f32> {
    let samples: Vec<f32> = (0..len).map(|i| i as f32 * 0.25).collect();
    AudioVec::new(samples, rate, "clip.ogg".to_string()).unwrap()
}

#[test]
fn index_is_even_and_not_above_raw_index() {
    // 1.5 s at 3 samples per second: raw index 4.
    assert_eq!(index_from_micros(1_500_000, 3), 4);
    // 1 s at 3 samples per second: raw index 3, aligned down to 2.
    assert_eq!(index_from_micros(1_000_000, 3), 2);
    assert_eq!(index_from_micros(0, 88_200), 0);
    // 0.5 s at 88200: 44100 exactly.
    assert_eq!(index_from_micros(500_000, 88_200), 44_100);
    // 1 microsecond at 88200: raw index 0.
    assert_eq!(index_from_micros(1, 88_200), 0);
    for micros in [0u64, 1, 7, 333_333, 1_000_001, 12_345_678] {
        for rate in [1u64, 3, 7, 44_100, 88_200, 1_000_000] {
            let r = index_from_micros(micros, rate);
            let raw = micros as u128 * rate as u128 / 1_000_000;
            assert_eq!(r % 2, 0);
            assert!(r <= raw);
            assert!(r + 1 >= raw);
        }
    }
}

#[test]
fn duration_rounds_up_to_whole_microseconds() {
    assert_eq!(duration_from_len(8, 2), 4_000_000);
    assert_eq!(duration_from_len(3, 7), 428_572);
    assert_eq!(duration_from_len(88_200, 88_200), 1_000_000);
}

#[test]
fn full_trim_returns_whole_buffer() {
    let a = buffer(10, 7);
    assert_eq!(a.get_trim_start(), 0);
    assert_eq!(a.get_trim_end(), a.get_duration());
    let slice = a.get_audio_slice().unwrap();
    assert_eq!(slice, a.audio_data.as_slice());
    let mut b = buffer(8, 999_999);
    b.set_trim_start(0);
    let d = b.get_duration();
    b.set_trim_end(d);
    assert_eq!(b.get_audio_slice().unwrap().len(), 8);
}

#[test]
fn reversed_trim_reports_out_of_range() {
    let mut a = buffer(88_200 * 20, 88_200);
    a.set_trim_start(10_000_000);
    a.set_trim_end(5_000_000);
    let expected = TrimOutOfRange { start_index: 882_000, end_index: 441_000, len: 1_764_000 };
    assert_eq!(a.get_audio_slice(), Err(expected));
    assert_eq!(a.play_audio(), Err(expected));
    assert!(!a.is_playing());
    assert_eq!(a.get_trim_duration(), Err(expected));
}

#[test]
fn end_beyond_buffer_reports_out_of_range() {
    let mut a = buffer(8, 2);
    a.set_trim_end(5_000_000);
    assert_eq!(
        a.get_audio_slice(),
        Err(TrimOutOfRange { start_index: 0, end_index: 10, len: 8 })
    );
}

#[test]
fn four_frames_at_rate_two() {
    let samples: Vec<f32> = vec![0.1, -0.1, 0.2, -0.2, 0.3, -0.3, 0.4, -0.4];
    let mut a = AudioVec::new(samples.clone(), 2, "four.ogg".to_string()).unwrap();
    assert_eq!(a.get_duration(), 4_000_000);
    a.set_trim_start(0);
    a.set_trim_end(2_000_000);
    let slice = a.get_audio_slice().unwrap();
    assert_eq!(slice, &samples[0..4]);
    assert_eq!(a.get_trim_duration(), Ok(2_000_000));
    let (left, right) = OggContainer.split_channels(&slice.to_vec());
    assert_eq!(left, vec![0.1, 0.2]);
    assert_eq!(right, vec![-0.1, -0.2]);
}

#[test]
fn play_and_stop_update_playback() {
    let mut a = buffer(8, 2);
    a.set_trim_start(1_000_000);
    a.set_play_position(123);
    let played = a.play_audio().unwrap();
    assert_eq!(played, a.audio_data[2..8].to_vec());
    assert!(a.is_playing());
    assert_eq!(a.get_play_position(), 0);
    a.set_play_position(750_000);
    assert_eq!(a.get_play_position(), 750_000);
    a.stop_audio();
    assert!(!a.is_playing());
    a.stop_audio();
    assert!(!a.is_playing());
    assert_eq!(a.get_play_position(), 750_000);
}

#[test]
fn load_errors() {
    let empty: Vec<f32> = Vec::new();
    assert_eq!(AudioVec::new(empty, 2, String::new()).err(), Some(LoadError::EmptySource));
    assert_eq!(
        AudioVec::new(vec![0.0f32; 3], 2, String::new()).err(),
        Some(LoadError::UnpairedSample)
    );
    assert_eq!(
        AudioVec::new(vec![0.0f32; 4], 0, String::new()).err(),
        Some(LoadError::BadSampleRate)
    );
    assert_eq!(
        AudioVec::new(vec![0.0f32; 4], 1_000_001, String::new()).err(),
        Some(LoadError::BadSampleRate)
    );
    let a = AudioVec::new(vec![0.0f32; 4], 88_200, "x.ogg".to_string()).unwrap();
    assert_eq!(a.get_path(), "x.ogg");
    assert_eq!(a.channel_rate(), 44_100);
}

#[test]
fn round_to_decimal_truncates() {
    assert_eq!(round_to_decimal(1_239_000, 2), 1_230_000);
    assert_eq!(round_to_decimal(0, 2), 0);
    assert_eq!(round_to_decimal(1_999_999, 0), 1_000_000);
    assert_eq!(round_to_decimal(1_234_567, 6), 1_234_567);
    assert_eq!(round_to_decimal(1_234_567, 3), 1_234_000);
}

#[test]
fn split_and_interleave_round_trip() {
    let samples: Vec<f32> = vec![1.5, -0.0, f32::MIN_POSITIVE, 3.25, -7.0, 1e-30, 0.5, -0.5];
    let (left, right) = OggContainer.split_channels(&samples);
    assert_eq!(left.len(), 4);
    assert_eq!(right.len(), 4);
    let mut joined: Vec<f32> = Vec::new();
    OggContainer.append_block(&mut joined, &vec![left, right]);
    let bits: Vec<u32> = joined.iter().map(|x| x.to_bits()).collect();
    let expected: Vec<u32> = samples.iter().map(|x| x.to_bits()).collect();
    assert_eq!(bits, expected);
}

#[test]
fn append_block_interleaves_after_existing_samples() {
    let mut out = vec![9u32];
    OggContainer.append_block(&mut out, &vec![vec![1, 2, 3], vec![4, 5, 6], vec![7, 8, 9]]);
    assert_eq!(out, vec![9, 1, 4, 7, 2, 5, 8, 3, 6, 9]);
    OggContainer.append_block(&mut out, &vec![vec![10], vec![11, 12]]);
    assert_eq!(out, vec![9, 1, 4, 7, 2, 5, 8, 3, 6, 9, 10, 11]);
}

#[test]
fn split_odd_length() {
    let (left, right) = OggContainer.split_channels(&vec![1u8, 2, 3]);
    assert_eq!(left, vec![1, 3]);
    assert_eq!(right, vec![2]);
}
