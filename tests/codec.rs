use std::io::Cursor;
use std::num::{NonZeroU32, NonZeroU8};

use ogg_trimmer::audio_container::OggContainer;
use ogg_trimmer::audio_data::AudioVec;
use vorbis_rs::{VorbisDecoder, VorbisEncoderBuilder};

fn encode(samples: &[f32], frame_rate: u32) -> Vec<u8> {
    let (left, right) = OggContainer.split_channels(&samples.to_vec());
    let mut bytes = vec![];
    let mut encoder = VorbisEncoderBuilder::new(
        NonZeroU32::new(frame_rate).unwrap(),
        NonZeroU8::new(2).unwrap(),
        &mut bytes,
    )
    .unwrap()
    .build()
    .unwrap();
    encoder.encode_audio_block(vec![left, right]).unwrap();
    encoder.finish().unwrap();
    bytes
}

fn decode(bytes: Vec<u8>) -> (Vec<f32>, u64) {
    let mut decoder = VorbisDecoder::<Cursor<Vec<u8>>>::new(Cursor::new(bytes)).unwrap();
    let rate = u64::from(decoder.sampling_frequency().get()) * u64::from(decoder.channels().get());
    let mut out = vec![];
    while let Some(block) = decoder.decode_audio_block().unwrap() {
        let channels: Vec<Vec<f32>> = block.samples().iter().map(|c| c.to_vec()).collect();
        OggContainer.append_block(&mut out, &channels);
    }
    (out, rate)
}

#[test]
fn encoded_slice_decodes_to_same_frame_count() {
    let samples: Vec<f32> = (0..88_200).map(|i| ((i as f32) * 0.01).sin() * 0.5).collect();
    let mut a = AudioVec::new(samples, 88_200, "tone.ogg".to_string()).unwrap();
    a.set_trim_start(250_000);
    a.set_trim_end(750_000);
    let slice = a.get_audio_slice().unwrap().to_vec();
    assert_eq!(slice.len(), 44_100);
    let (decoded, rate) = decode(encode(&slice, a.channel_rate() as u32));
    assert_eq!(rate, 88_200);
    assert_eq!(decoded.len(), slice.len());
    let reloaded = AudioVec::new(decoded, rate, "out.ogg".to_string()).unwrap();
    assert_eq!(reloaded.get_duration(), 500_000);
}

#[test]
fn four_sample_slice_survives_encoding() {
    let samples: Vec<f32> = vec![0.1, -0.1, 0.2, -0.2, 0.3, -0.3, 0.4, -0.4];
    let mut a = AudioVec::new(samples, 88_200, "four.ogg".to_string()).unwrap();
    // 46 us at 88200 samples per second reaches index 4.
    a.set_trim_end(46);
    let slice = a.get_audio_slice().unwrap().to_vec();
    assert_eq!(slice.len(), 4);
    let (decoded, _) = decode(encode(&slice, 44_100));
    assert_eq!(decoded.len(), 4);
    let (left, right) = OggContainer.split_channels(&decoded);
    assert_eq!(left.len(), 2);
    assert_eq!(right.len(), 2);
}
