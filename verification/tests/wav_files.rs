//! WAV framing: the encoder and decoder agree with each other and with an
//! independent reader.

use meeting_recorder::wav::{
    encode_wav, decode_wav, decode_wav_pcm, audio_quality_info, wav_duration_seconds,
};
use meeting_recorder::errors::RecorderError;
use std::io::Cursor;

#[test]
fn wav_round_trip_preserves_samples() {
    let samples: Vec<i16> = vec![0, 1, -1, 32767, -32768, 1234, -4321];
    let bytes = encode_wav(&samples, 16000, 1);
    assert_eq!(bytes.len(), 44 + 2 * samples.len());
    let decoded = decode_wav(&bytes).unwrap();
    assert_eq!(decoded.sample_rate, 16000);
    assert_eq!(decoded.channels, 1);
    assert_eq!(decoded.bits_per_sample, 16);
    assert_eq!(decoded.samples, samples);
}

#[test]
fn wav_header_is_canonical_riff() {
    let bytes = encode_wav(&vec![0i16; 4], 16000, 1);
    assert_eq!(&bytes[0..4], b"RIFF");
    assert_eq!(&bytes[8..12], b"WAVE");
    assert_eq!(&bytes[12..16], b"fmt ");
    assert_eq!(&bytes[36..40], b"data");
    // data chunk length: 8 bytes for 4 samples
    assert_eq!(bytes[40], 8);
}

#[test]
fn wav_decode_rejects_garbage() {
    assert_eq!(decode_wav(&vec![1, 2, 3]).unwrap_err(), RecorderError::DecodeError);
    let mut bytes = encode_wav(&vec![5i16; 3], 16000, 1);
    bytes[0] = 0;
    assert_eq!(decode_wav(&bytes).unwrap_err(), RecorderError::DecodeError);
}

#[test]
fn independent_reader_accepts_encoded_wav() {
    let samples: Vec<i16> = vec![17, -17, 0, 30000, -30000];
    let bytes = encode_wav(&samples, 16000, 1);
    let reader = hound::WavReader::new(Cursor::new(bytes)).unwrap();
    let spec = reader.spec();
    assert_eq!(spec.sample_rate, 16000);
    assert_eq!(spec.channels, 1);
    assert_eq!(spec.bits_per_sample, 16);
    let read: Vec<i16> = reader.into_samples::<i16>().map(|s| s.unwrap()).collect();
    assert_eq!(read, samples);
}

#[test]
fn encoder_matches_independent_writer() {
    let samples: Vec<i16> = vec![9, -9, 128, -128];
    let ours = encode_wav(&samples, 16000, 1);
    let spec = hound::WavSpec {
        channels: 1,
        sample_rate: 16000,
        bits_per_sample: 16,
        sample_format: hound::SampleFormat::Int,
    };
    let mut cursor = Cursor::new(Vec::new());
    {
        let mut writer = hound::WavWriter::new(&mut cursor, spec).unwrap();
        for &s in &samples {
            writer.write_sample(s).unwrap();
        }
        writer.finalize().unwrap();
    }
    assert_eq!(ours, cursor.into_inner());
}

#[test]
fn audio_quality_report_computes_integer_rates() {
    let samples: Vec<i16> = vec![0i16; 32000];
    let bytes = encode_wav(&samples, 16000, 1);
    let size = bytes.len() as u64;
    let decoded = decode_wav(&bytes).unwrap();
    let info = audio_quality_info(&decoded, size);
    assert_eq!(info.sample_rate, 16000);
    assert_eq!(info.channels, 1);
    assert_eq!(info.bits_per_sample, 16);
    assert_eq!(info.duration_millis, 2000);
    assert_eq!(info.file_size_bytes, size);
    // size * 8 bits over 2 seconds, in kbps
    assert_eq!(info.bitrate_kbps, (size * 8 * 1000 / 2000 / 1000) as u32);
}

#[test]
fn file_durations_round_to_the_nearest_second() {
    let half_up = decode_wav(&encode_wav(&vec![0i16; 24000], 16000, 1)).unwrap();
    assert_eq!(wav_duration_seconds(&half_up), 2);
    let below_half = decode_wav(&encode_wav(&vec![0i16; 23999], 16000, 1)).unwrap();
    assert_eq!(wav_duration_seconds(&below_half), 1);
    let empty = decode_wav(&encode_wav(&Vec::new(), 16000, 1)).unwrap();
    assert_eq!(wav_duration_seconds(&empty), 0);
}

/// A plain (non-extensible) mono 32-bit integer PCM file image.
fn plain_pcm32_wav(rate: u32, samples: &[i32]) -> Vec<u8> {
    let data_len = (samples.len() * 4) as u32;
    let mut b = Vec::new();
    b.extend_from_slice(b"RIFF");
    b.extend_from_slice(&(36 + data_len).to_le_bytes());
    b.extend_from_slice(b"WAVE");
    b.extend_from_slice(b"fmt ");
    b.extend_from_slice(&16u32.to_le_bytes());
    b.extend_from_slice(&1u16.to_le_bytes());
    b.extend_from_slice(&1u16.to_le_bytes());
    b.extend_from_slice(&rate.to_le_bytes());
    b.extend_from_slice(&(rate * 4).to_le_bytes());
    b.extend_from_slice(&4u16.to_le_bytes());
    b.extend_from_slice(&32u16.to_le_bytes());
    b.extend_from_slice(b"data");
    b.extend_from_slice(&data_len.to_le_bytes());
    for s in samples {
        b.extend_from_slice(&s.to_le_bytes());
    }
    b
}

#[test]
fn wider_reader_accepts_both_integer_widths() {
    let samples16: Vec<i16> = vec![7, -7, 32767, -32768];
    let bytes = encode_wav(&samples16, 16000, 1);
    let w = decode_wav_pcm(&bytes).unwrap();
    assert_eq!(w.bits_per_sample, 16);
    assert_eq!(w.samples, vec![7, -7, 32767, -32768]);

    let samples32 = [0i32, 1, -1, i32::MAX, i32::MIN, 123456789];
    let bytes = plain_pcm32_wav(44100, &samples32);
    let w = decode_wav_pcm(&bytes).unwrap();
    assert_eq!(w.sample_rate, 44100);
    assert_eq!(w.bits_per_sample, 32);
    assert_eq!(w.samples, samples32.to_vec());
}

#[test]
fn wider_reader_refuses_float_data() {
    let spec = hound::WavSpec {
        channels: 1,
        sample_rate: 16000,
        bits_per_sample: 32,
        sample_format: hound::SampleFormat::Float,
    };
    let mut cursor = Cursor::new(Vec::new());
    {
        let mut writer = hound::WavWriter::new(&mut cursor, spec).unwrap();
        writer.write_sample(0.5f32).unwrap();
        writer.finalize().unwrap();
    }
    assert_eq!(
        decode_wav_pcm(&cursor.into_inner()).unwrap_err(),
        RecorderError::DecodeError
    );
}
