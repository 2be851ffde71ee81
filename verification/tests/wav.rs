use shamash::wav::{decode_pcm16, encode_pcm16, interleave, wav_readable, WavError};

/// 16-bit PCM from samples in -1.0..=1.0, clamped.
fn to_pcm(samples: &[f32]) -> Vec<i16> {
    samples
        .iter()
        .map(|s| (s.clamp(-1.0, 1.0) * f32::from(i16::MAX)) as i16)
        .collect()
}

fn from_pcm(samples: &[i16]) -> Vec<f32> {
    samples.iter().map(|s| f32::from(*s) / f32::from(i16::MAX)).collect()
}

fn write(samples: &[f32], sample_rate: u32) -> Vec<u8> {
    encode_pcm16(1, sample_rate, &to_pcm(samples))
}

fn read(bytes: &[u8]) -> (u32, Vec<f32>) {
    let (rate, samples) = decode_pcm16(bytes).unwrap();
    (rate, from_pcm(&samples))
}

#[test]
fn wav_round_trips_through_the_header_it_writes() {
    let original: Vec<f32> = vec![0.0, 0.5, -0.5, 1.0, -1.0];
    let (rate, decoded) = read(&write(&original, 16_000));
    assert_eq!(rate, 16_000);
    assert_eq!(decoded.len(), original.len());
    for (got, want) in decoded.iter().zip(&original) {
        assert!((got - want).abs() < 1e-4, "{got} != {want}");
    }
}

#[test]
fn samples_are_clamped_rather_than_wrapping() {
    let (rate, decoded) = read(&write(&[2.0, -2.0], 16_000));
    assert_eq!(rate, 16_000);
    assert!(decoded[0] <= 1.0 && decoded[0] > 0.99);
    assert!(decoded[1] >= -1.0 && decoded[1] < -0.99);
}

#[test]
fn integer_samples_round_trip_exactly() {
    let samples = vec![i16::MIN, -1, 0, 1, i16::MAX, 12345];
    let bytes = encode_pcm16(2, 44_100, &samples);
    assert_eq!(bytes.len(), 44 + 2 * samples.len());
    assert_eq!(decode_pcm16(&bytes), Ok((44_100, samples)));
    assert_eq!(decode_pcm16(&encode_pcm16(1, 8_000, &[])), Ok((8_000, vec![])));
}

#[test]
fn mono_header_fields() {
    let bytes = encode_pcm16(1, 16_000, &[7]);
    assert_eq!(&bytes[0..4], b"RIFF");
    assert_eq!(u32::from_le_bytes(bytes[4..8].try_into().unwrap()), 38);
    assert_eq!(u32::from_le_bytes(bytes[28..32].try_into().unwrap()), 32_000);
    assert_eq!(u16::from_le_bytes(bytes[32..34].try_into().unwrap()), 2);
    assert_eq!(&bytes[44..], &[7, 0]);
}

#[test]
fn not_a_wav_is_rejected() {
    assert_eq!(decode_pcm16(b"hello"), Err(WavError::NotRiffWave));
    assert_eq!(decode_pcm16(b""), Err(WavError::NotRiffWave));
    assert_eq!(decode_pcm16(b"RIFF\0\0\0\0WAVX"), Err(WavError::NotRiffWave));
    assert_eq!(decode_pcm16(b"RIFF\0\0\0\0WAVE"), Err(WavError::NoDataChunk));
}

#[test]
fn chunks_are_walked_until_the_data() {
    let mut bytes = b"RIFF\0\0\0\0WAVE".to_vec();
    bytes.extend_from_slice(b"LIST\x03\0\0\0abc\0");
    bytes.extend_from_slice(b"fmt \x10\0\0\0\x01\0\x01\0\x44\xac\0\0\0\0\0\0\0\0\0\0");
    bytes.extend_from_slice(b"data\x05\0\0\0\x01\0\x02\0\x09");
    assert_eq!(decode_pcm16(&bytes), Ok((44_100, vec![1, 2])));
    let mut cut = b"RIFF\0\0\0\0WAVE".to_vec();
    cut.extend_from_slice(b"data\x08\0\0\0\x01\0");
    assert_eq!(decode_pcm16(&cut), Err(WavError::NoDataChunk));
}

#[test]
fn interleaving_repeats_each_sample_per_channel() {
    assert_eq!(interleave(&[1, 2], 3), vec![1, 1, 1, 2, 2, 2]);
    assert_eq!(interleave(&[1, 2], 0), Vec::<i16>::new());
}

#[test]
fn files_the_reader_would_overrun_are_recognised() {
    let good = encode_pcm16(1, 16_000, &[1, -1]);
    assert!(wav_readable(&good));
    assert!(wav_readable(b"not a wav file at all"));
    assert!(!wav_readable(b"RIFF\0\0\0\0WA"));
    let mut short_fmt = b"RIFF\0\0\0\0WAVEfmt ".to_vec();
    short_fmt.extend_from_slice(&4u32.to_le_bytes());
    short_fmt.extend_from_slice(&[1, 0, 1, 0]);
    assert!(!wav_readable(&short_fmt));
    let mut no_data = b"RIFF\0\0\0\0WAVEjunk".to_vec();
    no_data.extend_from_slice(&2u32.to_le_bytes());
    no_data.extend_from_slice(&[0, 0]);
    assert!(wav_readable(&no_data));
    assert_eq!(decode_pcm16(&no_data), Err(WavError::NoDataChunk));
}
