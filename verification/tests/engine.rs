//! End-to-end tests for the sample engine, running through the real
//! WAV codec.

use batchcensor::engine::{process_wav, silence_wav, ProcessError};
use batchcensor::generator::Silence;
use batchcensor::reconcile::silence_should_write;
use batchcensor::{Range, Replace};
use std::io::Cursor;

/// A WAV byte buffer holding the given 16-bit samples.
fn wav_bytes(sample_rate: u32, channels: u16, samples: &[i16]) -> Vec<u8> {
    let spec = hound::WavSpec {
        channels,
        sample_rate,
        bits_per_sample: 16,
        sample_format: hound::SampleFormat::Int,
    };
    let mut cursor = Cursor::new(Vec::new());
    let mut writer = hound::WavWriter::new(&mut cursor, spec).expect("writer");
    for s in samples {
        writer.write_sample(*s).expect("sample");
    }
    writer.finalize().expect("finalize");
    cursor.into_inner()
}

/// The format and samples a WAV byte buffer holds.
fn wav_samples(bytes: &[u8]) -> (hound::WavSpec, Vec<i16>) {
    let reader = hound::WavReader::new(Cursor::new(bytes)).expect("reader");
    let spec = reader.spec();
    let samples: Vec<i16> = reader
        .into_samples::<i16>()
        .collect::<Result<Vec<i16>, _>>()
        .expect("samples");
    (spec, samples)
}

#[test]
fn process_zeroes_first_half_second() {
    // One second of 44.1 kHz mono audio, every sample set to 1000.
    // Half a second resolves to 500 * (44100 / 1000) = 22000 samples:
    // the millisecond scale rounds the rate down to whole samples per
    // millisecond.
    let source: Vec<i16> = vec![1000; 44100];
    let bytes = wav_bytes(44100, 1, &source);
    let replaces = vec![Replace {
        word: String::from("w"),
        range: Range::parse("0.000-0.500").expect("valid range"),
    }];
    let out = process_wav(&bytes, &replaces, &Silence::new()).expect("process");
    let (spec, samples) = wav_samples(&out);
    assert_eq!(44100, spec.sample_rate);
    assert_eq!(1, spec.channels);
    assert_eq!(16, spec.bits_per_sample);
    assert_eq!(44100, samples.len());
    for i in 0..22000 {
        assert_eq!(0, samples[i]);
    }
    for i in 22000..44100 {
        assert_eq!(source[i], samples[i]);
    }
}

#[test]
fn process_zeroes_exact_half_second_at_even_rate() {
    // At 48 kHz a millisecond is exactly 48 samples, so half a second
    // is exactly half the buffer.
    let source: Vec<i16> = vec![1000; 48000];
    let bytes = wav_bytes(48000, 1, &source);
    let replaces = vec![Replace {
        word: String::from("w"),
        range: Range::parse("0.000-0.500").expect("valid range"),
    }];
    let out = process_wav(&bytes, &replaces, &Silence::new()).expect("process");
    let (_, samples) = wav_samples(&out);
    for i in 0..24000 {
        assert_eq!(0, samples[i]);
    }
    for i in 24000..48000 {
        assert_eq!(source[i], samples[i]);
    }
}

#[test]
fn process_empty_range_is_noop() {
    let source: Vec<i16> = (0..1000).map(|i| i as i16).collect();
    let bytes = wav_bytes(8000, 1, &source);
    let replaces = vec![Replace {
        word: String::from("w"),
        range: Range::parse("0.100-0.100").expect("valid range"),
    }];
    let out = process_wav(&bytes, &replaces, &Silence::new()).expect("process");
    let (_, samples) = wav_samples(&out);
    assert_eq!(source, samples);
}

#[test]
fn process_reports_resolve_error() {
    let source: Vec<i16> = vec![7; 1000];
    let bytes = wav_bytes(1000, 1, &source);
    let replaces = vec![Replace {
        word: String::from("w"),
        range: Range::parse("2.000-1.000").expect("valid range"),
    }];
    match process_wav(&bytes, &replaces, &Silence::new()) {
        Err(ProcessError::Resolve { index: 0, .. }) => {}
        other => panic!("expected a resolve error, got {:?}", other),
    }
}

#[test]
fn process_rejects_unsupported_bit_depth() {
    // An 8-bit file must be refused loudly.
    let spec = hound::WavSpec {
        channels: 1,
        sample_rate: 8000,
        bits_per_sample: 8,
        sample_format: hound::SampleFormat::Int,
    };
    let mut cursor = Cursor::new(Vec::new());
    let mut writer = hound::WavWriter::new(&mut cursor, spec).expect("writer");
    for _ in 0..100 {
        writer.write_sample(1i8).expect("sample");
    }
    writer.finalize().expect("finalize");
    let bytes = cursor.into_inner();
    assert_eq!(
        Err(ProcessError::UnsupportedFormat { bits_per_sample: 8 }),
        process_wav(&bytes, &Vec::new(), &Silence::new()).map(|_| ())
    );
    assert_eq!(
        Err(ProcessError::UnsupportedFormat { bits_per_sample: 8 }),
        silence_wav(&bytes).map(|_| ())
    );
}

/// A hand-built PCM WAV header declaring a zero sample rate, which
/// the codec's reader accepts (the redundant byte rate is consistent:
/// zero) but no writer could reproduce.
fn zero_rate_wav() -> Vec<u8> {
    let mut b: Vec<u8> = Vec::new();
    b.extend_from_slice(b"RIFF");
    b.extend_from_slice(&44u32.to_le_bytes());
    b.extend_from_slice(b"WAVE");
    b.extend_from_slice(b"fmt ");
    b.extend_from_slice(&16u32.to_le_bytes());
    b.extend_from_slice(&1u16.to_le_bytes()); // PCM
    b.extend_from_slice(&1u16.to_le_bytes()); // one channel
    b.extend_from_slice(&0u32.to_le_bytes()); // zero sample rate
    b.extend_from_slice(&0u32.to_le_bytes()); // zero byte rate
    b.extend_from_slice(&2u16.to_le_bytes()); // block align
    b.extend_from_slice(&16u16.to_le_bytes()); // bits per sample
    b.extend_from_slice(b"data");
    b.extend_from_slice(&8u32.to_le_bytes());
    for s in [1i16, 2, 3, 4] {
        b.extend_from_slice(&s.to_le_bytes());
    }
    b
}

#[test]
fn process_rejects_zero_sample_rate() {
    let bytes = zero_rate_wav();
    // The reader itself takes the file.
    assert!(hound::WavReader::new(Cursor::new(&bytes[..])).is_ok());
    assert_eq!(
        Err(ProcessError::InvalidFormat { sample_rate: 0, channels: 1 }),
        process_wav(&bytes, &Vec::new(), &Silence::new()).map(|_| ())
    );
    assert_eq!(
        Err(ProcessError::InvalidFormat { sample_rate: 0, channels: 1 }),
        silence_wav(&bytes).map(|_| ())
    );
}

/// A hand-built extensible PCM header: a one-byte sample container
/// holding sixteen valid bits at an enormous sample rate.  The reader
/// accepts it, but the writer's 32-bit byte-rate arithmetic could
/// not.
fn huge_rate_wav() -> Vec<u8> {
    let mut b: Vec<u8> = Vec::new();
    b.extend_from_slice(b"RIFF");
    b.extend_from_slice(&64u32.to_le_bytes());
    b.extend_from_slice(b"WAVE");
    b.extend_from_slice(b"fmt ");
    b.extend_from_slice(&40u32.to_le_bytes());
    b.extend_from_slice(&0xFFFEu16.to_le_bytes()); // extensible
    b.extend_from_slice(&1u16.to_le_bytes()); // one channel
    b.extend_from_slice(&0x8000_0000u32.to_le_bytes()); // sample rate
    b.extend_from_slice(&0x8000_0000u32.to_le_bytes()); // byte rate
    b.extend_from_slice(&1u16.to_le_bytes()); // block align
    b.extend_from_slice(&8u16.to_le_bytes()); // container bits
    b.extend_from_slice(&22u16.to_le_bytes()); // cbSize
    b.extend_from_slice(&16u16.to_le_bytes()); // valid bits
    b.extend_from_slice(&0u32.to_le_bytes()); // channel mask
    // KSDATAFORMAT_SUBTYPE_PCM
    b.extend_from_slice(&[
        0x01, 0x00, 0x00, 0x00, 0x00, 0x00, 0x10, 0x00, 0x80, 0x00, 0x00, 0xaa, 0x00, 0x38,
        0x9b, 0x71,
    ]);
    b.extend_from_slice(b"data");
    b.extend_from_slice(&4u32.to_le_bytes());
    b.extend_from_slice(&[1u8, 2, 3, 4]);
    b
}

#[test]
fn process_rejects_unencodable_sample_rate() {
    let bytes = huge_rate_wav();
    let reader = hound::WavReader::new(Cursor::new(&bytes[..])).expect("reader");
    assert_eq!(16, reader.spec().bits_per_sample);
    assert_eq!(0x8000_0000, reader.spec().sample_rate);
    assert_eq!(
        Err(ProcessError::InvalidFormat { sample_rate: 0x8000_0000, channels: 1 }),
        process_wav(&bytes, &Vec::new(), &Silence::new()).map(|_| ())
    );
    assert_eq!(
        Err(ProcessError::InvalidFormat { sample_rate: 0x8000_0000, channels: 1 }),
        silence_wav(&bytes).map(|_| ())
    );
}

#[test]
fn process_rejects_garbage() {
    let bytes = vec![1u8, 2, 3, 4, 5, 6, 7, 8];
    assert_eq!(
        Err(ProcessError::DecodeFailed),
        process_wav(&bytes, &Vec::new(), &Silence::new()).map(|_| ())
    );
}

#[test]
fn silence_replaces_whole_file() {
    let source: Vec<i16> = (0..2000).map(|i| (i % 321) as i16).collect();
    let bytes = wav_bytes(8000, 2, &source);
    let out = silence_wav(&bytes).expect("silence");
    let (spec, samples) = wav_samples(&out);
    assert_eq!(8000, spec.sample_rate);
    assert_eq!(2, spec.channels);
    assert_eq!(2000, samples.len());
    assert!(samples.iter().all(|s| *s == 0));
}

#[test]
fn silence_skips_existing_destination() {
    // The write happens only when the destination does not exist yet,
    // so a second run performs no write.
    assert!(silence_should_write(false));
    assert!(!silence_should_write(true));
}

#[test]
fn multiple_ranges_apply_in_order() {
    let source: Vec<i16> = vec![5; 4000];
    let bytes = wav_bytes(1000, 1, &source);
    let replaces = vec![
        Replace {
            word: String::from("a"),
            range: Range::parse("0.000-1.000").expect("valid range"),
        },
        Replace {
            word: String::from("b"),
            range: Range::parse("3.000-$").expect("valid range"),
        },
    ];
    let out = process_wav(&bytes, &replaces, &Silence::new()).expect("process");
    let (_, samples) = wav_samples(&out);
    for i in 0..1000 {
        assert_eq!(0, samples[i]);
    }
    for i in 1000..3000 {
        assert_eq!(5, samples[i]);
    }
    for i in 3000..4000 {
        assert_eq!(0, samples[i]);
    }
}
