use spectrogram::wav::{WavError, WAV};

/// A valid 44-byte WAV header for 16-bit PCM with the given channel count and
/// per-channel sample count.
fn header(nchannels: u16, samples_per_channel: u32) -> Vec<u8> {
    let data_size = samples_per_channel * nchannels as u32 * 2;
    let byte_rate = 44_100 * nchannels as u32 * 2;
    let block_align = nchannels * 2;
    let mut b = Vec::new();
    b.extend_from_slice(b"RIFF");
    b.extend_from_slice(&(36 + data_size).to_le_bytes());
    b.extend_from_slice(b"WAVE");
    b.extend_from_slice(b"fmt ");
    b.extend_from_slice(&16u32.to_le_bytes());
    b.extend_from_slice(&1u16.to_le_bytes());
    b.extend_from_slice(&nchannels.to_le_bytes());
    b.extend_from_slice(&44_100u32.to_le_bytes());
    b.extend_from_slice(&byte_rate.to_le_bytes());
    b.extend_from_slice(&block_align.to_le_bytes());
    b.extend_from_slice(&16u16.to_le_bytes());
    b.extend_from_slice(b"data");
    b.extend_from_slice(&data_size.to_le_bytes());
    b
}

fn with_samples(nchannels: u16, samples_per_channel: u32, interleaved: &[i16]) -> Vec<u8> {
    let mut b = header(nchannels, samples_per_channel);
    for s in interleaved {
        b.extend_from_slice(&s.to_le_bytes());
    }
    b
}

#[test]
fn parse_mono_fields() {
    let bytes = with_samples(1, 2, &[100, -5]);
    let w = WAV::from(&bytes).unwrap();
    assert_eq!(w.riff_header.riff, "RIFF");
    assert_eq!(w.riff_header.file_size, 40);
    assert_eq!(w.riff_header.four_cc, "WAVE");
    assert_eq!(w.fmt_header.fmt, "fmt ");
    assert_eq!(w.fmt_header.header_size, 16);
    assert_eq!(w.fmt_header.format, 1);
    assert_eq!(w.fmt_header.nchannels, 1);
    assert_eq!(w.fmt_header.sample_rate, 44_100);
    assert_eq!(w.fmt_header.byte_rate, 88_200);
    assert_eq!(w.fmt_header.block_align, 2);
    assert_eq!(w.fmt_header.bits_per_sample, 16);
    assert_eq!(w.data_header.data, "data");
    assert_eq!(w.data_header.size, 4);
    assert_eq!(w.channels, vec![vec![100, -5]]);
}

#[test]
fn parse_stereo_interleave() {
    let bytes = with_samples(2, 2, &[1, 2, 3, 4]);
    let w = WAV::from(&bytes).unwrap();
    assert_eq!(w.channels, vec![vec![1, 3], vec![2, 4]]);
}

#[test]
fn parse_empty_data() {
    let bytes = with_samples(1, 0, &[]);
    let w = WAV::from(&bytes).unwrap();
    assert_eq!(w.channels, vec![Vec::<i16>::new()]);
}

#[test]
fn error_truncated_header() {
    let bytes = vec![0u8; 10];
    match WAV::from(&bytes) {
        Err(e) => assert_eq!(e, WavError::TruncatedHeader),
        Ok(_) => panic!("expected an error"),
    }
}

#[test]
fn error_invalid_riff_tag() {
    let mut bytes = with_samples(1, 1, &[0]);
    bytes[0] = 0xFF;
    match WAV::from(&bytes) {
        Err(e) => assert_eq!(e, WavError::InvalidTagEncoding),
        Ok(_) => panic!("expected an error"),
    }
}

#[test]
fn error_invalid_fmt_tag() {
    let mut bytes = with_samples(1, 1, &[0]);
    bytes[12] = 0xFF;
    match WAV::from(&bytes) {
        Err(e) => assert_eq!(e, WavError::InvalidTagEncoding),
        Ok(_) => panic!("expected an error"),
    }
}

#[test]
fn error_file_too_large() {
    let mut bytes = with_samples(1, 1, &[0]);
    bytes[4..8].copy_from_slice(&2_000_000u32.to_le_bytes());
    match WAV::from(&bytes) {
        Err(e) => assert_eq!(e, WavError::FileTooLarge { file_size: 2_000_000 }),
        Ok(_) => panic!("expected an error"),
    }
}

#[test]
fn error_unsupported_bits() {
    let mut bytes = with_samples(1, 1, &[0]);
    bytes[34..36].copy_from_slice(&8u16.to_le_bytes());
    match WAV::from(&bytes) {
        Err(e) => assert_eq!(e, WavError::UnsupportedBitsPerSample { bits_per_sample: 8 }),
        Ok(_) => panic!("expected an error"),
    }
}

#[test]
fn error_missing_format_info() {
    let mut bytes = with_samples(1, 1, &[0]);
    bytes[24..28].copy_from_slice(&0u32.to_le_bytes());
    match WAV::from(&bytes) {
        Err(e) => assert_eq!(e, WavError::MissingFormatInfo),
        Ok(_) => panic!("expected an error"),
    }
}

#[test]
fn error_sampler_chunk() {
    let mut bytes = with_samples(1, 1, &[0]);
    bytes[36..40].copy_from_slice(b"smpl");
    match WAV::from(&bytes) {
        Err(e) => assert_eq!(e, WavError::SamplerChunk),
        Ok(_) => panic!("expected an error"),
    }
}

#[test]
fn error_list_chunk() {
    let mut bytes = with_samples(1, 1, &[0]);
    bytes[36..40].copy_from_slice(b"LIST");
    match WAV::from(&bytes) {
        Err(e) => assert_eq!(e, WavError::ListChunk),
        Ok(_) => panic!("expected an error"),
    }
}

#[test]
fn error_truncated_sample() {
    let mut bytes = with_samples(1, 1, &[7]);
    bytes.push(0xAB);
    match WAV::from(&bytes) {
        Err(e) => assert_eq!(e, WavError::TruncatedSample),
        Ok(_) => panic!("expected an error"),
    }
}

#[test]
fn error_sample_count_mismatch() {
    let mut bytes = header(1, 3);
    bytes.extend_from_slice(&5i16.to_le_bytes());
    bytes.extend_from_slice(&6i16.to_le_bytes());
    match WAV::from(&bytes) {
        Err(e) => assert_eq!(e, WavError::SampleCountMismatch { expected: 3, found: 2 }),
        Ok(_) => panic!("expected an error"),
    }
}

#[test]
fn lossless_write_after_parse() {
    let bytes = with_samples(2, 3, &[1, -1, 2, -2, 3, -3]);
    let w = WAV::from(&bytes).unwrap();
    assert!(w.well_formed());
    let mut out = Vec::new();
    w.write(&mut out);
    assert_eq!(out, bytes);
}

#[test]
fn parse_after_write() {
    let bytes = with_samples(2, 2, &[10, 20, 30, 40]);
    let w = WAV::from(&bytes).unwrap();
    let mut out = Vec::new();
    w.write(&mut out);
    let w2 = WAV::from(&out).unwrap();
    assert_eq!(w2.channels, vec![vec![10, 30], vec![20, 40]]);
    assert_eq!(w2.riff_header.riff, "RIFF");
    assert_eq!(w2.data_header.size, 8);
}

#[test]
fn uneven_channels_parse_but_are_not_well_formed() {
    // Three whole samples over two channels: channel 0 gets two of them,
    // channel 1 one, and the data header announces the two that channel 0
    // holds.  The parse succeeds, but the stream cannot be written back.
    let mut bytes = header(2, 1);
    bytes[40..44].copy_from_slice(&8u32.to_le_bytes());
    bytes.extend_from_slice(&1i16.to_le_bytes());
    bytes.extend_from_slice(&2i16.to_le_bytes());
    bytes.extend_from_slice(&3i16.to_le_bytes());
    let w = WAV::from(&bytes).unwrap();
    assert_eq!(w.channels, vec![vec![1, 3], vec![2]]);
    assert!(!w.well_formed());
}
