use embedded_dsp::wav::{wav_pcm16_decode, wav_pcm16_encode, WavError};

fn header(channels: u16, rate: u32, bits: u16, format: u16) -> Vec<u8> {
    let mut h = Vec::new();
    h.extend_from_slice(b"RIFF");
    h.extend_from_slice(&0u32.to_le_bytes());
    h.extend_from_slice(b"WAVE");
    h.extend_from_slice(b"fmt ");
    h.extend_from_slice(&16u32.to_le_bytes());
    h.extend_from_slice(&format.to_le_bytes());
    h.extend_from_slice(&channels.to_le_bytes());
    h.extend_from_slice(&rate.to_le_bytes());
    h.extend_from_slice(&(rate * 2).to_le_bytes());
    h.extend_from_slice(&(2 * channels).to_le_bytes());
    h.extend_from_slice(&bits.to_le_bytes());
    h
}

#[test]
fn wav_export_and_import_round_trip() {
    let sample_rate = 48000;
    let original: Vec<f32> = (0..1024)
        .map(|i| (2.0 * core::f32::consts::PI * 440.0 * (i as f32) / (sample_rate as f32)).sin())
        .collect();
    let pcm: Vec<i16> =
        original.iter().map(|&s| (s.clamp(-1.0, 1.0) * 32767.0).round() as i16).collect();
    let bytes = wav_pcm16_encode(&pcm, sample_rate);
    assert_eq!(bytes.len(), 44 + 1024 * 2);
    assert_eq!(&bytes[0..4], b"RIFF");
    assert_eq!(&bytes[8..12], b"WAVE");
    assert_eq!(&bytes[12..16], b"fmt ");
    assert_eq!(&bytes[36..40], b"data");
    assert_eq!(u32::from_le_bytes(bytes[4..8].try_into().unwrap()), 36 + 2048);
    assert_eq!(u32::from_le_bytes(bytes[24..28].try_into().unwrap()), 48000);
    assert_eq!(u32::from_le_bytes(bytes[28..32].try_into().unwrap()), 96000);
    assert_eq!(u32::from_le_bytes(bytes[40..44].try_into().unwrap()), 2048);

    let (parsed, rate) = wav_pcm16_decode(&bytes).expect("valid file");
    assert_eq!(rate, sample_rate);
    assert_eq!(parsed, pcm);
    for (orig, p) in original.iter().zip(parsed.iter()) {
        assert!((orig - *p as f32 / 32767.0).abs() < 1e-3);
    }
}

#[test]
fn wav_encode_writes_little_endian_samples() {
    let bytes = wav_pcm16_encode(&[1, -1, i16::MIN, 0x1234], 8000);
    assert_eq!(&bytes[44..], &[1, 0, 0xff, 0xff, 0, 0x80, 0x34, 0x12]);
    assert_eq!(wav_pcm16_decode(&bytes), Ok((vec![1, -1, i16::MIN, 0x1234], 8000)));
    let empty = wav_pcm16_encode(&[], 44100);
    assert_eq!(empty.len(), 44);
    assert_eq!(wav_pcm16_decode(&empty), Ok((vec![], 44100)));
}

#[test]
fn wav_decode_reports_each_error() {
    assert_eq!(wav_pcm16_decode(&[0u8; 43]), Err(WavError::TooShort));
    assert_eq!(wav_pcm16_decode(&[0u8; 44]), Err(WavError::NotRiffWave));

    let mut short_fmt = header(1, 8000, 16, 1);
    short_fmt[16..20].copy_from_slice(&15u32.to_le_bytes());
    short_fmt.extend_from_slice(&[0u8; 8]);
    assert_eq!(wav_pcm16_decode(&short_fmt), Err(WavError::InvalidFmt));

    let mut float_fmt = header(1, 8000, 16, 3);
    float_fmt.extend_from_slice(&[0u8; 8]);
    assert_eq!(wav_pcm16_decode(&float_fmt), Err(WavError::NotPcm));

    let mut no_data = header(1, 8000, 16, 1);
    no_data.extend_from_slice(b"LIST");
    no_data.extend_from_slice(&4u32.to_le_bytes());
    no_data.extend_from_slice(&[0u8; 4]);
    assert_eq!(wav_pcm16_decode(&no_data), Err(WavError::MissingData));

    let mut eight_bit = header(1, 8000, 8, 1);
    eight_bit.extend_from_slice(b"data");
    eight_bit.extend_from_slice(&2u32.to_le_bytes());
    eight_bit.extend_from_slice(&[1, 2]);
    assert_eq!(wav_pcm16_decode(&eight_bit), Err(WavError::Not16Bit));
}

#[test]
fn wav_decode_walks_chunks_and_takes_the_first_channel() {
    // Stereo, with an extra chunk before the data; a partial frame at the end is dropped.
    let mut f = header(2, 22050, 16, 1);
    f.extend_from_slice(b"LIST");
    f.extend_from_slice(&2u32.to_le_bytes());
    f.extend_from_slice(&[9, 9]);
    f.extend_from_slice(b"data");
    f.extend_from_slice(&10u32.to_le_bytes());
    for v in [100i16, -100, 200, -200] {
        f.extend_from_slice(&v.to_le_bytes());
    }
    f.extend_from_slice(&[7, 7]);
    assert_eq!(wav_pcm16_decode(&f), Ok((vec![100, 200], 22050)));

    // A data chunk that claims more bytes than the file holds is cut at the end of the file.
    let mut g = header(1, 16000, 16, 1);
    g.extend_from_slice(b"data");
    g.extend_from_slice(&1000u32.to_le_bytes());
    g.extend_from_slice(&5i16.to_le_bytes());
    g.extend_from_slice(&(-6i16).to_le_bytes());
    assert_eq!(wav_pcm16_decode(&g), Ok((vec![5, -6], 16000)));

    // Without a fmt chunk the defaults hold: 48000 Hz, one channel, 16 bits.
    let mut h = Vec::new();
    h.extend_from_slice(b"RIFF");
    h.extend_from_slice(&0u32.to_le_bytes());
    h.extend_from_slice(b"WAVE");
    h.extend_from_slice(b"JUNK");
    h.extend_from_slice(&16u32.to_le_bytes());
    h.extend_from_slice(&[0u8; 16]);
    h.extend_from_slice(b"data");
    h.extend_from_slice(&4u32.to_le_bytes());
    h.extend_from_slice(&[1, 0, 2, 0]);
    assert_eq!(wav_pcm16_decode(&h), Ok((vec![1, 2], 48000)));
}

#[test]
fn wav_zero_channel_files_are_recognised() {
    let mut f = header(0, 8000, 16, 1);
    f.extend_from_slice(b"data");
    f.extend_from_slice(&2u32.to_le_bytes());
    f.extend_from_slice(&[1, 2]);
    assert!(embedded_dsp::wav::wav_pcm16_has_no_channels(&f));
    let ok = wav_pcm16_encode(&[1, 2], 8000);
    assert!(!embedded_dsp::wav::wav_pcm16_has_no_channels(&ok));
    assert!(!embedded_dsp::wav::wav_pcm16_has_no_channels(&[0u8; 10]));
}
