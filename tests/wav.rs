use audio_buffer::buffer::AudioBuffer;
use audio_buffer::wav::{from_wav_bytes, parse_any_chunk, DataFormat, WavError, WavSample};

const RIFF_HEADER_SIZE: usize = 12; // "RIFF" + size + "WAVE".
const FMT_CHUNK_SIZE: usize = 8 + 18; // Id + size + payload.
const JUNK_CHUNK_SIZE: usize = 8 + 3 + 1; // Id + size + payload + pad.
const DATA1_CHUNK_SIZE: usize = 8 + 4;
const DATA2_CHUNK_SIZE: usize = 8 + 2 + 2; // Includes 1 byte padding, which should move the cursor two bytes.

fn flawed_wav_bytes() -> Vec<u8> {
    let bytes: [&[u8]; 24] = [
        b"RIFF",
        &(65_u32).to_le_bytes(),
        b"WAVE",
        // Data format chunk (usually 16 bytes, but this one is 18).
        b"fmt ",
        &(18_u32).to_le_bytes(),
        &(1_u16).to_le_bytes(), // PCM
        &(1_u16).to_le_bytes(), // Mono
        &(48000_u32).to_le_bytes(),
        &(96000_u32).to_le_bytes(),
        &(2_u16).to_le_bytes(),  // Block align
        &(16_u16).to_le_bytes(), // Bits
        &(0_u16).to_le_bytes(),  // Padding bytes
        // JUNK chunk with odd size (forced padding).
        b"JUNK",
        &(3_u32).to_le_bytes(),
        &[1, 2, 3],
        &[0], // Padding byte
        // First data chunk (2 samples).
        b"data",
        &(4_u32).to_le_bytes(),
        &(0_i16).to_le_bytes(),
        &(16384_i16).to_le_bytes(),
        // Second data chunk (1 sample).
        b"data",
        &(3_u32).to_le_bytes(),
        &(-16384_i16).to_le_bytes(),
        &[0], // Padding byte
    ];
    bytes.into_iter().flatten().cloned().collect()
}

#[test]
fn correctly_parses_wav() {
    let bytes: Vec<u8> = flawed_wav_bytes();
    let mut cursor: usize = 0;
    let mut data_format: Option<DataFormat> = None;
    let mut audio: Vec<WavSample> = Vec::new();

    // Parse RIFF.
    assert_eq!(&bytes[0..4], b"RIFF");
    assert_eq!(&bytes[8..12], b"WAVE");
    cursor += 12;
    assert_eq!(cursor, RIFF_HEADER_SIZE);

    // Parse DataFormat.
    assert!(parse_any_chunk(&bytes, &mut cursor, &mut data_format, &mut audio).unwrap());
    assert_eq!(cursor, RIFF_HEADER_SIZE + FMT_CHUNK_SIZE);

    // Parse Junk (odd padded).
    assert!(parse_any_chunk(&bytes, &mut cursor, &mut data_format, &mut audio).unwrap());
    assert_eq!(cursor, RIFF_HEADER_SIZE + FMT_CHUNK_SIZE + JUNK_CHUNK_SIZE);

    // Parse first data chunk.
    assert!(parse_any_chunk(&bytes, &mut cursor, &mut data_format, &mut audio).unwrap());
    assert_eq!(cursor, RIFF_HEADER_SIZE + FMT_CHUNK_SIZE + JUNK_CHUNK_SIZE + DATA1_CHUNK_SIZE);

    // Parse second data chunk (odd padded).
    assert!(parse_any_chunk(&bytes, &mut cursor, &mut data_format, &mut audio).unwrap());
    assert_eq!(
        cursor,
        RIFF_HEADER_SIZE + FMT_CHUNK_SIZE + JUNK_CHUNK_SIZE + DATA1_CHUNK_SIZE + DATA2_CHUNK_SIZE
    );

    // Do not error when the data runs out.
    assert!(!parse_any_chunk(&bytes, &mut cursor, &mut data_format, &mut audio).unwrap());

    // Audio length correctness.
    assert_eq!(audio.len(), 3);
}

#[test]
fn decodes_pcm16_mono_file() {
    let contents = from_wav_bytes(&flawed_wav_bytes()).unwrap();
    assert_eq!(contents.channel_count, 1);
    assert_eq!(contents.sample_rate, 48000);
    assert_eq!(
        contents.samples,
        vec![WavSample::Pcm16(0), WavSample::Pcm16(16384), WavSample::Pcm16(-16384)]
    );
}

fn chunk(id: &[u8; 4], payload: &[u8]) -> Vec<u8> {
    let mut out = id.to_vec();
    out.extend_from_slice(&(payload.len() as u32).to_le_bytes());
    out.extend_from_slice(payload);
    if payload.len() % 2 == 1 {
        out.push(0);
    }
    out
}

fn container(chunks: &[Vec<u8>]) -> Vec<u8> {
    let body: Vec<u8> = chunks.iter().flatten().cloned().collect();
    let mut out = b"RIFF".to_vec();
    out.extend_from_slice(&((body.len() + 4) as u32).to_le_bytes());
    out.extend_from_slice(b"WAVE");
    out.extend_from_slice(&body);
    out
}

fn fmt_payload(format: u16, channels: u16, rate: u32) -> Vec<u8> {
    let mut p = Vec::new();
    p.extend_from_slice(&format.to_le_bytes());
    p.extend_from_slice(&channels.to_le_bytes());
    p.extend_from_slice(&rate.to_le_bytes());
    p.extend_from_slice(&(rate * channels as u32 * 2).to_le_bytes());
    p.extend_from_slice(&(channels * 2).to_le_bytes());
    p.extend_from_slice(&16_u16.to_le_bytes());
    p
}

#[test]
fn pcm16_scenario_decodes_to_zero_and_half() {
    let mut data = Vec::new();
    data.extend_from_slice(&0_i16.to_le_bytes());
    data.extend_from_slice(&16384_i16.to_le_bytes());
    let bytes = container(&[chunk(b"fmt ", &fmt_payload(1, 1, 48000)), chunk(b"data", &data)]);
    let contents = from_wav_bytes(&bytes).unwrap();
    assert_eq!(contents.channel_count, 1);
    assert_eq!(contents.sample_rate, 48000);
    assert_eq!(contents.samples, vec![WavSample::Pcm16(0), WavSample::Pcm16(16384)]);
    let as_float: Vec<f32> = contents
        .samples
        .iter()
        .map(|s| match s {
            WavSample::Pcm16(v) => *v as f32 / 32767.0,
            WavSample::Float32(bits) => f32::from_bits(*bits),
        })
        .collect();
    assert_eq!(as_float[0], 0.0);
    assert!((as_float[1] - 0.5).abs() < 0.001);
}

#[test]
fn round_trip_keeps_layout_and_samples() {
    let samples: Vec<u32> = [0.0f32, 0.25, -0.5, 1.0, -1.0, 0.125].iter().map(|v| v.to_bits()).collect();
    let buffer = AudioBuffer::new(samples.clone(), 3, 22050);
    let bytes = buffer.to_wav_bytes();
    let contents = from_wav_bytes(&bytes).unwrap();
    assert_eq!(contents.channel_count, 3);
    assert_eq!(contents.sample_rate, 22050);
    assert_eq!(contents.samples, samples.iter().map(|b| WavSample::Float32(*b)).collect::<Vec<_>>());
}

#[test]
fn encoder_writes_exact_layout() {
    let buffer = AudioBuffer::new(vec![0x3f80_0000, 0xbf00_0000], 2, 100);
    let bytes = buffer.to_wav_bytes();
    let mut expected = Vec::new();
    expected.extend_from_slice(b"RIFF");
    expected.extend_from_slice(&(4u32 + 24 + 8 + 8).to_le_bytes());
    expected.extend_from_slice(b"WAVE");
    expected.extend_from_slice(b"fmt ");
    expected.extend_from_slice(&16u32.to_le_bytes());
    expected.extend_from_slice(&3u16.to_le_bytes());
    expected.extend_from_slice(&2u16.to_le_bytes());
    expected.extend_from_slice(&100u32.to_le_bytes());
    expected.extend_from_slice(&800u32.to_le_bytes());
    expected.extend_from_slice(&8u16.to_le_bytes());
    expected.extend_from_slice(&32u16.to_le_bytes());
    expected.extend_from_slice(b"data");
    expected.extend_from_slice(&8u32.to_le_bytes());
    expected.extend_from_slice(&0x3f80_0000u32.to_le_bytes());
    expected.extend_from_slice(&0xbf00_0000u32.to_le_bytes());
    assert_eq!(bytes, expected);
}

#[test]
fn empty_buffer_encodes_one_empty_data_chunk() {
    let buffer = AudioBuffer::new(Vec::new(), 1, 8000);
    let bytes = buffer.to_wav_bytes();
    assert_eq!(bytes.len(), 12 + 24 + 8);
    assert_eq!(&bytes[36..40], b"data");
    assert_eq!(&bytes[40..44], &0u32.to_le_bytes());
    let contents = from_wav_bytes(&bytes).unwrap();
    assert!(contents.samples.is_empty());
    assert_eq!(contents.channel_count, 1);
}

#[test]
fn missing_riff_is_malformed() {
    let mut bytes = container(&[]);
    bytes[0] = b'X';
    assert!(matches!(from_wav_bytes(&bytes), Err(WavError::MalformedContainer)));
}

#[test]
fn missing_wave_is_malformed() {
    let mut bytes = container(&[]);
    bytes[8] = b'X';
    assert!(matches!(from_wav_bytes(&bytes), Err(WavError::MalformedContainer)));
}

#[test]
fn short_input_is_unexpected_end() {
    assert!(matches!(from_wav_bytes(&b"RI".to_vec()), Err(WavError::UnexpectedEnd)));
    assert!(matches!(from_wav_bytes(&b"RIFF\0\0".to_vec()), Err(WavError::UnexpectedEnd)));
}

#[test]
fn truncated_chunk_is_unexpected_end() {
    let mut bytes = container(&[chunk(b"fmt ", &fmt_payload(3, 1, 100))]);
    bytes.truncate(bytes.len() - 2);
    assert!(matches!(from_wav_bytes(&bytes), Err(WavError::UnexpectedEnd)));
    // A chunk header cut after its identifier.
    let mut bytes = container(&[]);
    bytes.extend_from_slice(b"data");
    assert!(matches!(from_wav_bytes(&bytes), Err(WavError::UnexpectedEnd)));
}

#[test]
fn data_before_format_is_unknown_format() {
    let bytes = container(&[chunk(b"data", &[0, 0, 0, 0])]);
    assert!(matches!(from_wav_bytes(&bytes), Err(WavError::UnknownAudioFormat)));
}

#[test]
fn other_format_is_unsupported() {
    let bytes = container(&[chunk(b"fmt ", &fmt_payload(2, 1, 100)), chunk(b"data", &[0, 0])]);
    assert!(matches!(from_wav_bytes(&bytes), Err(WavError::UnsupportedAudioFormat(2))));
}

#[test]
fn no_format_chunk_uses_defaults() {
    let bytes = container(&[chunk(b"JUNK", &[1, 2, 3])]);
    let contents = from_wav_bytes(&bytes).unwrap();
    assert_eq!(contents.channel_count, 2);
    assert_eq!(contents.sample_rate, 48000);
    assert!(contents.samples.is_empty());
}

#[test]
fn unknown_chunks_are_skipped_and_data_chunks_concatenate() {
    let first: Vec<u8> = 0.5f32.to_bits().to_le_bytes().to_vec();
    let mut second: Vec<u8> = (-0.25f32).to_bits().to_le_bytes().to_vec();
    second.extend_from_slice(&[9, 9, 9]); // trailing bytes that make no sample
    let bytes = container(&[
        chunk(b"fmt ", &fmt_payload(3, 2, 1000)),
        chunk(b"LIST", &[1, 2, 3, 4, 5]),
        chunk(b"data", &first),
        chunk(b"data", &second),
    ]);
    let contents = from_wav_bytes(&bytes).unwrap();
    assert_eq!(contents.channel_count, 2);
    assert_eq!(contents.sample_rate, 1000);
    assert_eq!(
        contents.samples,
        vec![WavSample::Float32(0.5f32.to_bits()), WavSample::Float32((-0.25f32).to_bits())]
    );
}

#[test]
fn odd_pcm_payload_drops_last_byte() {
    let bytes = container(&[chunk(b"fmt ", &fmt_payload(1, 1, 100)), chunk(b"data", &[0xff, 0x7f, 0x01])]);
    let contents = from_wav_bytes(&bytes).unwrap();
    assert_eq!(contents.samples, vec![WavSample::Pcm16(32767)]);
}

#[test]
fn short_format_chunk_is_unexpected_end() {
    let bytes = container(&[chunk(b"fmt ", &[3, 0, 1, 0])]);
    assert!(matches!(from_wav_bytes(&bytes), Err(WavError::UnexpectedEnd)));
}

#[test]
fn encoder_cuts_fields_to_their_width() {
    let buffer = AudioBuffer::new(Vec::new(), 65537, 0x8000_0000);
    let bytes = buffer.to_wav_bytes();
    // Channel count field: 65537 mod 2^16.
    assert_eq!(&bytes[22..24], &1u16.to_le_bytes());
    assert_eq!(&bytes[24..28], &0x8000_0000u32.to_le_bytes());
    // Byte rate: 2^31 * 65537 * 4 mod 2^32.
    assert_eq!(&bytes[28..32], &0u32.to_le_bytes());
    // Block alignment: 65537 * 4 mod 2^16.
    assert_eq!(&bytes[32..34], &4u16.to_le_bytes());
}
