use audio_buffer::buffer::AudioBuffer;

fn words(values: impl Iterator<Item = f32>) -> Vec<u32> {
    values.map(|v| v.to_bits()).collect()
}

fn threshold(t: f32) -> u32 {
    t.to_bits()
}

#[test]
fn trim_start() {
    let raw_audio: Vec<u32> = words((0..100).map(|index| index as f32 * 0.01));
    let mut audio: AudioBuffer = AudioBuffer::new(raw_audio.clone(), 1, 100);
    audio.trim_start(threshold(0.2));
    assert_eq!(audio.data(), &raw_audio[21..]);
}

#[test]
fn trim_start_negative_wave() {
    let raw_audio: Vec<u32> = words((0..100).map(|index| index as f32 * -0.01));
    let mut audio: AudioBuffer = AudioBuffer::new(raw_audio.clone(), 1, 100);
    audio.trim_start(threshold(0.2));
    assert_eq!(audio.data(), &raw_audio[21..]);
}

#[test]
fn trim_start_negative_threshold() {
    let raw_audio: Vec<u32> = words((0..100).map(|index| index as f32 * 0.01));
    let mut audio: AudioBuffer = AudioBuffer::new(raw_audio.clone(), 1, 100);
    audio.trim_start(threshold(-0.2));
    assert_eq!(audio.data(), &raw_audio[21..]);
}

#[test]
fn trim_start_multiple_channels() {
    let raw_audio: Vec<u32> = words((0..100).map(|index| [index as f32 * 0.01; 3]).flatten());
    let mut audio: AudioBuffer = AudioBuffer::new(raw_audio.clone(), 3, 100);
    audio.trim_start(threshold(-0.2));
    assert_eq!(audio.data(), &raw_audio[21 * 3..]);
}

#[test]
fn trim_start_asymmetrical_channels() {
    let raw_audio: Vec<u32> = words(
        (0..100)
            .map(|index| [index as f32 * 0.01, index as f32 * 0.003, index as f32 * 0.02])
            .flatten(),
    );
    let mut audio: AudioBuffer = AudioBuffer::new(raw_audio.clone(), 3, 100);
    audio.trim_start(threshold(-0.2));
    assert_eq!(audio.data(), &raw_audio[11 * 3..]);
}

#[test]
fn trim_end() {
    let raw_audio: Vec<u32> = words((0..100).map(|index| (100 - index) as f32 * 0.01));
    let mut audio: AudioBuffer = AudioBuffer::new(raw_audio.clone(), 1, 100);
    audio.trim_end(threshold(0.2));
    assert_eq!(audio.data(), &raw_audio[..80]);
}

#[test]
fn trim_end_negative_wave() {
    let raw_audio: Vec<u32> = words((0..100).map(|index| (100 - index) as f32 * -0.01));
    let mut audio: AudioBuffer = AudioBuffer::new(raw_audio.clone(), 1, 100);
    audio.trim_end(threshold(0.2));
    assert_eq!(audio.data(), &raw_audio[..80]);
}

#[test]
fn trim_end_negative_threshold() {
    let raw_audio: Vec<u32> = words((0..100).map(|index| (100 - index) as f32 * 0.01));
    let mut audio: AudioBuffer = AudioBuffer::new(raw_audio.clone(), 1, 100);
    audio.trim_end(threshold(-0.2));
    assert_eq!(audio.data(), &raw_audio[..80]);
}

#[test]
fn trim_end_multiple_channels() {
    let raw_audio: Vec<u32> = words((0..100).map(|index| [(100 - index) as f32 * 0.01; 3]).flatten());
    let mut audio: AudioBuffer = AudioBuffer::new(raw_audio.clone(), 3, 100);
    audio.trim_end(threshold(-0.2));
    assert_eq!(audio.data(), &raw_audio[..80 * 3]);
}

#[test]
fn trim_end_asymmetrical_channels() {
    let raw_audio: Vec<u32> = words(
        (0..100)
            .map(|index| {
                [
                    (100 - index) as f32 * 0.01,
                    (100 - index) as f32 * 0.003,
                    (100 - index) as f32 * 0.02,
                ]
            })
            .flatten(),
    );
    let mut audio: AudioBuffer = AudioBuffer::new(raw_audio.clone(), 3, 100);
    audio.trim_end(threshold(-0.2));
    assert_eq!(audio.data(), &raw_audio[..90 * 3]);
}

#[test]
fn trim_all_quiet_gives_empty() {
    let raw_audio: Vec<u32> = words([0.1f32, -0.2, 0.0, 0.2, -0.05, 0.15].into_iter());
    let mut audio = AudioBuffer::new(raw_audio, 2, 100);
    audio.trim(threshold(0.2));
    assert!(audio.data().is_empty());
    assert_eq!(audio.channel_count(), 2);
}

#[test]
fn trim_all_loud_keeps_everything() {
    let raw_audio: Vec<u32> = words([0.5f32, -0.3, 0.9, -1.0].into_iter());
    let mut audio = AudioBuffer::new(raw_audio.clone(), 2, 100);
    audio.trim(threshold(0.25));
    assert_eq!(audio.data(), &raw_audio[..]);
}

#[test]
fn trim_both_ends_keeps_whole_frames() {
    let raw_audio: Vec<u32> = words([0.0f32, 0.0, 0.0, 0.5, 0.1, 0.1, 0.6, 0.0, 0.0, 0.0].into_iter());
    let mut audio = AudioBuffer::new(raw_audio.clone(), 2, 100);
    audio.trim(threshold(0.2));
    assert_eq!(audio.data(), &raw_audio[2..8]);
}

#[test]
fn trim_empty_buffer_is_a_no_op() {
    let mut audio = AudioBuffer::new(Vec::new(), 1, 100);
    audio.trim(threshold(0.2));
    assert!(audio.data().is_empty());
}

#[test]
fn trim_nan_counts_as_quiet() {
    let raw_audio: Vec<u32> = vec![f32::NAN.to_bits(), 0.5f32.to_bits(), f32::NAN.to_bits()];
    let mut audio = AudioBuffer::new(raw_audio.clone(), 1, 100);
    audio.trim(threshold(0.2));
    assert_eq!(audio.data(), &raw_audio[1..2]);
}
