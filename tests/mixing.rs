use audio_buffer::buffer::AudioBuffer;

fn words(values: &[f32]) -> Vec<u32> {
    values.iter().map(|v| v.to_bits()).collect()
}

#[test]
fn clamp_limits_loud_sums() {
    let mut buffer = AudioBuffer::new(words(&[1.5, -2.0, 0.5, -1.0, f32::INFINITY, 3.0]), 1, 100);
    buffer.clamp_to_unit(5);
    assert_eq!(buffer.data(), &words(&[1.0, -1.0, 0.5, -1.0, 1.0, 3.0])[..]);
}

#[test]
fn clamp_turns_nan_into_minus_one() {
    let mut buffer = AudioBuffer::new(vec![f32::NAN.to_bits()], 1, 100);
    buffer.clamp_to_unit(1);
    assert_eq!(buffer.data(), &words(&[-1.0])[..]);
}

#[test]
fn grow_pads_with_silence() {
    let mut buffer = AudioBuffer::new(words(&[0.25]), 1, 100);
    buffer.grow_with_silence(3);
    assert_eq!(buffer.data(), &words(&[0.25, 0.0, 0.0])[..]);
    buffer.grow_with_silence(2);
    assert_eq!(buffer.data().len(), 3);
}

#[test]
fn empty_addition_changes_nothing() {
    let original = words(&[0.5, 1.5, -3.0]);
    let mut buffer = AudioBuffer::new(original.clone(), 1, 100);
    // No addition: the longest addition has no samples.
    buffer.grow_with_silence(0);
    buffer.clamp_to_unit(0);
    assert_eq!(buffer.data(), &original[..]);
}
