use audio_buffer::settings::{AudioSetting, AudioSettings, SettingValue};

#[test]
fn set_then_get_returns_value() {
    let mut settings = AudioSettings::empty();
    settings.set("batch_size", 25u32);
    assert_eq!(settings.get::<u32>("batch_size"), Some(25));
    assert_eq!(settings.get::<u32>("missing"), None);
}

#[test]
fn set_overwrites_in_place() {
    let mut settings = AudioSettings::new((("a", 1u32), ("b", 2u32)));
    settings.set("a", 10u32);
    assert_eq!(settings.get::<u32>("a"), Some(10));
    assert_eq!(settings.get::<u32>("b"), Some(2));
    settings.set("c", 3u32);
    assert_eq!(settings.get::<u32>("c"), Some(3));
}

#[test]
fn mismatched_type_reads_as_none() {
    let settings = AudioSettings::new(("duration", 100u64));
    assert_eq!(settings.get::<u64>("duration"), Some(100));
    assert_eq!(settings.get::<u32>("duration"), None);
    assert_eq!(settings.get_or::<u32>("duration", 7), 7);
}

#[test]
fn get_or_falls_back_when_absent() {
    let settings = AudioSettings::new(vec![("x", 5u32), ("y", 6u32)]);
    assert_eq!(settings.get_or("x", 0u32), 5);
    assert_eq!(settings.get_or("z", 9u32), 9);
}

#[test]
fn set_m_applies_list_in_order() {
    let mut settings = AudioSettings::new(("x", 1u32));
    settings.set_m(vec![("x", 2u32), ("y", 3u32), ("x", 4u32)]);
    assert_eq!(settings.get::<u32>("x"), Some(4));
    assert_eq!(settings.get::<u32>("y"), Some(3));
}

#[test]
fn four_heterogeneous_settings() {
    let settings = AudioSettings::new((
        ("lower_threshold", 0.5f32.to_bits()),
        ("upper_limit", 1.0f32.to_bits()),
        ("zero_to_max_duration_ms", 100u64),
        ("batch_size", 100u32),
    ));
    assert_eq!(settings.get::<u32>("lower_threshold").map(f32::from_bits), Some(0.5));
    assert_eq!(settings.get::<u32>("upper_limit").map(f32::from_bits), Some(1.0));
    assert_eq!(settings.get::<u64>("zero_to_max_duration_ms"), Some(100));
    assert_eq!(settings.get::<u32>("batch_size"), Some(100));
}

#[test]
fn values_encode_little_endian() {
    assert_eq!(0x0102_0304u32.as_bytes(), vec![4, 3, 2, 1]);
    assert_eq!(u32::from_bytes(&vec![4, 3, 2, 1]), Some(0x0102_0304));
    assert_eq!(u32::from_bytes(&vec![4, 3, 2]), None);
    assert_eq!(0x0102_0304_0506_0708u64.as_bytes(), vec![8, 7, 6, 5, 4, 3, 2, 1]);
    assert_eq!(u64::from_bytes(&vec![8, 7, 6, 5, 4, 3, 2, 1]), Some(0x0102_0304_0506_0708));
}

#[test]
fn setting_holds_name_and_bytes() {
    let setting = AudioSetting::new("gain", 2u32);
    assert_eq!(setting.name, "gain");
    assert_eq!(setting.value, vec![2, 0, 0, 0]);
}

#[test]
fn raw_bytes_round_trip() {
    let mut settings = AudioSettings::empty();
    settings.set_bytes("blob", vec![1, 2, 3]);
    assert_eq!(settings.get_bytes("blob"), Some(&vec![1, 2, 3]));
    assert_eq!(settings.get::<u32>("blob"), None);
}

#[test]
fn default_store_is_empty() {
    let settings = AudioSettings::default();
    assert_eq!(settings.get::<u32>("anything"), None);
    assert_eq!(settings.get_bytes("anything"), None);
}
