//! The amplifier's configuration: a fixed volume multiplier, a target peak
//! volume, or both, each held as the bit pattern of a 32-bit float.
use vstd::prelude::*;

use crate::sample::{is_peak_index, loudest_index};
use crate::settings::{lookup, with_setting, AudioSettings, SettingValue};

verus! {

/// Setting name of the fixed volume multiplier.
pub const SETTING_VOLUME_MULTIPLIER: &'static str = "volume_multiplier";

/// Setting name of the target peak volume.
pub const SETTING_VOLUME_TARGET: &'static str = "volume_target";

/// The float (as bits) stored under `name`, if it is present and decodes.
pub open spec fn stored_word(settings: AudioSettings, name: Seq<char>) -> Option<u32> {
    match lookup(settings@, name) {
        Some(b) => <u32 as SettingValue>::decoded(b),
        None => None,
    }
}

/// What the gain of one amplification is made of; the gain is
/// `target / peak` (when both are there) times `multiplier` (when it is
/// there), and 1 when neither is.
#[derive(Clone, Copy, Debug)]
pub struct GainFactors {
    /// The target peak volume and the buffer's loudest sample.
    pub target_and_peak: Option<(u32, u32)>,
    /// The fixed volume multiplier.
    pub multiplier: Option<u32>,
}

/// An effect that changes the volume of a buffer.
pub struct AudioAmplifier {
    settings: AudioSettings,
}

impl AudioAmplifier {
    /// The settings of the amplifier.
    pub closed spec fn settings_view(&self) -> AudioSettings {
        self.settings
    }

    /// Whether the settings are well formed.
    pub closed spec fn wf(&self) -> bool {
        self.settings.wf()
    }

    /// Create an amplifier that multiplies by the float whose bits are
    /// `volume_multiplier`.
    pub fn new(volume_multiplier: u32) -> (r: AudioAmplifier)
        ensures
            r.wf(),
            r.settings_view()@ == with_setting(
                Seq::empty(),
                SETTING_VOLUME_MULTIPLIER@,
                volume_multiplier.encoded(),
            ),
    {
        let mut settings = AudioSettings::empty();
        settings.set(SETTING_VOLUME_MULTIPLIER, volume_multiplier);
        AudioAmplifier { settings }
    }

    /// Create an amplifier that scales a buffer so that its loudest sample
    /// reaches the float whose bits are `target_volume`.
    pub fn new_maximizer(target_volume: u32) -> (r: AudioAmplifier)
        ensures
            r.wf(),
            r.settings_view()@ == with_setting(
                Seq::empty(),
                SETTING_VOLUME_TARGET@,
                target_volume.encoded(),
            ),
    {
        let mut settings = AudioSettings::empty();
        settings.set(SETTING_VOLUME_TARGET, target_volume);
        AudioAmplifier { settings }
    }

    /// The settings of the amplifier.
    pub fn settings(&self) -> (r: &AudioSettings)
        ensures
            *r == self.settings_view(),
    {
        &self.settings
    }

    /// The settings of the amplifier, for changing them.
    pub fn settings_mut(&mut self) -> (r: &mut AudioSettings)
        ensures
            *r == old(self).settings_view(),
            final(self).settings_view() == *final(r),
    {
        &mut self.settings
    }

    /// What the gain for `data` is made of: the target with the loudest
    /// sample of `data` (the last one of greatest magnitude) when a target is
    /// set and `data` is not empty, and the multiplier when one is set.
    pub fn gain_factors(&self, data: &[u32]) -> (r: GainFactors)
        ensures
            r.multiplier == stored_word(self.settings_view(), SETTING_VOLUME_MULTIPLIER@),
            match stored_word(self.settings_view(), SETTING_VOLUME_TARGET@) {
                None => r.target_and_peak is None,
                Some(t) => if data@.len() == 0 {
                    r.target_and_peak is None
                } else {
                    exists|i: int|
                        is_peak_index(data@, 0, data@.len() as int, i) && r.target_and_peak == Some(
                            (t, data@[i]),
                        )
                },
            },
    {
        let target_and_peak = match self.settings.get::<u32>(SETTING_VOLUME_TARGET) {
            None => None,
            Some(t) => match loudest_index(data, 0, data.len()) {
                None => None,
                Some(i) => Some((t, data[i])),
            },
        };
        let multiplier = self.settings.get::<u32>(SETTING_VOLUME_MULTIPLIER);
        GainFactors { target_and_peak, multiplier }
    }
}

} // verus!
