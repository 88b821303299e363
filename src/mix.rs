//! The sample-word steps of mixing: growing a buffer with silence to fit a
//! longer addition, and clamping the mixed region to `[-1.0, 1.0]`.
use vstd::prelude::*;

use crate::buffer::AudioBuffer;
use crate::sample::{is_nan, is_negative, magnitude};

verus! {

/// The bits of `1.0`.
pub const ONE_BITS: u32 = 0x3f80_0000;

/// The bits of `-1.0`.
pub const MINUS_ONE_BITS: u32 = 0xbf80_0000;

/// The bits of `+0.0`, a silent sample.
pub const SILENCE_BITS: u32 = 0;

/// A sample clamped to `[-1.0, 1.0]` as `s.max(-1.0).min(1.0)` does it: a
/// NaN becomes `-1.0`.
pub open spec fn clamp_unit(s: u32) -> u32 {
    if is_nan(s) {
        MINUS_ONE_BITS
    } else if magnitude(s) > ONE_BITS {
        if is_negative(s) {
            MINUS_ONE_BITS
        } else {
            ONE_BITS
        }
    } else {
        s
    }
}

/// A clamped sample is a number of magnitude at most 1.
pub proof fn lemma_clamp_in_unit_range(s: u32)
    ensures
        !is_nan(clamp_unit(s)),
        magnitude(clamp_unit(s)) <= ONE_BITS,
{
    assert(magnitude(MINUS_ONE_BITS) == ONE_BITS) by (bit_vector);
    assert(magnitude(ONE_BITS) == ONE_BITS) by (bit_vector);
}

impl AudioBuffer {
    /// Append silent samples until the buffer holds at least `len` samples.
    pub fn grow_with_silence(&mut self, len: usize)
        ensures
            final(self).channel_count == old(self).channel_count,
            final(self).sample_rate == old(self).sample_rate,
            len <= old(self).data@.len() ==> final(self).data@ == old(self).data@,
            len > old(self).data@.len() ==> final(self).data@ == old(self).data@ + Seq::new(
                (len - old(self).data@.len()) as nat,
                |i: int| SILENCE_BITS,
            ),
    {
        let ghost before = self.data@;
        let start = self.data.len();
        let mut i: usize = start;
        while i < len
            invariant
                start == before.len(),
                start <= i <= len || (len < start && i == start),
                self.data@ == before + Seq::new((i - start) as nat, |k: int| SILENCE_BITS),
                self.channel_count == old(self).channel_count,
                self.sample_rate == old(self).sample_rate,
            decreases len - i,
        {
            self.data.push(SILENCE_BITS);
            i += 1;
            assert(self.data@ =~= before + Seq::new((i - start) as nat, |k: int| SILENCE_BITS));
        }
        assert(before + Seq::new(0, |k: int| SILENCE_BITS) =~= before);
    }

    /// Clamp the first `len` samples to `[-1.0, 1.0]`.
    pub fn clamp_to_unit(&mut self, len: usize)
        requires
            len <= old(self).data@.len(),
        ensures
            final(self).channel_count == old(self).channel_count,
            final(self).sample_rate == old(self).sample_rate,
            final(self).data@.len() == old(self).data@.len(),
            forall|i: int| 0 <= i < len ==> #[trigger] final(self).data@[i] == clamp_unit(old(self).data@[i]),
            forall|i: int| len <= i < old(self).data@.len() ==> #[trigger] final(self).data@[i] == old(self).data@[i],
    {
        let ghost before = self.data@;
        let mut i: usize = 0;
        while i < len
            invariant
                len <= before.len(),
                self.data@.len() == before.len(),
                i <= len,
                forall|k: int| 0 <= k < i ==> #[trigger] self.data@[k] == clamp_unit(before[k]),
                forall|k: int| i <= k < before.len() ==> #[trigger] self.data@[k] == before[k],
                self.channel_count == old(self).channel_count,
                self.sample_rate == old(self).sample_rate,
            decreases len - i,
        {
            let s = self.data[i];
            let m = s & 0x7fff_ffff;
            let clamped = if m > 0x7f80_0000 {
                MINUS_ONE_BITS
            } else if m > ONE_BITS {
                if s >= 0x8000_0000 {
                    MINUS_ONE_BITS
                } else {
                    ONE_BITS
                }
            } else {
                s
            };
            self.data.set(i, clamped);
            i += 1;
        }
    }
}

} // verus!
