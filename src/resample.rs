//! Nearest-neighbour resampling: changing the channel count and the sample
//! rate of a buffer by picking existing samples, without interpolation.
//!
//! Destination frame `j` takes source frame `round(j * source_rate /
//! target_rate)` (rounding halves up, and never past the last frame), and
//! destination channel `c` takes source channel `c mod source_channels`.
use vstd::prelude::*;

use crate::buffer::AudioBuffer;

verus! {

/// `round(frames * target_rate / source_rate)`, rounding halves up.
pub open spec fn target_frame_count(frames: int, source_rate: int, target_rate: int) -> int {
    (2 * (frames * target_rate) + source_rate) / (2 * source_rate)
}

/// The source frame nearest to destination frame `j`.
pub open spec fn source_frame(j: int, frames: int, source_rate: int, target_rate: int) -> int {
    let nearest = (2 * (j * source_rate) + target_rate) / (2 * target_rate);
    if nearest < frames - 1 {
        nearest
    } else {
        frames - 1
    }
}

/// The samples of a resampled buffer.
pub open spec fn resampled_data(
    s: Seq<u32>,
    source_channels: int,
    source_rate: int,
    target_channels: int,
    target_rate: int,
) -> Seq<u32> {
    let frames = s.len() as int / source_channels;
    Seq::new(
        (target_frame_count(frames, source_rate, target_rate) * target_channels) as nat,
        |k: int|
            s[source_frame(k / target_channels, frames, source_rate, target_rate) * source_channels
                + k % target_channels % source_channels],
    )
}

proof fn lemma_frame_index(j: int, c: int, cc: int)
    requires
        0 <= j,
        0 <= c < cc,
    ensures
        (j * cc + c) / cc == j,
        (j * cc + c) % cc == c,
{
    vstd::arithmetic::div_mod::lemma_fundamental_div_mod_converse(j * cc + c, cc, j, c);
}

proof fn lemma_source_index_bound(f: int, frames: int, ch: int, cc: int, len: int)
    requires
        0 <= f < frames,
        0 <= ch < cc,
        frames == len / cc,
        0 <= len,
    ensures
        0 <= f * cc + ch < len,
{
    assert(f * cc + ch < len) by (nonlinear_arith)
        requires
            0 <= f < frames,
            0 <= ch < cc,
            frames == len / cc,
            0 <= len,
    {
        assert(frames * cc <= len);
        assert((f + 1) * cc <= frames * cc);
    }
    assert(0 <= f * cc) by (nonlinear_arith)
        requires
            0 <= f,
            0 <= cc,
    ;
}

impl AudioBuffer {
    /// Return the buffer resampled to the given channel count and sample
    /// rate.
    pub fn resampled(self, channel_count: usize, sample_rate: u32) -> (r: AudioBuffer)
        requires
            self.channel_count > 0,
            self.sample_rate > 0,
            channel_count > 0,
            sample_rate > 0,
            target_frame_count(
                self.data@.len() as int / self.channel_count as int,
                self.sample_rate as int,
                sample_rate as int,
            ) * channel_count <= usize::MAX,
        ensures
            r.channel_count == channel_count,
            r.sample_rate == sample_rate,
            r.data@ == resampled_data(
                self.data@,
                self.channel_count as int,
                self.sample_rate as int,
                channel_count as int,
                sample_rate as int,
            ),
    {
        let source_channels = self.channel_count;
        let source_rate = self.sample_rate;
        let len = self.data.len();
        let frames = len / source_channels;
        let ghost target = resampled_data(
            self.data@,
            source_channels as int,
            source_rate as int,
            channel_count as int,
            sample_rate as int,
        );
        assert((frames as int) * (sample_rate as int) <= 0xffff_ffff_ffff_ffff * 0xffff_ffff)
            by (nonlinear_arith)
            requires
                frames <= 0xffff_ffff_ffff_ffff,
                sample_rate <= 0xffff_ffff,
        ;
        let target_frames_wide: u128 = (2 * ((frames as u128) * (sample_rate as u128))
            + source_rate as u128) / (2 * source_rate as u128);
        assert(target_frames_wide <= usize::MAX) by (nonlinear_arith)
            requires
                target_frames_wide * channel_count <= usize::MAX,
                channel_count >= 1,
        ;
        let target_frames = target_frames_wide as usize;
        let mut out: Vec<u32> = Vec::new();
        let mut j: usize = 0;
        while j < target_frames
            invariant
                len == self.data@.len(),
                source_channels == self.channel_count,
                source_channels > 0,
                frames == len / source_channels,
                source_rate == self.sample_rate,
                source_rate > 0,
                channel_count > 0,
                sample_rate > 0,
                target_frames as int == target_frame_count(
                    frames as int,
                    source_rate as int,
                    sample_rate as int,
                ),
                target_frames * channel_count <= usize::MAX,
                target == resampled_data(
                    self.data@,
                    source_channels as int,
                    source_rate as int,
                    channel_count as int,
                    sample_rate as int,
                ),
                j <= target_frames,
                out@ == target.take(j * channel_count),
            decreases target_frames - j,
        {
            assert((j as int) * (source_rate as int) <= 0xffff_ffff_ffff_ffff * 0xffff_ffff)
                by (nonlinear_arith)
                requires
                    j <= 0xffff_ffff_ffff_ffff,
                    source_rate <= 0xffff_ffff,
            ;
            proof {
                if frames == 0 {
                    assert(target_frames == 0) by (nonlinear_arith)
                        requires
                            frames == 0,
                            target_frames == (2 * (frames * sample_rate) + source_rate) / (2
                                * source_rate),
                            source_rate > 0,
                    ;
                }
            }
            let nearest: u128 = (2 * ((j as u128) * (source_rate as u128)) + sample_rate as u128) / (2
                * sample_rate as u128);
            let f: usize = if nearest < frames as u128 {
                nearest as usize
            } else {
                frames - 1
            };
            proof {
                assert(f as int == source_frame(
                    j as int,
                    frames as int,
                    source_rate as int,
                    sample_rate as int,
                ));
            }
            let mut c: usize = 0;
            while c < channel_count
                invariant
                    len == self.data@.len(),
                    source_channels == self.channel_count,
                    source_channels > 0,
                    frames == len / source_channels,
                    channel_count > 0,
                    j < target_frames,
                    target_frames * channel_count <= usize::MAX,
                    target.len() == target_frames * channel_count,
                    f < frames,
                    f as int == source_frame(
                        j as int,
                        frames as int,
                        source_rate as int,
                        sample_rate as int,
                    ),
                    target == resampled_data(
                        self.data@,
                        source_channels as int,
                        source_rate as int,
                        channel_count as int,
                        sample_rate as int,
                    ),
                    c <= channel_count,
                    out@ == target.take(j * channel_count + c),
                decreases channel_count - c,
            {
                let ch = c % source_channels;
                proof {
                    lemma_source_index_bound(
                        f as int,
                        frames as int,
                        ch as int,
                        source_channels as int,
                        len as int,
                    );
                    lemma_frame_index(j as int, c as int, channel_count as int);
                    assert(j * channel_count + c < target_frames * channel_count) by (nonlinear_arith)
                        requires
                            j < target_frames,
                            c < channel_count,
                    ;
                }
                out.push(self.data[f * source_channels + ch]);
                c += 1;
                assert(out@ =~= target.take(j * channel_count + c));
            }
            j += 1;
            assert(j * channel_count == (j - 1) * channel_count + channel_count) by (nonlinear_arith);
        }
        assert(out@ =~= target);
        AudioBuffer { data: out, channel_count, sample_rate }
    }
}

} // verus!
