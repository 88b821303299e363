//! In-memory audio buffers of interleaved samples, a WAV codec for them,
//! and the sample-exact steps of audio processing: resampling, trimming,
//! the peak search and gain factors of amplification, the padding and
//! clamping of mixing, and the settings store that effects keep their
//! configuration in.
//!
//! Samples are IEEE-754 binary32 values held as their bit patterns (`u32`):
//! every operation here moves, compares or encodes samples without doing
//! floating-point arithmetic on them.
//!
//! - `buffer`: the audio buffer.
//! - `sample`: magnitudes and comparisons of sample words, the peak search.
//! - `bytes`: little-endian integers in byte sequences.
//! - `wav`: decoding and encoding RIFF/WAVE files.
//! - `resample`: nearest-neighbour changes of channel count and sample rate.
//! - `trim`: removing quiet frames at both ends.
//! - `mix`: padding with silence and clamping to `[-1.0, 1.0]`.
//! - `settings`: the ordered store of named values.
//! - `amplifier`: the amplifier's settings and gain factors.
use vstd::prelude::*;

pub mod amplifier;
pub mod buffer;
pub mod gate;
pub mod bytes;
pub mod mix;
pub mod resample;
pub mod sample;
pub mod settings;
pub mod trim;
pub mod wav;

verus! {

} // verus!
