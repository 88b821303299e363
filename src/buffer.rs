//! The audio buffer: interleaved sample words with a channel count and a
//! sample rate.
use vstd::prelude::*;

verus! {

/// A block of interleaved audio samples.
///
/// Sample `i` of channel `c` stands at index `i * channel_count + c` of
/// `data`. Callers keep `data.len()` a multiple of `channel_count`: the
/// operations on frames count whole frames, and the contract of each says
/// what becomes of an incomplete last one.
#[derive(Clone, Debug)]
pub struct AudioBuffer {
    /// Sample words (IEEE-754 binary32 bit patterns), interleaved by channel.
    pub data: Vec<u32>,
    /// Number of interleaved channels.
    pub channel_count: usize,
    /// Samples per second and channel.
    pub sample_rate: u32,
}

impl AudioBuffer {
    /// Create a new audio buffer from raw data.
    pub fn new(data: Vec<u32>, channel_count: usize, sample_rate: u32) -> (r: AudioBuffer)
        ensures
            r.data@ == data@,
            r.channel_count == channel_count,
            r.sample_rate == sample_rate,
    {
        AudioBuffer { data, channel_count, sample_rate }
    }

    /// The samples of the buffer.
    pub fn data(&self) -> (r: &[u32])
        ensures
            r@ == self.data@,
    {
        self.data.as_slice()
    }

    /// The samples of the buffer, for changing them in place.
    pub fn data_mut(&mut self) -> (r: &mut Vec<u32>)
        ensures
            *r == old(self).data,
            final(self).data == *final(r),
            final(self).channel_count == old(self).channel_count,
            final(self).sample_rate == old(self).sample_rate,
    {
        &mut self.data
    }

    /// The channel count of the buffer.
    pub fn channel_count(&self) -> (r: usize)
        ensures
            r == self.channel_count,
    {
        self.channel_count
    }

    /// The sample rate of the buffer.
    pub fn sample_rate(&self) -> (r: u32)
        ensures
            r == self.sample_rate,
    {
        self.sample_rate
    }

    /// Remove the samples at the indices of `range` and return them.
    ///
    /// The bounds are raw sample indices: to keep the channels in step, a
    /// caller passes multiples of the channel count.
    pub fn drain_data(&mut self, range: std::ops::Range<usize>) -> (r: Vec<u32>)
        requires
            range.start <= range.end <= old(self).data@.len(),
        ensures
            r@ == old(self).data@.subrange(range.start as int, range.end as int),
            final(self).data@ == old(self).data@.subrange(0, range.start as int)
                + old(self).data@.subrange(range.end as int, old(self).data@.len() as int),
            final(self).channel_count == old(self).channel_count,
            final(self).sample_rate == old(self).sample_rate,
    {
        let start = range.start;
        let end = range.end;
        let len = self.data.len();
        let mut drained: Vec<u32> = Vec::new();
        let mut kept: Vec<u32> = Vec::new();
        let mut i: usize = 0;
        while i < start
            invariant
                len == self.data@.len(),
                start <= end <= len,
                i <= start,
                kept@ == self.data@.subrange(0, i as int),
            decreases start - i,
        {
            kept.push(self.data[i]);
            i += 1;
            assert(kept@ =~= self.data@.subrange(0, i as int));
        }
        while i < end
            invariant
                len == self.data@.len(),
                start <= end <= len,
                start <= i <= end,
                kept@ == self.data@.subrange(0, start as int),
                drained@ == self.data@.subrange(start as int, i as int),
            decreases end - i,
        {
            drained.push(self.data[i]);
            i += 1;
            assert(drained@ =~= self.data@.subrange(start as int, i as int));
        }
        while i < len
            invariant
                len == self.data@.len(),
                start <= end <= i <= len,
                kept@ == self.data@.subrange(0, start as int) + self.data@.subrange(
                    end as int,
                    i as int,
                ),
                drained@ == self.data@.subrange(start as int, end as int),
            decreases len - i,
        {
            kept.push(self.data[i]);
            i += 1;
            assert(kept@ =~= self.data@.subrange(0, start as int) + self.data@.subrange(
                end as int,
                i as int,
            ));
        }
        self.data = kept;
        drained
    }
}

/// Two buffers are equal when their layouts match and their samples match
/// bit for bit.
impl PartialEq for AudioBuffer {
    fn eq(&self, other: &AudioBuffer) -> (r: bool) {
        if self.channel_count != other.channel_count || self.sample_rate != other.sample_rate
            || self.data.len() != other.data.len() {
            return false;
        }
        let n = self.data.len();
        let mut i: usize = 0;
        while i < n
            invariant
                n == self.data@.len() == other.data@.len(),
                i <= n,
                forall|j: int| 0 <= j < i ==> self.data@[j] == other.data@[j],
            decreases n - i,
        {
            if self.data[i] != other.data[i] {
                return false;
            }
            i += 1;
        }
        assert(self.data@ =~= other.data@);
        true
    }
}

impl vstd::std_specs::cmp::PartialEqSpecImpl for AudioBuffer {
    open spec fn obeys_eq_spec() -> bool {
        true
    }

    open spec fn eq_spec(&self, other: &AudioBuffer) -> bool {
        self.channel_count == other.channel_count && self.sample_rate == other.sample_rate
            && self.data@ == other.data@
    }
}

} // verus!
