//! The decisions of the noise gate that need no arithmetic: the peak of each
//! batch of samples, and which way the envelope moves for it.
//!
//! A noise gate takes the samples in batches of `batch_size` raw samples (across
//! channels). A batch whose peak magnitude is above the lower threshold
//! opens the envelope, one below it closes the envelope, and one exactly at
//! it leaves the envelope where it is.
use vstd::prelude::*;

use crate::sample::{float_lt, less_than, magnitude, magnitude_of};

verus! {

/// Which way the envelope moves for one batch.
#[derive(Clone, Copy, Debug, PartialEq, Eq, Structural)]
pub enum EnvelopeMove {
    /// Towards fully open.
    Open,
    /// Towards fully closed.
    Close,
    /// Nowhere.
    Hold,
}

/// The move for a batch of peak magnitude `peak` under `lower_threshold`.
pub open spec fn envelope_move_of(peak: u32, lower_threshold: u32) -> EnvelopeMove {
    if float_lt(lower_threshold, peak) {
        EnvelopeMove::Open
    } else if float_lt(peak, lower_threshold) {
        EnvelopeMove::Close
    } else {
        EnvelopeMove::Hold
    }
}

/// The move for a batch of peak magnitude `peak` under `lower_threshold`.
pub fn envelope_move(peak: u32, lower_threshold: u32) -> (r: EnvelopeMove)
    ensures
        r == envelope_move_of(peak, lower_threshold),
{
    if less_than(lower_threshold, peak) {
        EnvelopeMove::Open
    } else if less_than(peak, lower_threshold) {
        EnvelopeMove::Close
    } else {
        EnvelopeMove::Hold
    }
}

/// The greatest magnitude among the samples of `s`, 0 when there are none.
pub open spec fn max_magnitude(s: Seq<u32>) -> u32
    decreases s.len(),
{
    if s.len() == 0 {
        0
    } else {
        let rest = max_magnitude(s.drop_last());
        if magnitude(s.last()) > rest {
            magnitude(s.last())
        } else {
            rest
        }
    }
}

/// The samples of batch `k`: `batch_size` samples from `k * batch_size` on,
/// fewer in the last batch.
pub open spec fn batch(s: Seq<u32>, batch_size: int, k: int) -> Seq<u32> {
    let start = k * batch_size;
    if start + batch_size < s.len() {
        s.subrange(start, start + batch_size)
    } else {
        s.subrange(start, s.len() as int)
    }
}

/// Whether `n` batches of `batch_size` cover `len` samples with none left
/// empty; no batch at all when `batch_size` is 0.
pub open spec fn is_batch_count(n: int, len: int, batch_size: int) -> bool {
    if batch_size == 0 {
        n == 0
    } else {
        n * batch_size >= len && (n == 0 || (n - 1) * batch_size < len)
    }
}

/// The peak magnitude of every batch of `data`, in order. With a batch size
/// of 0 there are no batches.
pub fn batch_peaks(data: &[u32], batch_size: usize) -> (r: Vec<u32>)
    ensures
        is_batch_count(r@.len() as int, data@.len() as int, batch_size as int),
        forall|k: int|
            0 <= k < r@.len() ==> #[trigger] r@[k] == max_magnitude(
                batch(data@, batch_size as int, k),
            ),
{
    let mut peaks: Vec<u32> = Vec::new();
    if batch_size == 0 {
        return peaks;
    }
    let len = data.len();
    let mut start: usize = 0;
    while start < len
        invariant
            len == data@.len(),
            batch_size > 0,
            start <= len,
            start <= peaks@.len() * batch_size,
            start < len ==> start == peaks@.len() * batch_size,
            forall|k: int|
                0 <= k < peaks@.len() ==> #[trigger] peaks@[k] == max_magnitude(
                    batch(data@, batch_size as int, k),
                ),
            peaks@.len() == 0 || (peaks@.len() - 1) * batch_size < len,
        decreases len - start,
    {
        let end = if len - start > batch_size {
            start + batch_size
        } else {
            len
        };
        let ghost k = peaks@.len() as int;
        assert(batch(data@, batch_size as int, k) == data@.subrange(start as int, end as int));
        let mut peak: u32 = 0;
        let mut j: usize = start;
        while j < end
            invariant
                start <= j <= end <= len == data@.len(),
                peak == max_magnitude(data@.subrange(start as int, j as int)),
            decreases end - j,
        {
            let m = magnitude_of(data[j]);
            assert(data@.subrange(start as int, j + 1).drop_last() =~= data@.subrange(
                start as int,
                j as int,
            ));
            if m > peak {
                peak = m;
            }
            j += 1;
        }
        peaks.push(peak);
        assert((k + 1) * batch_size == k * batch_size + batch_size) by (nonlinear_arith);
        start = end;
    }
    peaks
}

proof fn lemma_max_magnitude_constant(s: Seq<u32>, m: u32)
    requires
        s.len() > 0,
        forall|i: int| 0 <= i < s.len() ==> magnitude(#[trigger] s[i]) == m,
    ensures
        max_magnitude(s) == m,
    decreases s.len(),
{
    let init = s.drop_last();
    if init.len() > 0 {
        assert forall|i: int| 0 <= i < init.len() implies magnitude(#[trigger] init[i]) == m by {
            assert(init[i] == s[i]);
        }
        lemma_max_magnitude_constant(init, m);
    } else {
        assert(max_magnitude(init) == 0);
    }
    assert(magnitude(s.last()) == m);
}

/// On an input whose samples all have the same magnitude `m`, above the
/// lower threshold, no batch closes or holds the envelope: every batch opens
/// it.
pub proof fn lemma_constant_input_opens(s: Seq<u32>, batch_size: int, m: u32, lower_threshold: u32)
    requires
        batch_size > 0,
        forall|i: int| 0 <= i < s.len() ==> magnitude(#[trigger] s[i]) == m,
        float_lt(lower_threshold, m),
    ensures
        forall|k: int|
            0 <= k && k * batch_size < s.len() ==> envelope_move_of(
                max_magnitude(#[trigger] batch(s, batch_size, k)),
                lower_threshold,
            ) == EnvelopeMove::Open,
{
    assert forall|k: int| 0 <= k && k * batch_size < s.len() implies envelope_move_of(
        max_magnitude(#[trigger] batch(s, batch_size, k)),
        lower_threshold,
    ) == EnvelopeMove::Open by {
        let b = batch(s, batch_size, k);
        assert(0 <= k * batch_size) by (nonlinear_arith)
            requires
                0 <= k,
                batch_size > 0,
        ;
        assert forall|i: int| 0 <= i < b.len() implies magnitude(#[trigger] b[i]) == m by {
            assert(b[i] == s[k * batch_size + i]);
        }
        lemma_max_magnitude_constant(b, m);
    }
}

} // verus!
