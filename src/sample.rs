//! Sample words: IEEE-754 binary32 values held as their bit patterns.
//!
//! Clearing the sign bit of a word gives its magnitude, and for two values
//! that are not NaN the integer order of their magnitudes is the order of
//! their absolute values.
use vstd::prelude::*;

verus! {

/// Bits of a sample word that hold its absolute value.
pub const MAGNITUDE_MASK: u32 = 0x7fff_ffff;

/// The largest magnitude that is not a NaN (the bits of infinity).
pub const INFINITY_BITS: u32 = 0x7f80_0000;

/// The magnitude of a sample word: its bits with the sign cleared.
pub open spec fn magnitude(s: u32) -> u32 {
    s & MAGNITUDE_MASK
}

/// Whether a sample word encodes a NaN.
pub open spec fn is_nan(s: u32) -> bool {
    magnitude(s) > INFINITY_BITS
}

/// Whether the sign bit of a sample word is set.
pub open spec fn is_negative(s: u32) -> bool {
    s >= 0x8000_0000
}

/// Whether `a < b` as floating-point values: never when either is NaN, and
/// never between the two zeros.
pub open spec fn float_lt(a: u32, b: u32) -> bool {
    &&& !is_nan(a)
    &&& !is_nan(b)
    &&& !(magnitude(a) == 0 && magnitude(b) == 0)
    &&& if !is_negative(a) && !is_negative(b) {
        a < b
    } else if is_negative(a) && is_negative(b) {
        a > b
    } else {
        is_negative(a)
    }
}

/// Whether `a < b` as floating-point values.
pub fn less_than(a: u32, b: u32) -> (r: bool)
    ensures
        r == float_lt(a, b),
{
    let ma = magnitude_of(a);
    let mb = magnitude_of(b);
    if ma > INFINITY_BITS || mb > INFINITY_BITS || (ma == 0 && mb == 0) {
        false
    } else if a < 0x8000_0000 && b < 0x8000_0000 {
        a < b
    } else if a >= 0x8000_0000 && b >= 0x8000_0000 {
        a > b
    } else {
        a >= 0x8000_0000
    }
}

/// Whether `|s| > |t|` as floating-point values: never when either is NaN.
pub open spec fn louder_than(s: u32, t: u32) -> bool {
    !is_nan(s) && !is_nan(t) && magnitude(s) > magnitude(t)
}

/// The magnitude of a sample word.
pub fn magnitude_of(s: u32) -> (r: u32)
    ensures
        r == magnitude(s),
{
    s & MAGNITUDE_MASK
}

/// Whether the absolute value of `s` exceeds that of `threshold`.
pub fn exceeds(s: u32, threshold: u32) -> (r: bool)
    ensures
        r == louder_than(s, threshold),
{
    let ms = magnitude_of(s);
    let mt = magnitude_of(threshold);
    ms <= INFINITY_BITS && mt <= INFINITY_BITS && ms > mt
}

/// Whether `i` is the last index in `lo..hi` whose sample has the greatest
/// magnitude there.
pub open spec fn is_peak_index(s: Seq<u32>, lo: int, hi: int, i: int) -> bool {
    &&& lo <= i < hi
    &&& forall|j: int| lo <= j < hi ==> magnitude(#[trigger] s[j]) <= magnitude(s[i])
    &&& forall|j: int| i < j < hi ==> magnitude(#[trigger] s[j]) < magnitude(s[i])
}

/// The index of the last sample of greatest magnitude in `data[start..end]`,
/// or `None` when the range is empty.
pub fn loudest_index(data: &[u32], start: usize, end: usize) -> (r: Option<usize>)
    requires
        start <= end <= data@.len(),
    ensures
        r is None <==> start == end,
        r matches Some(i) ==> is_peak_index(data@, start as int, end as int, i as int),
{
    if start == end {
        return None;
    }
    let mut best: usize = start;
    let mut best_magnitude = magnitude_of(data[start]);
    let mut j: usize = start + 1;
    while j < end
        invariant
            start <= best < j <= end <= data@.len(),
            best_magnitude == magnitude(data@[best as int]),
            is_peak_index(data@, start as int, j as int, best as int),
        decreases end - j,
    {
        let m = magnitude_of(data[j]);
        if m >= best_magnitude {
            best = j;
            best_magnitude = m;
        }
        j += 1;
    }
    Some(best)
}

} // verus!
