//! Trimming: removing the quiet frames at the start and at the end of a
//! buffer.
//!
//! A frame is quiet when none of its samples is louder than the threshold,
//! that is when every sample's absolute value is at most the threshold's.
use vstd::prelude::*;

use crate::buffer::AudioBuffer;
use crate::sample::{exceeds, louder_than};

verus! {

/// Whether the `cc` samples from `start` on are all quiet.
pub open spec fn quiet_run(s: Seq<u32>, start: int, cc: int, threshold: u32) -> bool {
    forall|i: int| start <= i < start + cc ==> !louder_than(#[trigger] s[i], threshold)
}

/// The number of samples in the quiet frames at the start of `s`.
pub open spec fn leading_quiet(s: Seq<u32>, cc: nat, threshold: u32) -> nat
    decreases s.len(),
{
    if cc == 0 || s.len() < cc {
        0
    } else if quiet_run(s, 0, cc as int, threshold) {
        cc + leading_quiet(s.skip(cc as int), cc, threshold)
    } else {
        0
    }
}

/// The number of samples in the quiet frames at the end of `s`.
pub open spec fn trailing_quiet(s: Seq<u32>, cc: nat, threshold: u32) -> nat
    decreases s.len(),
{
    if cc == 0 || s.len() < cc {
        0
    } else if quiet_run(s, s.len() - cc, cc as int, threshold) {
        cc + trailing_quiet(s.take(s.len() - cc), cc, threshold)
    } else {
        0
    }
}

/// `s` without its quiet frames at the end, then at the start.
pub open spec fn trimmed(s: Seq<u32>, cc: nat, threshold: u32) -> Seq<u32> {
    let kept = s.take(s.len() - trailing_quiet(s, cc, threshold));
    kept.skip(leading_quiet(kept, cc, threshold) as int)
}

/// Whether none of the samples `s[start..start + cc]` is louder than the
/// threshold.
fn frame_is_quiet(s: &Vec<u32>, start: usize, cc: usize, threshold: u32) -> (r: bool)
    requires
        start + cc <= s@.len(),
    ensures
        r == quiet_run(s@, start as int, cc as int, threshold),
{
    let len = s.len();
    let mut c: usize = 0;
    while c < cc
        invariant
            len == s@.len(),
            start + cc <= s@.len(),
            c <= cc,
            quiet_run(s@, start as int, c as int, threshold),
        decreases cc - c,
    {
        if exceeds(s[start + c], threshold) {
            return false;
        }
        c += 1;
    }
    true
}

impl AudioBuffer {
    /// Trim the quiet start and end off the buffer.
    pub fn trim(&mut self, volume_threshold: u32)
        requires
            old(self).channel_count > 0,
        ensures
            final(self).data@ == trimmed(
                old(self).data@,
                old(self).channel_count as nat,
                volume_threshold,
            ),
            final(self).channel_count == old(self).channel_count,
            final(self).sample_rate == old(self).sample_rate,
    {
        self.trim_end(volume_threshold);
        self.trim_start(volume_threshold);
    }

    /// Trim the quiet frames off the start of the buffer.
    pub fn trim_start(&mut self, volume_threshold: u32)
        requires
            old(self).channel_count > 0,
        ensures
            final(self).data@ == old(self).data@.skip(
                leading_quiet(old(self).data@, old(self).channel_count as nat, volume_threshold)
                    as int,
            ),
            final(self).channel_count == old(self).channel_count,
            final(self).sample_rate == old(self).sample_rate,
    {
        let cc = self.channel_count;
        let len = self.data.len();
        let ghost s = self.data@;
        let mut cursor: usize = 0;
        assert(s.skip(0) =~= s);
        loop
            invariant
                s == self.data@,
                len == s.len(),
                cc == self.channel_count,
                cc > 0,
                cursor <= len,
                leading_quiet(s, cc as nat, volume_threshold) == cursor + leading_quiet(
                    s.skip(cursor as int),
                    cc as nat,
                    volume_threshold,
                ),
            ensures
                cursor <= len,
                leading_quiet(s, cc as nat, volume_threshold) == cursor,
            decreases len - cursor,
        {
            let ghost rest = s.skip(cursor as int);
            if len - cursor < cc {
                break;
            }
            let quiet = frame_is_quiet(&self.data, cursor, cc, volume_threshold);
            assert(quiet_run(rest, 0, cc as int, volume_threshold) == quiet) by {
                assert forall|i: int| 0 <= i < cc implies rest[i] == s[cursor + i] by {}
                if quiet {
                    assert forall|i: int| 0 <= i < cc implies !louder_than(
                        #[trigger] rest[i],
                        volume_threshold,
                    ) by {
                        assert(rest[i] == s[cursor + i]);
                    }
                } else {
                    let i = choose|i: int|
                        cursor <= i < cursor + cc && louder_than(#[trigger] s[i], volume_threshold);
                    assert(rest[i - cursor] == s[i]);
                }
            }
            if !quiet {
                break;
            }
            assert(rest.skip(cc as int) =~= s.skip(cursor + cc));
            cursor += cc;
        }
        self.drain_data(0..cursor);
        assert(self.data@ =~= s.skip(cursor as int));
    }

    /// Trim the quiet frames off the end of the buffer.
    pub fn trim_end(&mut self, volume_threshold: u32)
        requires
            old(self).channel_count > 0,
        ensures
            final(self).data@ == old(self).data@.take(
                old(self).data@.len() - trailing_quiet(
                    old(self).data@,
                    old(self).channel_count as nat,
                    volume_threshold,
                ),
            ),
            final(self).channel_count == old(self).channel_count,
            final(self).sample_rate == old(self).sample_rate,
    {
        let cc = self.channel_count;
        let len = self.data.len();
        let ghost s = self.data@;
        let mut cursor: usize = len;
        assert(s.take(len as int) =~= s);
        loop
            invariant
                s == self.data@,
                len == s.len(),
                cc == self.channel_count,
                cc > 0,
                cursor <= len,
                trailing_quiet(s, cc as nat, volume_threshold) == (len - cursor) + trailing_quiet(
                    s.take(cursor as int),
                    cc as nat,
                    volume_threshold,
                ),
            ensures
                cursor <= len,
                trailing_quiet(s, cc as nat, volume_threshold) == len - cursor,
            decreases cursor,
        {
            let ghost kept = s.take(cursor as int);
            if cursor < cc {
                break;
            }
            let quiet = frame_is_quiet(&self.data, cursor - cc, cc, volume_threshold);
            assert(quiet_run(kept, kept.len() - cc, cc as int, volume_threshold) == quiet) by {
                if quiet {
                    assert forall|i: int|
                        kept.len() - cc <= i < kept.len() implies !louder_than(
                        #[trigger] kept[i],
                        volume_threshold,
                    ) by {
                        assert(kept[i] == s[i]);
                    }
                } else {
                    let i = choose|i: int|
                        cursor - cc <= i < cursor && louder_than(#[trigger] s[i], volume_threshold);
                    assert(kept[i] == s[i]);
                }
            }
            if !quiet {
                break;
            }
            assert(kept.take(kept.len() - cc) =~= s.take(cursor - cc));
            cursor -= cc;
        }
        self.drain_data(cursor..len);
        assert(self.data@ =~= s.take(cursor as int));
    }
}

/// Trimming a buffer whose samples all lie within the threshold leaves
/// nothing.
pub proof fn lemma_trim_all_quiet(s: Seq<u32>, cc: nat, threshold: u32)
    requires
        cc > 0,
        s.len() % cc == 0,
        forall|i: int| 0 <= i < s.len() ==> !louder_than(#[trigger] s[i], threshold),
    ensures
        trimmed(s, cc, threshold) == Seq::<u32>::empty(),
    decreases s.len(),
{
    lemma_all_quiet_trailing(s, cc, threshold);
    let kept = s.take(s.len() - trailing_quiet(s, cc, threshold));
    assert(kept.len() == 0);
    assert(trimmed(s, cc, threshold) =~= Seq::<u32>::empty());
}

proof fn lemma_all_quiet_trailing(s: Seq<u32>, cc: nat, threshold: u32)
    requires
        cc > 0,
        s.len() % cc == 0,
        forall|i: int| 0 <= i < s.len() ==> !louder_than(#[trigger] s[i], threshold),
    ensures
        trailing_quiet(s, cc, threshold) == s.len(),
    decreases s.len(),
{
    if s.len() >= cc {
        let init = s.take(s.len() - cc);
        assert(quiet_run(s, s.len() - cc, cc as int, threshold));
        assert(init.len() % cc == 0) by {
            vstd::arithmetic::div_mod::lemma_mod_sub_multiples_vanish(s.len() as int, cc as int);
        }
        assert forall|i: int| 0 <= i < init.len() implies !louder_than(#[trigger] init[i], threshold) by {
            assert(init[i] == s[i]);
        }
        lemma_all_quiet_trailing(init, cc, threshold);
    } else {
        assert(s.len() == 0) by {
            vstd::arithmetic::div_mod::lemma_small_mod(s.len(), cc);
        }
    }
}

/// Trimming a buffer in which every sample is louder than the threshold
/// leaves it unchanged.
pub proof fn lemma_trim_all_loud(s: Seq<u32>, cc: nat, threshold: u32)
    requires
        cc > 0,
        forall|i: int| 0 <= i < s.len() ==> louder_than(#[trigger] s[i], threshold),
    ensures
        trimmed(s, cc, threshold) == s,
{
    if s.len() >= cc {
        assert(!quiet_run(s, s.len() - cc, cc as int, threshold)) by {
            assert(louder_than(s[s.len() - cc], threshold));
        }
        assert(!quiet_run(s, 0, cc as int, threshold)) by {
            assert(louder_than(s[0], threshold));
        }
    }
    assert(s.take(s.len() as int) =~= s);
    assert(s.skip(0) =~= s);
}

} // verus!
