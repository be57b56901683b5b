//! Singers and the voice sections that group them.
use vstd::prelude::*;
use crate::voice::VoicePart;

verus! {

/// An individual singer/agent in the choir.
///
/// Versatility and skill are levels from 0.0 to 1.0, held as the bit
/// patterns of their `f64` values (`f64::to_bits`), so that the value the
/// caller gave comes back unchanged (`f64::from_bits`).
#[derive(Debug, Clone)]
pub struct Singer {
    pub id: String,
    pub preferred_part: VoicePart,
    /// Bits of the versatility: how well this singer covers other parts.
    pub versatility_bits: u64,
    /// Bits of the base skill level.
    pub skill_bits: u64,
}

/// A voice section groups N agents under one part.
#[derive(Debug, Clone)]
pub struct VoiceSection {
    pub part: VoicePart,
    pub singers: Vec<Singer>,
}

/// Number of singers in `s` whose preferred part is `p`.
pub open spec fn count_preferring(s: Seq<Singer>, p: VoicePart) -> nat
    decreases s.len(),
{
    if s.len() == 0 {
        0
    } else {
        count_preferring(s.drop_last(), p) + (if s.last().preferred_part == p { 1nat } else { 0nat })
    }
}

/// A count of singers preferring a part is at most the number of singers.
pub proof fn lemma_count_preferring_bound(s: Seq<Singer>, p: VoicePart)
    ensures
        count_preferring(s, p) <= s.len(),
    decreases s.len(),
{
    if s.len() > 0 {
        lemma_count_preferring_bound(s.drop_last(), p);
    }
}

impl VoiceSection {
    /// An empty section for a part.
    pub fn new(part: VoicePart) -> (r: Self)
        ensures
            r.part == part,
            r.singers@ == Seq::<Singer>::empty(),
    {
        VoiceSection { part, singers: Vec::new() }
    }

    /// Add a singer at the end of the section.
    pub fn add(&mut self, singer: Singer)
        ensures
            final(self).part == old(self).part,
            final(self).singers@ == old(self).singers@.push(singer),
    {
        self.singers.push(singer);
    }

    /// Number of singers in the section.
    pub fn len(&self) -> (r: usize)
        ensures
            r == self.singers@.len(),
    {
        self.singers.len()
    }

    /// Whether the section has no singers.
    pub fn is_empty(&self) -> (r: bool)
        ensures
            r == (self.singers@.len() == 0),
    {
        self.singers.len() == 0
    }

    /// Number of singers whose preferred part is the section's part: the
    /// numerator of the section's part affinity.
    pub fn matching_count(&self) -> (r: usize)
        ensures
            r == count_preferring(self.singers@, self.part),
    {
        let mut n: usize = 0;
        let mut i: usize = 0;
        while i < self.singers.len()
            invariant
                i <= self.singers@.len(),
                n == count_preferring(self.singers@.take(i as int), self.part),
                n <= i,
            decreases self.singers@.len() - i,
        {
            assert(self.singers@.take(i + 1).drop_last() =~= self.singers@.take(i as int));
            if self.singers[i].preferred_part == self.part {
                n = n + 1;
            }
            i = i + 1;
        }
        assert(self.singers@.take(i as int) =~= self.singers@);
        n
    }
}

} // verus!
