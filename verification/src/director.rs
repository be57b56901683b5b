//! The choir director: directives for each section.
use vstd::prelude::*;
use crate::allocation::target_of;
use crate::ieee::{float_lt, float_lt_spec};
use crate::partmap::PartMap;
use crate::section::{Singer, VoiceSection};
use crate::voice::VoicePart;

verus! {

/// A directive the director issues to a section.
#[derive(Debug, Clone, Copy, PartialEq, Eq, Structural)]
pub enum Directive {
    /// Grow the section (recruit `target` more agents).
    Grow { target: usize },
    /// Shrink the section (release `target` agents).
    Shrink { target: usize },
    /// Rehearse: improve the blend score.
    Rehearse,
    /// Hold: the section is fine as it is.
    Hold,
}

/// The directive for a section of `len` singers whose target is `target`:
/// grow or shrink by the difference when the size is off target, else
/// rehearse when its blend is below the threshold, else hold.
pub open spec fn directive_spec(len: nat, target: int, blend_below: bool) -> Directive {
    if len < target {
        Directive::Grow { target: (target - len) as usize }
    } else if len > target {
        Directive::Shrink { target: (len - target) as usize }
    } else if blend_below {
        Directive::Rehearse
    } else {
        Directive::Hold
    }
}

/// The choir director coordinates sections without micromanaging.
///
/// The thresholds are the bit patterns of `f64` values, as in `Singer`.
#[derive(Debug, Clone)]
pub struct ChoirDirector {
    pub sections: PartMap<VoiceSection>,
    pub target_sizes: PartMap<usize>,
    pub blend_threshold_bits: u64,
    pub balance_threshold_bits: u64,
}

/// An empty section for every part.
pub open spec fn empty_sections(m: Map<VoicePart, VoiceSection>) -> bool {
    forall|p: VoicePart|
        #![trigger m[p]]
        m.contains_key(p) && m[p].part == p && m[p].singers@ == Seq::<Singer>::empty()
}

impl ChoirDirector {
    /// A section for every part: what `add_singer` and `assess` look up.
    pub open spec fn has_all_sections(&self) -> bool {
        forall|p: VoicePart| #[trigger] self.sections@.contains_key(p)
    }

    /// The size of the section of a part.
    pub open spec fn size_of(&self, p: VoicePart) -> nat {
        self.sections@[p].singers@.len()
    }

    /// The directive `assess` gives a part, given the blend scores it was handed.
    pub open spec fn directive_of(&self, p: VoicePart, blend_scores: Map<VoicePart, u64>) -> Directive {
        let len = self.size_of(p);
        let target = target_of(self.target_sizes@, p);
        directive_spec(
            len,
            target,
            len == target && float_lt_spec(blend_scores[p], self.blend_threshold_bits),
        )
    }

    /// A director with an empty section for each part.
    pub fn new(
        target_sizes: PartMap<usize>,
        blend_threshold_bits: u64,
        balance_threshold_bits: u64,
    ) -> (r: Self)
        ensures
            empty_sections(r.sections@),
            r.sections@.dom().len() == 4,
            r.target_sizes@ == target_sizes@,
            r.blend_threshold_bits == blend_threshold_bits,
            r.balance_threshold_bits == balance_threshold_bits,
    {
        let mut sections: PartMap<VoiceSection> = PartMap::new();
        let parts = VoicePart::all();
        let mut i: usize = 0;
        while i < parts.len()
            invariant
                i <= 4,
                parts@ == crate::voice::score_order(),
                forall|j: int|
                    #![trigger parts@[j]]
                    0 <= j < i ==> {
                        let p = parts@[j];
                        sections@.contains_key(p) && sections@[p].part == p
                            && sections@[p].singers@ == Seq::<Singer>::empty()
                    },
            decreases 4 - i,
        {
            let part = parts[i];
            sections.insert(part, VoiceSection::new(part));
            i = i + 1;
        }
        proof {
            assert forall|p: VoicePart| #![trigger sections@[p]]
                sections@.contains_key(p) && sections@[p].part == p
                    && sections@[p].singers@ == Seq::<Singer>::empty() by {
                let j = crate::voice::part_index(p) as int;
                assert(parts@[j] == p);
            }
            sections.lemma_view_finite();
        }
        ChoirDirector { sections, target_sizes, blend_threshold_bits, balance_threshold_bits }
    }

    /// Add a singer to the section matching their preferred part.
    pub fn add_singer(&mut self, singer: Singer)
        requires
            old(self).sections@.contains_key(singer.preferred_part),
        ensures
            final(self).sections@ == old(self).sections@.insert(
                singer.preferred_part,
                VoiceSection {
                    part: old(self).sections@[singer.preferred_part].part,
                    singers: final(self).sections@[singer.preferred_part].singers,
                },
            ),
            final(self).sections@[singer.preferred_part].singers@ == old(
                self,
            ).sections@[singer.preferred_part].singers@.push(singer),
            final(self).target_sizes@ == old(self).target_sizes@,
            final(self).blend_threshold_bits == old(self).blend_threshold_bits,
            final(self).balance_threshold_bits == old(self).balance_threshold_bits,
    {
        let part = singer.preferred_part;
        let mut section = self.sections.remove(part).unwrap();
        section.add(singer);
        self.sections.insert(part, section);
        proof {
            assert(self.sections@ =~= old(self).sections@.insert(
                part,
                VoiceSection { part: old(self).sections@[part].part, singers: self.sections@[part].singers },
            ));
        }
    }

    /// Assess the choir and return directives for each section.
    ///
    /// `blend_scores` holds, as `f64` bit patterns, the blend score of every
    /// section whose size equals its target; such a section is told to
    /// rehearse when its score is below the blend threshold.
    pub fn assess(&self, blend_scores: &PartMap<u64>) -> (r: PartMap<Directive>)
        requires
            self.has_all_sections(),
            forall|p: VoicePart|
                self.size_of(p) == target_of(self.target_sizes@, p) ==> #[trigger] blend_scores@.contains_key(p),
        ensures
            forall|p: VoicePart| #[trigger] r@.contains_key(p),
            forall|p: VoicePart| #[trigger] r@[p] == self.directive_of(p, blend_scores@),
            forall|p: VoicePart|
                self.size_of(p) == target_of(self.target_sizes@, p) ==> ((#[trigger] r@[p]
                    == Directive::Rehearse) <==> float_lt_spec(blend_scores@[p], self.blend_threshold_bits)),
            forall|p: VoicePart|
                self.size_of(p) == target_of(self.target_sizes@, p) ==> ((#[trigger] r@[p]
                    == Directive::Hold) <==> !float_lt_spec(blend_scores@[p], self.blend_threshold_bits)),
            forall|p: VoicePart|
                self.size_of(p) < target_of(self.target_sizes@, p) ==> #[trigger] r@[p]
                    == (Directive::Grow { target: (target_of(self.target_sizes@, p) - self.size_of(p)) as usize }),
            forall|p: VoicePart|
                self.size_of(p) > target_of(self.target_sizes@, p) ==> #[trigger] r@[p]
                    == (Directive::Shrink { target: (self.size_of(p) - target_of(self.target_sizes@, p)) as usize }),
            r@.dom().len() == 4,
    {
        let mut directives: PartMap<Directive> = PartMap::new();
        let parts = VoicePart::all();
        let mut i: usize = 0;
        while i < parts.len()
            invariant
                i <= 4,
                parts@ == crate::voice::score_order(),
                self.has_all_sections(),
                forall|p: VoicePart|
                    self.size_of(p) == target_of(self.target_sizes@, p) ==> #[trigger] blend_scores@.contains_key(p),
                forall|j: int|
                    #![trigger parts@[j]]
                    0 <= j < i ==> directives@.contains_key(parts@[j]) && directives@[parts@[j]]
                        == self.directive_of(parts@[j], blend_scores@),
            decreases 4 - i,
        {
            let part = parts[i];
            let section = self.sections.get(part).unwrap();
            let target = match self.target_sizes.get(part) {
                Some(t) => *t,
                None => 0,
            };
            let len = section.len();
            let directive = if len < target {
                Directive::Grow { target: target - len }
            } else if len > target {
                Directive::Shrink { target: len - target }
            } else {
                let score = *blend_scores.get(part).unwrap();
                if float_lt(score, self.blend_threshold_bits) {
                    Directive::Rehearse
                } else {
                    Directive::Hold
                }
            };
            directives.insert(part, directive);
            i = i + 1;
        }
        proof {
            assert forall|p: VoicePart|
                #[trigger] directives@.contains_key(p) && directives@[p] == self.directive_of(p, blend_scores@) by {
                let j = crate::voice::part_index(p) as int;
                assert(parts@[j] == p);
            }
            directives.lemma_view_finite();
        }
        directives
    }
}

/// Following a directive brings a section to its target: growing by the
/// amount given, or shrinking by it, yields the target size, and a section
/// told to rehearse or hold is already at its target.
pub proof fn law_directive_restores_target(len: nat, target: nat, blend_below: bool)
    requires
        target <= usize::MAX,
        len <= usize::MAX,
    ensures
        match directive_spec(len, target as int, blend_below) {
            Directive::Grow { target: n } => n > 0 && len + n == target,
            Directive::Shrink { target: n } => n > 0 && len - n == target,
            Directive::Rehearse => len == target && blend_below,
            Directive::Hold => len == target && !blend_below,
        },
{
}

/// The directive of a part: grow by the missing count below target, shrink
/// by the excess above it, and at its target rehearse exactly when its blend
/// score is below the blend threshold (as an `f64`), else hold.
pub proof fn law_directive_of(d: ChoirDirector, blend_scores: Map<VoicePart, u64>, p: VoicePart)
    ensures
        d.size_of(p) < target_of(d.target_sizes@, p) ==> d.directive_of(p, blend_scores)
            == (Directive::Grow { target: (target_of(d.target_sizes@, p) - d.size_of(p)) as usize }),
        d.size_of(p) > target_of(d.target_sizes@, p) ==> d.directive_of(p, blend_scores)
            == (Directive::Shrink { target: (d.size_of(p) - target_of(d.target_sizes@, p)) as usize }),
        d.size_of(p) == target_of(d.target_sizes@, p) ==> ((d.directive_of(p, blend_scores)
            == Directive::Rehearse) <==> float_lt_spec(blend_scores[p], d.blend_threshold_bits)),
        d.size_of(p) == target_of(d.target_sizes@, p) ==> ((d.directive_of(p, blend_scores)
            == Directive::Hold) <==> !float_lt_spec(blend_scores[p], d.blend_threshold_bits)),
{
}

/// The balance threshold plays no part in the directives: two directors
/// that differ only in it give every part the same directive.
pub proof fn law_directives_ignore_balance_threshold(
    d1: ChoirDirector,
    d2: ChoirDirector,
    blend_scores: Map<VoicePart, u64>,
    p: VoicePart,
)
    requires
        d1.sections@ == d2.sections@,
        d1.target_sizes@ == d2.target_sizes@,
        d1.blend_threshold_bits == d2.blend_threshold_bits,
    ensures
        d1.directive_of(p, blend_scores) == d2.directive_of(p, blend_scores),
{
}

} // verus!
