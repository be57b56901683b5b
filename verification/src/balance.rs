//! The sizes that the section-to-section balance is computed from.
use vstd::prelude::*;
use crate::partmap::PartMap;
use crate::section::VoiceSection;
use crate::voice::VoicePart;

verus! {

/// The size of the last section of part `p` in `s`, if there is one.
pub open spec fn last_size(s: Seq<VoiceSection>, p: VoicePart) -> Option<nat>
    decreases s.len(),
{
    if s.len() == 0 {
        None
    } else if s.last().part == p {
        Some(s.last().singers@.len())
    } else {
        last_size(s.drop_last(), p)
    }
}

/// The size of each part's section, keyed by part: the sizes whose
/// balance `compute_balance` measures. Where several sections have the same
/// part, the last of them counts; a part without a section has no entry.
pub fn section_sizes(sections: &[VoiceSection]) -> (r: PartMap<usize>)
    ensures
        forall|p: VoicePart|
            #[trigger] r@.contains_key(p) == (last_size(sections@, p) is Some),
        forall|p: VoicePart|
            #[trigger] r@.contains_key(p) ==> r@[p] == last_size(sections@, p)->0,
{
    let mut sizes: PartMap<usize> = PartMap::new();
    let mut i: usize = 0;
    while i < sections.len()
        invariant
            i <= sections@.len(),
            forall|p: VoicePart|
                #[trigger] sizes@.contains_key(p) == (last_size(sections@.take(i as int), p) is Some),
            forall|p: VoicePart|
                #[trigger] sizes@.contains_key(p) ==> sizes@[p] == last_size(sections@.take(i as int), p)->0,
        decreases sections@.len() - i,
    {
        assert(sections@.take(i + 1).drop_last() =~= sections@.take(i as int));
        let sec = &sections[i];
        sizes.insert(sec.part, sec.len());
        i = i + 1;
    }
    assert(sections@.take(i as int) =~= sections@);
    sizes
}

/// The size recorded for a part is the number of singers of the last
/// section of that part, and there is none when no section has that part.
pub proof fn law_last_size(s: Seq<VoiceSection>, p: VoicePart, i: int)
    ensures
        0 <= i < s.len() && s[i].part == p && (forall|j: int| i < j < s.len() ==> #[trigger] s[j].part != p)
            ==> last_size(s, p) == Some(s[i].singers@.len()),
        (forall|j: int| 0 <= j < s.len() ==> #[trigger] s[j].part != p) ==> last_size(s, p) is None,
    decreases s.len(),
{
    if s.len() > 0 {
        let d = s.drop_last();
        law_last_size(d, p, i);
        if 0 <= i < s.len() && s[i].part == p && (forall|j: int| i < j < s.len() ==> #[trigger] s[j].part != p) {
            if i < s.len() - 1 {
                assert(s[s.len() - 1].part != p);
                assert forall|j: int| i < j < d.len() implies #[trigger] d[j].part != p by {
                    assert(d[j] == s[j]);
                }
                assert(d[i] == s[i]);
            }
        }
        if forall|j: int| 0 <= j < s.len() ==> #[trigger] s[j].part != p {
            assert(s[s.len() - 1].part != p);
            assert forall|j: int| 0 <= j < d.len() implies #[trigger] d[j].part != p by {
                assert(d[j] == s[j]);
            }
        }
    }
}

} // verus!
