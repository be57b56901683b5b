//! The four voice parts and their default pitch ranges.
use vstd::prelude::*;

verus! {

/// The four classical voice parts, ordered from highest to lowest.
#[derive(Debug, Clone, Copy, PartialEq, Eq, Structural, Hash)]
pub enum VoicePart {
    Soprano,
    Alto,
    Tenor,
    Bass,
}

/// Position of a part in score order (Soprano first, Bass last).
pub open spec fn part_index(p: VoicePart) -> nat {
    match p {
        VoicePart::Soprano => 0,
        VoicePart::Alto => 1,
        VoicePart::Tenor => 2,
        VoicePart::Bass => 3,
    }
}

/// The part at a given position in score order.
pub open spec fn part_at(i: int) -> VoicePart {
    if i == 0 {
        VoicePart::Soprano
    } else if i == 1 {
        VoicePart::Alto
    } else if i == 2 {
        VoicePart::Tenor
    } else {
        VoicePart::Bass
    }
}

/// The four parts in score order.
pub open spec fn score_order() -> Seq<VoicePart> {
    seq![VoicePart::Soprano, VoicePart::Alto, VoicePart::Tenor, VoicePart::Bass]
}

/// Default floor of each part's pitch range, as a MIDI note number.
pub open spec fn spec_floor(p: VoicePart) -> u8 {
    match p {
        VoicePart::Soprano => 60,
        VoicePart::Alto => 55,
        VoicePart::Tenor => 48,
        VoicePart::Bass => 40,
    }
}

/// Default ceiling of each part's pitch range, as a MIDI note number.
pub open spec fn spec_ceiling(p: VoicePart) -> u8 {
    match p {
        VoicePart::Soprano => 81,
        VoicePart::Alto => 74,
        VoicePart::Tenor => 67,
        VoicePart::Bass => 60,
    }
}

impl VoicePart {
    /// Return a rough default pitch-range floor (MIDI note number).
    pub fn default_floor(&self) -> (r: u8)
        ensures
            r == spec_floor(*self),
    {
        match self {
            VoicePart::Soprano => 60,
            VoicePart::Alto => 55,
            VoicePart::Tenor => 48,
            VoicePart::Bass => 40,
        }
    }

    /// Return a rough default pitch-range ceiling (MIDI note number).
    pub fn default_ceiling(&self) -> (r: u8)
        ensures
            r == spec_ceiling(*self),
    {
        match self {
            VoicePart::Soprano => 81,
            VoicePart::Alto => 74,
            VoicePart::Tenor => 67,
            VoicePart::Bass => 60,
        }
    }

    /// All four parts in score order.
    pub fn all() -> (r: &'static [VoicePart])
        ensures
            r@ == score_order(),
    {
        &[VoicePart::Soprano, VoicePart::Alto, VoicePart::Tenor, VoicePart::Bass]
    }
}

/// The parts are ordered from highest to lowest: in score order, each part's
/// default floor and ceiling lie above those of every later part.
pub proof fn law_parts_ordered_high_to_low(i: int, j: int)
    requires
        0 <= i < j < 4,
    ensures
        spec_floor(part_at(i)) > spec_floor(part_at(j)),
        spec_ceiling(part_at(i)) > spec_ceiling(part_at(j)),
{
}

/// Every part's default range is nonempty: its floor lies below its ceiling.
pub proof fn law_floor_below_ceiling(p: VoicePart)
    ensures
        spec_floor(p) < spec_ceiling(p),
{
}

/// Score order lists every part exactly once: the part at a part's position
/// is that part, and positions are 0 to 3.
pub proof fn law_score_order_lists_each_part_once(p: VoicePart)
    ensures
        part_index(p) < 4,
        part_at(part_index(p) as int) == p,
        score_order()[part_index(p) as int] == p,
        score_order().len() == 4,
{
}

} // verus!
