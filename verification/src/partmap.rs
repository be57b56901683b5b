//! A map from the four voice parts to values.
use vstd::prelude::*;
use crate::voice::VoicePart;

verus! {

/// A map keyed by voice part, with at most one value per part.
#[derive(Debug, Clone)]
pub struct PartMap<V> {
    soprano: Option<V>,
    alto: Option<V>,
    tenor: Option<V>,
    bass: Option<V>,
}

impl<V> PartMap<V> {
    /// The value held for a part, if any.
    pub closed spec fn slot(&self, p: VoicePart) -> Option<V> {
        match p {
            VoicePart::Soprano => self.soprano,
            VoicePart::Alto => self.alto,
            VoicePart::Tenor => self.tenor,
            VoicePart::Bass => self.bass,
        }
    }
}

impl<V> View for PartMap<V> {
    type V = Map<VoicePart, V>;

    closed spec fn view(&self) -> Map<VoicePart, V> {
        Map::new(|p: VoicePart| self.slot(p) is Some, |p: VoicePart| self.slot(p)->0)
    }
}

/// Number of parts that a map holds a value for.
pub open spec fn part_count<V>(m: Map<VoicePart, V>) -> nat {
    (if m.contains_key(VoicePart::Soprano) { 1nat } else { 0nat })
    + (if m.contains_key(VoicePart::Alto) { 1nat } else { 0nat })
    + (if m.contains_key(VoicePart::Tenor) { 1nat } else { 0nat })
    + (if m.contains_key(VoicePart::Bass) { 1nat } else { 0nat })
}

impl<V> PartMap<V> {
    /// Every key of the view is one of the four parts, and the view is finite.
    pub proof fn lemma_view_finite(&self)
        ensures
            self@.dom().finite(),
            self@.dom().len() == part_count(self@),
    {
        let d = self@.dom();
        let mut s = Set::<VoicePart>::empty();
        if d.contains(VoicePart::Soprano) { s = s.insert(VoicePart::Soprano); }
        if d.contains(VoicePart::Alto) { s = s.insert(VoicePart::Alto); }
        if d.contains(VoicePart::Tenor) { s = s.insert(VoicePart::Tenor); }
        if d.contains(VoicePart::Bass) { s = s.insert(VoicePart::Bass); }
        assert(d =~= s);
    }

    /// An empty map.
    pub fn new() -> (r: Self)
        ensures
            r@ == Map::<VoicePart, V>::empty(),
    {
        let r = PartMap { soprano: None, alto: None, tenor: None, bass: None };
        assert(r@ =~= Map::<VoicePart, V>::empty());
        r
    }

    /// Set the value for a part, giving back the value it held before.
    pub fn insert(&mut self, part: VoicePart, value: V) -> (r: Option<V>)
        ensures
            final(self)@ == old(self)@.insert(part, value),
            r == (if old(self)@.contains_key(part) { Some(old(self)@[part]) } else { None::<V> }),
    {
        let r = match part {
            VoicePart::Soprano => { let old_value = self.soprano.take(); self.soprano = Some(value); old_value },
            VoicePart::Alto => { let old_value = self.alto.take(); self.alto = Some(value); old_value },
            VoicePart::Tenor => { let old_value = self.tenor.take(); self.tenor = Some(value); old_value },
            VoicePart::Bass => { let old_value = self.bass.take(); self.bass = Some(value); old_value },
        };
        assert(self@ =~= old(self)@.insert(part, value));
        r
    }

    /// Take the value for a part out of the map.
    pub fn remove(&mut self, part: VoicePart) -> (r: Option<V>)
        ensures
            final(self)@ == old(self)@.remove(part),
            r == (if old(self)@.contains_key(part) { Some(old(self)@[part]) } else { None::<V> }),
    {
        let r = match part {
            VoicePart::Soprano => self.soprano.take(),
            VoicePart::Alto => self.alto.take(),
            VoicePart::Tenor => self.tenor.take(),
            VoicePart::Bass => self.bass.take(),
        };
        assert(self@ =~= old(self)@.remove(part));
        r
    }

    /// The value held for a part, if any.
    pub fn get(&self, part: VoicePart) -> (r: Option<&V>)
        ensures
            r == (if self@.contains_key(part) { Some(&self@[part]) } else { None::<&V> }),
    {
        match part {
            VoicePart::Soprano => self.soprano.as_ref(),
            VoicePart::Alto => self.alto.as_ref(),
            VoicePart::Tenor => self.tenor.as_ref(),
            VoicePart::Bass => self.bass.as_ref(),
        }
    }

    /// Whether the map holds a value for a part.
    pub fn contains_key(&self, part: VoicePart) -> (r: bool)
        ensures
            r == self@.contains_key(part),
    {
        self.get(part).is_some()
    }

    /// Number of parts the map holds a value for.
    pub fn len(&self) -> (r: usize)
        ensures
            r == part_count(self@),
            r == self@.dom().len(),
    {
        proof { self.lemma_view_finite(); }
        let mut n: usize = 0;
        if self.soprano.is_some() { n = n + 1; }
        if self.alto.is_some() { n = n + 1; }
        if self.tenor.is_some() { n = n + 1; }
        if self.bass.is_some() { n = n + 1; }
        n
    }
}

} // verus!
