use agent_choir::balance::section_sizes;
use agent_choir::section::{Singer, VoiceSection};
use agent_choir::voice::VoicePart;

fn make_singer(id: &str, part: VoicePart, skill: f64, versatility: f64) -> Singer {
    Singer {
        id: id.to_string(),
        preferred_part: part,
        skill_bits: skill.to_bits(),
        versatility_bits: versatility.to_bits(),
    }
}

#[test]
fn section_creation() {
    let sec = VoiceSection::new(VoicePart::Soprano);
    assert_eq!(sec.part, VoicePart::Soprano);
    assert!(sec.is_empty());
    assert_eq!(sec.len(), 0);
}

#[test]
fn section_add_singers() {
    let mut sec = VoiceSection::new(VoicePart::Tenor);
    sec.add(make_singer("t1", VoicePart::Tenor, 0.8, 0.5));
    sec.add(make_singer("t2", VoicePart::Tenor, 0.6, 0.3));
    assert_eq!(sec.len(), 2);
    assert_eq!(sec.singers[0].id, "t1");
    assert_eq!(sec.singers[1].id, "t2");
    assert_eq!(f64::from_bits(sec.singers[0].skill_bits), 0.8);
    assert_eq!(f64::from_bits(sec.singers[1].versatility_bits), 0.3);
}

#[test]
fn section_matching_count_counts_preferred() {
    let mut sec = VoiceSection::new(VoicePart::Alto);
    assert_eq!(sec.matching_count(), 0);
    sec.add(make_singer("a1", VoicePart::Alto, 0.9, 0.5));
    sec.add(make_singer("a2", VoicePart::Soprano, 0.3, 0.2));
    sec.add(make_singer("a3", VoicePart::Alto, 0.4, 0.2));
    assert_eq!(sec.matching_count(), 2);
    assert_eq!(sec.len(), 3);
}

#[test]
fn section_matching_count_all_match() {
    let mut sec = VoiceSection::new(VoicePart::Soprano);
    for i in 0..5 {
        sec.add(make_singer(&format!("s{i}"), VoicePart::Soprano, 0.9, 1.0));
    }
    assert_eq!(sec.matching_count(), sec.len());
}

#[test]
fn section_sizes_of_each_part() {
    let mut s = VoiceSection::new(VoicePart::Soprano);
    for i in 0..20 {
        s.add(make_singer(&format!("s{i}"), VoicePart::Soprano, 0.8, 0.5));
    }
    let mut a = VoiceSection::new(VoicePart::Alto);
    a.add(make_singer("a1", VoicePart::Alto, 0.8, 0.5));
    let sizes = section_sizes(&[s, a]);
    assert_eq!(sizes.get(VoicePart::Soprano), Some(&20));
    assert_eq!(sizes.get(VoicePart::Alto), Some(&1));
    assert_eq!(sizes.get(VoicePart::Tenor), None);
    assert_eq!(sizes.len(), 2);
}

#[test]
fn section_sizes_last_section_counts() {
    let mut first = VoiceSection::new(VoicePart::Bass);
    first.add(make_singer("b1", VoicePart::Bass, 0.8, 0.5));
    first.add(make_singer("b2", VoicePart::Bass, 0.8, 0.5));
    let second = VoiceSection::new(VoicePart::Bass);
    let sizes = section_sizes(&[first, second]);
    assert_eq!(sizes.get(VoicePart::Bass), Some(&0));
    assert_eq!(sizes.len(), 1);
}

#[test]
fn section_sizes_empty() {
    let sizes = section_sizes(&[]);
    assert_eq!(sizes.len(), 0);
}
