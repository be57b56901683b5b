use agent_choir::director::{ChoirDirector, Directive};
use agent_choir::partmap::PartMap;
use agent_choir::section::Singer;
use agent_choir::voice::VoicePart;

fn make_singer(id: &str, part: VoicePart, skill: f64, versatility: f64) -> Singer {
    Singer {
        id: id.to_string(),
        preferred_part: part,
        skill_bits: skill.to_bits(),
        versatility_bits: versatility.to_bits(),
    }
}

fn targets_of(s: usize, a: usize, t: usize, b: usize) -> PartMap<usize> {
    let mut targets = PartMap::new();
    targets.insert(VoicePart::Soprano, s);
    targets.insert(VoicePart::Alto, a);
    targets.insert(VoicePart::Tenor, t);
    targets.insert(VoicePart::Bass, b);
    targets
}

fn scores(value: f64) -> PartMap<u64> {
    let mut m = PartMap::new();
    for part in VoicePart::all() {
        m.insert(*part, value.to_bits());
    }
    m
}

#[test]
fn director_hold_when_balanced() {
    let targets = targets_of(2, 2, 2, 2);
    let mut director = ChoirDirector::new(targets, 0.5f64.to_bits(), 0.5f64.to_bits());
    for i in 0..8 {
        let part = VoicePart::all()[i % 4];
        director.add_singer(make_singer(&format!("singer{i}"), part, 0.8, 0.7));
    }

    let directives = director.assess(&scores(0.9));
    for part in VoicePart::all() {
        match directives.get(*part) {
            Some(Directive::Hold) | Some(Directive::Rehearse) => {} // acceptable
            Some(Directive::Grow { .. }) | Some(Directive::Shrink { .. }) => {
                // With exactly target sizes, should not need grow/shrink.
                panic!("{part:?} should be Hold or Rehearse, got {:?}", directives.get(*part));
            }
            None => panic!("Missing directive for {part:?}"),
        }
    }
}

#[test]
fn director_grow_when_understaffed() {
    let targets = targets_of(10, 10, 10, 10);
    let mut director = ChoirDirector::new(targets, 0.5f64.to_bits(), 0.5f64.to_bits());
    director.add_singer(make_singer("s1", VoicePart::Soprano, 0.9, 0.5));

    let directives = director.assess(&PartMap::new());
    match directives.get(VoicePart::Soprano).unwrap() {
        Directive::Grow { target } => assert!(*target > 0),
        other => panic!("Expected Grow, got {other:?}"),
    }
}

#[test]
fn director_shrink_when_overstaffed() {
    let targets = targets_of(1, 1, 1, 1);
    let mut director = ChoirDirector::new(targets, 0.5f64.to_bits(), 0.5f64.to_bits());
    // Add 5 sopranos when target is 1.
    for i in 0..5 {
        director.add_singer(make_singer(&format!("s{i}"), VoicePart::Soprano, 0.7, 0.5));
    }
    // Add 1 to other sections.
    director.add_singer(make_singer("a1", VoicePart::Alto, 0.7, 0.5));
    director.add_singer(make_singer("t1", VoicePart::Tenor, 0.7, 0.5));
    director.add_singer(make_singer("b1", VoicePart::Bass, 0.7, 0.5));

    let directives = director.assess(&scores(0.6));
    match directives.get(VoicePart::Soprano).unwrap() {
        Directive::Shrink { target } => assert_eq!(*target, 4),
        other => panic!("Expected Shrink, got {other:?}"),
    }
}

#[test]
fn director_new_has_empty_section_per_part() {
    let director = ChoirDirector::new(targets_of(3, 3, 3, 3), 0.3f64.to_bits(), 0.4f64.to_bits());
    assert_eq!(director.sections.len(), 4);
    for part in VoicePart::all() {
        let sec = director.sections.get(*part).unwrap();
        assert_eq!(sec.part, *part);
        assert!(sec.is_empty());
    }
    assert_eq!(f64::from_bits(director.blend_threshold_bits), 0.3);
    assert_eq!(f64::from_bits(director.balance_threshold_bits), 0.4);
}

#[test]
fn director_add_singer_goes_to_preferred_section() {
    let mut director = ChoirDirector::new(targets_of(3, 3, 3, 3), 0.3f64.to_bits(), 0.3f64.to_bits());
    director.add_singer(make_singer("t1", VoicePart::Tenor, 0.7, 0.5));
    director.add_singer(make_singer("t2", VoicePart::Tenor, 0.6, 0.5));
    assert_eq!(director.sections.get(VoicePart::Tenor).unwrap().len(), 2);
    assert_eq!(director.sections.get(VoicePart::Tenor).unwrap().singers[1].id, "t2");
    assert_eq!(director.sections.get(VoicePart::Soprano).unwrap().len(), 0);
}

#[test]
fn director_rehearse_when_blend_below_threshold() {
    let mut director = ChoirDirector::new(targets_of(1, 1, 1, 1), 0.5f64.to_bits(), 0.5f64.to_bits());
    for part in VoicePart::all() {
        director.add_singer(make_singer("x", *part, 0.7, 0.5));
    }
    let mut blends = PartMap::new();
    blends.insert(VoicePart::Soprano, 0.49f64.to_bits());
    blends.insert(VoicePart::Alto, 0.5f64.to_bits());
    blends.insert(VoicePart::Tenor, 0.51f64.to_bits());
    blends.insert(VoicePart::Bass, f64::NAN.to_bits());
    let directives = director.assess(&blends);
    assert_eq!(directives.get(VoicePart::Soprano), Some(&Directive::Rehearse));
    assert_eq!(directives.get(VoicePart::Alto), Some(&Directive::Hold));
    assert_eq!(directives.get(VoicePart::Tenor), Some(&Directive::Hold));
    assert_eq!(directives.get(VoicePart::Bass), Some(&Directive::Hold));
}

#[test]
fn director_directives_restore_targets() {
    let mut director = ChoirDirector::new(targets_of(4, 0, 2, 7), 0.5f64.to_bits(), 0.5f64.to_bits());
    for i in 0..6 {
        director.add_singer(make_singer(&format!("s{i}"), VoicePart::Soprano, 0.7, 0.5));
    }
    director.add_singer(make_singer("a", VoicePart::Alto, 0.7, 0.5));
    director.add_singer(make_singer("b", VoicePart::Bass, 0.7, 0.5));
    let directives = director.assess(&PartMap::new());
    assert_eq!(directives.len(), 4);
    assert_eq!(directives.get(VoicePart::Soprano), Some(&Directive::Shrink { target: 2 }));
    assert_eq!(directives.get(VoicePart::Alto), Some(&Directive::Shrink { target: 1 }));
    assert_eq!(directives.get(VoicePart::Tenor), Some(&Directive::Grow { target: 2 }));
    assert_eq!(directives.get(VoicePart::Bass), Some(&Directive::Grow { target: 6 }));
}

#[test]
fn director_missing_target_is_zero() {
    let mut director = ChoirDirector::new(PartMap::new(), 0.5f64.to_bits(), 0.5f64.to_bits());
    director.add_singer(make_singer("s", VoicePart::Soprano, 0.7, 0.5));
    let mut blends = PartMap::new();
    blends.insert(VoicePart::Alto, 0.1f64.to_bits());
    blends.insert(VoicePart::Tenor, 0.9f64.to_bits());
    blends.insert(VoicePart::Bass, 0.9f64.to_bits());
    let directives = director.assess(&blends);
    assert_eq!(directives.get(VoicePart::Soprano), Some(&Directive::Shrink { target: 1 }));
    assert_eq!(directives.get(VoicePart::Alto), Some(&Directive::Rehearse));
    assert_eq!(directives.get(VoicePart::Bass), Some(&Directive::Hold));
}

#[test]
fn choir_of_100_directives() {
    let targets = targets_of(30, 25, 25, 20);
    let mut director = ChoirDirector::new(targets, 0.3f64.to_bits(), 0.3f64.to_bits());
    for i in 0..100 {
        let part = VoicePart::all()[i % 4];
        director.add_singer(make_singer(
            &format!("singer{i:03}"),
            part,
            0.5 + (i as f64 % 50.0) / 100.0,
            0.3 + (i as f64 % 30.0) / 100.0,
        ));
    }
    let directives = director.assess(&scores(0.8));
    assert_eq!(directives.len(), 4);
    assert_eq!(directives.get(VoicePart::Soprano), Some(&Directive::Grow { target: 5 }));
    assert_eq!(directives.get(VoicePart::Alto), Some(&Directive::Hold));
    assert_eq!(directives.get(VoicePart::Bass), Some(&Directive::Shrink { target: 5 }));
}
