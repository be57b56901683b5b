use agent_choir::allocation::{allocate_parts, Allocation};
use agent_choir::partmap::PartMap;
use agent_choir::section::Singer;
use agent_choir::voice::VoicePart;

fn make_singer(id: &str, part: VoicePart, skill: f64, versatility: f64) -> Singer {
    Singer {
        id: id.to_string(),
        preferred_part: part,
        skill_bits: skill.to_bits(),
        versatility_bits: versatility.to_bits(),
    }
}

fn targets_of(s: usize, a: usize, t: usize, b: usize) -> PartMap<usize> {
    let mut targets = PartMap::new();
    targets.insert(VoicePart::Soprano, s);
    targets.insert(VoicePart::Alto, a);
    targets.insert(VoicePart::Tenor, t);
    targets.insert(VoicePart::Bass, b);
    targets
}

fn part_of(allocs: &[Allocation], id: &str) -> VoicePart {
    allocs.iter().find(|a| a.singer_id == id).unwrap().assigned_part
}

#[test]
fn allocation_preferred_parts() {
    let singers = vec![
        make_singer("s1", VoicePart::Soprano, 0.9, 0.5),
        make_singer("a1", VoicePart::Alto, 0.8, 0.5),
    ];
    let targets = targets_of(1, 1, 0, 0);

    let allocs = allocate_parts(&singers, &targets);
    assert_eq!(allocs.len(), 2);
    let s_alloc = allocs.iter().find(|a| a.singer_id == "s1").unwrap();
    assert_eq!(s_alloc.assigned_part, VoicePart::Soprano);
    let a_alloc = allocs.iter().find(|a| a.singer_id == "a1").unwrap();
    assert_eq!(a_alloc.assigned_part, VoicePart::Alto);
}

#[test]
fn allocation_overflow_redistributes() {
    // 4 sopranos but only 1 slot: 3 overflow.
    let singers = vec![
        make_singer("s1", VoicePart::Soprano, 0.9, 0.8),
        make_singer("s2", VoicePart::Soprano, 0.7, 0.9),
        make_singer("s3", VoicePart::Soprano, 0.5, 0.6),
        make_singer("s4", VoicePart::Soprano, 0.3, 0.4),
    ];
    let targets = targets_of(1, 1, 1, 1);

    let allocs = allocate_parts(&singers, &targets);
    // Best singer stays in soprano.
    let s_alloc = allocs.iter().find(|a| a.singer_id == "s1").unwrap();
    assert_eq!(s_alloc.assigned_part, VoicePart::Soprano);
    // The other 3 should be distributed to other parts.
    let parts: std::collections::HashSet<VoicePart> = allocs.iter().map(|a| a.assigned_part).collect();
    assert!(
        parts.contains(&VoicePart::Alto) || parts.contains(&VoicePart::Tenor)
            || parts.contains(&VoicePart::Bass)
    );
}

#[test]
fn allocation_overflow_goes_to_neediest_in_score_order() {
    let singers = vec![
        make_singer("s1", VoicePart::Soprano, 0.9, 0.8),
        make_singer("s2", VoicePart::Soprano, 0.7, 0.9),
        make_singer("s3", VoicePart::Soprano, 0.5, 0.6),
        make_singer("s4", VoicePart::Soprano, 0.3, 0.4),
    ];
    let targets = targets_of(1, 1, 1, 1);
    let allocs = allocate_parts(&singers, &targets);
    // All others are 1 below target: ties go to the first part in score order,
    // and the strongest of the overflow moves first.
    assert_eq!(part_of(&allocs, "s2"), VoicePart::Alto);
    assert_eq!(part_of(&allocs, "s3"), VoicePart::Tenor);
    assert_eq!(part_of(&allocs, "s4"), VoicePart::Bass);
    let order: Vec<&str> = allocs.iter().map(|a| a.singer_id.as_str()).collect();
    assert_eq!(order, vec!["s1", "s2", "s3", "s4"]);
    for a in &allocs {
        assert_eq!(singers[a.singer_index].id, a.singer_id);
    }
}

#[test]
fn allocation_keeps_the_most_skilled() {
    let singers = vec![
        make_singer("weak", VoicePart::Tenor, 0.2, 0.5),
        make_singer("strong", VoicePart::Tenor, 0.95, 0.5),
        make_singer("mid", VoicePart::Tenor, 0.6, 0.5),
    ];
    let targets = targets_of(0, 5, 2, 0);
    let allocs = allocate_parts(&singers, &targets);
    assert_eq!(part_of(&allocs, "strong"), VoicePart::Tenor);
    assert_eq!(part_of(&allocs, "mid"), VoicePart::Tenor);
    assert_eq!(part_of(&allocs, "weak"), VoicePart::Alto);
    // Kept tenors come out sorted by descending skill.
    let tenors: Vec<&str> = allocs
        .iter()
        .filter(|a| a.assigned_part == VoicePart::Tenor)
        .map(|a| a.singer_id.as_str())
        .collect();
    assert_eq!(tenors, vec!["strong", "mid"]);
}

#[test]
fn allocation_equal_skills_keep_their_order() {
    let singers = vec![
        make_singer("b1", VoicePart::Bass, 0.5, 0.5),
        make_singer("b2", VoicePart::Bass, 0.5, 0.5),
        make_singer("b3", VoicePart::Bass, 0.5, 0.5),
    ];
    let targets = targets_of(0, 0, 3, 1);
    let allocs = allocate_parts(&singers, &targets);
    assert_eq!(part_of(&allocs, "b1"), VoicePart::Bass);
    assert_eq!(part_of(&allocs, "b2"), VoicePart::Tenor);
    assert_eq!(part_of(&allocs, "b3"), VoicePart::Tenor);
}

#[test]
fn allocation_missing_target_counts_as_zero() {
    let singers = vec![
        make_singer("a1", VoicePart::Alto, 0.5, 0.5),
        make_singer("a2", VoicePart::Alto, 0.6, 0.5),
    ];
    let mut targets = PartMap::new();
    targets.insert(VoicePart::Bass, 1);
    targets.insert(VoicePart::Tenor, 1);
    let allocs = allocate_parts(&singers, &targets);
    // Alto has target 0: both leave, the stronger first, to the neediest part.
    assert_eq!(part_of(&allocs, "a2"), VoicePart::Tenor);
    assert_eq!(part_of(&allocs, "a1"), VoicePart::Bass);
}

#[test]
fn allocation_every_singer_once_and_within_targets() {
    let mut singers = Vec::new();
    for i in 0..40 {
        let part = VoicePart::all()[(i * 7) % 4];
        let part = if i % 3 == 0 { VoicePart::Soprano } else { part };
        singers.push(make_singer(&format!("x{i}"), part, (i as f64 * 0.37) % 1.0, 0.5));
    }
    let targets = targets_of(10, 10, 12, 8);
    let allocs = allocate_parts(&singers, &targets);
    assert_eq!(allocs.len(), singers.len());
    let mut seen = vec![false; singers.len()];
    for a in &allocs {
        assert!(!seen[a.singer_index]);
        seen[a.singer_index] = true;
    }
    let limits = [10, 10, 12, 8];
    for (k, part) in VoicePart::all().iter().enumerate() {
        let n = allocs.iter().filter(|a| a.assigned_part == *part).count();
        assert!(n <= limits[k]);
    }
}

#[test]
fn allocation_no_overflow_keeps_preferences() {
    let singers = vec![
        make_singer("t1", VoicePart::Tenor, 0.1, 0.5),
        make_singer("s1", VoicePart::Soprano, 0.2, 0.5),
        make_singer("t2", VoicePart::Tenor, 0.3, 0.5),
    ];
    let targets = targets_of(3, 0, 2, 0);
    let allocs = allocate_parts(&singers, &targets);
    for a in &allocs {
        assert_eq!(a.assigned_part, singers[a.singer_index].preferred_part);
    }
    let order: Vec<&str> = allocs.iter().map(|a| a.singer_id.as_str()).collect();
    assert_eq!(order, vec!["s1", "t1", "t2"]);
}

#[test]
fn allocation_of_nobody() {
    let allocs = allocate_parts(&[], &targets_of(1, 1, 1, 1));
    assert!(allocs.is_empty());
}

#[test]
fn allocation_lone_singer_without_targets_comes_back() {
    // Soprano has target 0: the singer moves to Alto (all parts equally
    // needy, first in score order); Alto has target 0 too and sends them to
    // the neediest other part, Soprano, which is not visited again.
    let singers = vec![make_singer("s", VoicePart::Soprano, 0.5, 0.5)];
    let allocs = allocate_parts(&singers, &PartMap::new());
    assert_eq!(allocs.len(), 1);
    assert_eq!(allocs[0].assigned_part, VoicePart::Soprano);
    assert_eq!(allocs[0].singer_index, 0);
}
