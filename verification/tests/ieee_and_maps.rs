use agent_choir::ieee::{float_lt, is_nan, rank_lt};
use agent_choir::partmap::PartMap;
use agent_choir::voice::VoicePart;

const SAMPLES: [f64; 12] = [
    f64::NEG_INFINITY,
    -2.5,
    -1.0,
    -0.25,
    -0.0,
    0.0,
    1e-300,
    0.25,
    0.5,
    1.0,
    3.75,
    f64::INFINITY,
];

#[test]
fn float_lt_agrees_with_f64_less_than() {
    for a in SAMPLES {
        for b in SAMPLES {
            assert_eq!(float_lt(a.to_bits(), b.to_bits()), a < b, "{a} < {b}");
        }
    }
}

#[test]
fn rank_order_agrees_with_f64_order() {
    for a in SAMPLES {
        for b in SAMPLES {
            assert_eq!(rank_lt(a.to_bits(), b.to_bits()), a < b, "{a} < {b}");
        }
    }
}

#[test]
fn nan_compares_false() {
    let nan = f64::NAN.to_bits();
    assert!(is_nan(nan));
    assert!(is_nan((-f64::NAN).to_bits()));
    assert!(!is_nan(f64::INFINITY.to_bits()));
    assert!(!is_nan(0.5f64.to_bits()));
    for a in SAMPLES {
        assert!(!float_lt(nan, a.to_bits()));
        assert!(!float_lt(a.to_bits(), nan));
    }
}

#[test]
fn zeros_are_equal() {
    assert!(!float_lt((-0.0f64).to_bits(), 0.0f64.to_bits()));
    assert!(!float_lt(0.0f64.to_bits(), (-0.0f64).to_bits()));
}

#[test]
fn part_map_insert_get_remove() {
    let mut m: PartMap<u32> = PartMap::new();
    assert_eq!(m.len(), 0);
    assert_eq!(m.insert(VoicePart::Tenor, 7), None);
    assert_eq!(m.insert(VoicePart::Tenor, 8), Some(7));
    assert_eq!(m.get(VoicePart::Tenor), Some(&8));
    assert_eq!(m.get(VoicePart::Alto), None);
    assert!(m.contains_key(VoicePart::Tenor));
    assert!(!m.contains_key(VoicePart::Bass));
    m.insert(VoicePart::Bass, 1);
    assert_eq!(m.len(), 2);
    assert_eq!(m.remove(VoicePart::Tenor), Some(8));
    assert_eq!(m.remove(VoicePart::Tenor), None);
    assert_eq!(m.len(), 1);
    assert_eq!(m.get(VoicePart::Bass), Some(&1));
}
