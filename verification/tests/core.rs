use mortar::AmmoKind;
use mortar::TargetType;
use mortar::Position;
use mortar::TargetPosition;
use mortar::apply_correction;
use mortar::calculate_dispersion;
use mortar::dispersion::DispersionEntry;
use mortar::dispersion::build_dispersion_table;
use mortar::dispersion::parse_ring_key;
use mortar::dispersion::slot_of;

#[test]
fn ammo_kind_roundtrip() {
    for &k in AmmoKind::all().iter() {
        let s = k.as_str();
        let parsed = AmmoKind::from_str(s).expect("parse should succeed");
        assert_eq!(parsed, k);
    }
}

#[test]
fn target_type_roundtrip_and_suggested_ammo() {
    for &t in TargetType::all().iter() {
        let s = t.as_str();
        let parsed = TargetType::from_str(s).expect("parse should succeed");
        assert_eq!(parsed, t);
    }
    assert_eq!(TargetType::Infanterie.suggested_ammo(), AmmoKind::He);
    assert_eq!(TargetType::Vehicule.suggested_ammo(), AmmoKind::He);
    assert_eq!(TargetType::Soutien.suggested_ammo(), AmmoKind::Smoke);
}

#[test]
fn position_examples_hold() {
    let p1 = Position::new("A".to_string(), 0, 0, 0);
    let p2 = Position::new("B".to_string(), 0, 300_000, 400_000);
    assert_eq!(p1.distance_to(&p2), 500_000);

    let east = Position::new("E".to_string(), 0, 100_000, 0);
    let az = p1.azimuth_to(&east);
    assert_eq!(az, 90_000);
}

#[test]
fn distance_is_symmetric_and_zero_on_self() {
    let p1 = Position::new("A".to_string(), 10_000, -25_000, 40_000);
    let p2 = Position::new("B".to_string(), -3_000, 310_000, -420_000);
    assert_eq!(p1.distance_to(&p2), p2.distance_to(&p1));
    assert_eq!(p1.distance_to(&p1), 0);
    assert_eq!(p2.distance_to(&p2), 0);
}

#[test]
fn azimuth_cardinal_directions_are_exact() {
    let origin = Position::new("O".to_string(), 0, 0, 0);
    let north = Position::new("N".to_string(), 0, 0, 250_000);
    let south = Position::new("S".to_string(), 0, 0, -250_000);
    let west = Position::new("W".to_string(), 0, -250_000, 0);
    let northeast = Position::new("NE".to_string(), 0, 77_000, 77_000);
    assert_eq!(origin.azimuth_to(&north), 0);
    assert_eq!(origin.azimuth_to(&south), 180_000);
    assert_eq!(origin.azimuth_to(&west), 270_000);
    assert_eq!(origin.azimuth_to(&northeast), 45_000);
}

#[test]
fn azimuth_stays_in_the_circle() {
    let origin = Position::new("O".to_string(), 0, 0, 0);
    let samples: [(i64, i64); 8] = [
        (1, 1_000_000),
        (-1, 1_000_000),
        (731_000, -12_000),
        (-44_000, -315_000),
        (0, 0),
        (-1_000_000, 1),
        (999_999, 999_998),
        (-5, -5),
    ];
    for &(x, y) in samples.iter() {
        let p = Position::new("P".to_string(), 0, x, y);
        let az = origin.azimuth_to(&p);
        assert!(0 <= az && az < 360_000);
    }
}

#[test]
fn azimuth_lands_in_the_right_quadrant() {
    let origin = Position::new("O".to_string(), 0, 0, 0);
    let se = Position::new("SE".to_string(), 0, 400_000, -300_000);
    let sw = Position::new("SW".to_string(), 0, -400_000, -300_000);
    let nw = Position::new("NW".to_string(), 0, -400_000, 300_000);
    let az_se = origin.azimuth_to(&se);
    let az_sw = origin.azimuth_to(&sw);
    let az_nw = origin.azimuth_to(&nw);
    assert!(90_000 < az_se && az_se < 180_000);
    assert!(180_000 < az_sw && az_sw < 270_000);
    assert!(270_000 < az_nw && az_nw < 360_000);
}

#[test]
fn calculate_dispersion_matches_doc() {
    let d1 = calculate_dispersion(39_000, 105_000, 100_000);
    assert_eq!(d1, 48_750);

    let d2 = calculate_dispersion(39_000, 90_000, 100_000);
    assert_eq!(d2, 35_100);
}

#[test]
fn calculate_dispersion_applies_no_floor() {
    // A weapon far below the target drives the factor negative; the model
    // deliberately applies no floor.
    let d = calculate_dispersion(1_000, 0, 200_000_000);
    assert_eq!(d, -1_999_000);
}

#[test]
fn apply_correction_example() {
    let t = TargetPosition::new("T1".to_string(), 100_000, 500_000, 300_000, TargetType::Infanterie);

    let corrected = apply_correction(&t, -50_000, 30_000);

    assert_eq!(corrected.name, "T1_C");
    assert_eq!(corrected.x, 470_000);
    assert_eq!(corrected.y, 350_000);
    assert_eq!(corrected.elevation, 100_000);
    assert_eq!(corrected.target_type, TargetType::Infanterie);
}

#[test]
fn apply_correction_keeps_existing_suffix() {
    let t = TargetPosition::new("T1_C".to_string(), 0, 470_000, 350_000, TargetType::Vehicule);
    let corrected = apply_correction(&t, 10_000, -20_000);
    assert_eq!(corrected.name, "T1_C");
    assert_eq!(corrected.x, 490_000);
    assert_eq!(corrected.y, 340_000);
}

#[test]
fn ammo_parsing_is_case_insensitive_and_total() {
    assert_eq!(AmmoKind::from_str("he"), Some(AmmoKind::He));
    assert_eq!(AmmoKind::from_str("Smoke"), Some(AmmoKind::Smoke));
    assert_eq!(AmmoKind::from_str("invalid"), None);
    assert_eq!(AmmoKind::from_str(""), None);
    assert_eq!(TargetType::from_str("inf"), Some(TargetType::Infanterie));
    assert_eq!(TargetType::from_str("vehicule"), Some(TargetType::Vehicule));
    assert_eq!(TargetType::from_str("SOU"), Some(TargetType::Soutien));
    assert_eq!(TargetType::from_str("tank"), None);
}

#[test]
fn ring_keys_parse_with_fallback() {
    assert_eq!(parse_ring_key("2R"), 2);
    assert_eq!(parse_ring_key("0R"), 0);
    assert_eq!(parse_ring_key("7"), 7);
    assert_eq!(parse_ring_key("10R"), 10);
    assert_eq!(parse_ring_key("xyz"), 0);
    assert_eq!(parse_ring_key("300R"), 0);
    assert_eq!(parse_ring_key("RR"), 0);
    assert_eq!(parse_ring_key(""), 0);
}

#[test]
fn dispersion_table_builds_with_skips_and_last_wins() {
    let entries = vec![
        DispersionEntry {
            ammo: "HE".to_string(),
            ring_key: "2R".to_string(),
            radius_m: 39_000,
        },
        DispersionEntry {
            ammo: "UNKNOWN".to_string(),
            ring_key: "1R".to_string(),
            radius_m: 11_000,
        },
        DispersionEntry {
            ammo: "he".to_string(),
            ring_key: "2R".to_string(),
            radius_m: 41_000,
        },
        DispersionEntry {
            ammo: "PRACTICE".to_string(),
            ring_key: "0R".to_string(),
            radius_m: 10_000,
        },
    ];
    let table = build_dispersion_table(&entries);
    assert_eq!(table.get(&slot_of(AmmoKind::He, 2)), Some(&41_000));
    assert_eq!(table.get(&slot_of(AmmoKind::Practice, 0)), Some(&10_000));
    assert_eq!(table.get(&slot_of(AmmoKind::Smoke, 1)), None);
    assert_eq!(table.len(), 2);
}
