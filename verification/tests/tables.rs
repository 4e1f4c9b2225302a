use std::collections::BTreeMap;

use mortar::AmmoKind;
use mortar::BallisticPoint;
use mortar::BallisticTable;
use mortar::BallisticsMap;
use mortar::DispersionTable;
use mortar::MortarPosition;
use mortar::TargetPosition;
use mortar::TargetType;
use mortar::calculate_solution;
use mortar::calculate_solution_with_dispersion;
use mortar::api::ammo_types_response;
use mortar::api::available_rings;
use mortar::api::types_response;
use mortar::dispersion::slot_of;

fn table(points: Vec<(i64, i64)>) -> BallisticTable {
    BallisticTable {
        points: points
            .into_iter()
            .map(|(range_m, elev_mil)| BallisticPoint { range_m, elev_mil })
            .collect(),
    }
}

#[test]
fn ballistic_table_interpolation_and_bounds() {
    let t = table(vec![(0, 1_000_000), (100_000, 900_000)]);

    assert_eq!(t.elev_at(0), Some(1_000_000));
    assert_eq!(t.elev_at(100_000), Some(900_000));
    assert_eq!(t.elev_at(50_000), Some(950_000));
    assert_eq!(t.elev_at(-10_000), None);
    assert_eq!(t.elev_at(150_000), None);
}

#[test]
fn ballistic_table_needs_two_points() {
    let t = table(vec![(50_000, 1_540_000)]);
    assert_eq!(t.elev_at(50_000), None);
    assert_eq!(t.range_bounds(), Some((50_000, 50_000)));
    let empty = table(vec![]);
    assert_eq!(empty.range_bounds(), None);
}

#[test]
fn from_points_sorts_dedups_and_filters() {
    let raw = vec![
        BallisticPoint { range_m: 100_000, elev_mil: 900_000 },
        BallisticPoint { range_m: 0, elev_mil: 1_000_000 },
        BallisticPoint { range_m: 100_000, elev_mil: 890_000 },
        BallisticPoint { range_m: 2_000_000_000, elev_mil: 1 },
    ];
    let t = BallisticTable::from_points(&raw);
    assert_eq!(t.points.len(), 2);
    assert_eq!(t.points[0].range_m, 0);
    assert_eq!(t.points[0].elev_mil, 1_000_000);
    assert_eq!(t.points[1].range_m, 100_000);
    assert_eq!(t.points[1].elev_mil, 890_000);
}

#[test]
fn calculate_solution_with_dispersion_populates_struct() {
    let mut ballistics: BallisticsMap = BTreeMap::new();
    ballistics.insert(
        slot_of(AmmoKind::He, 2),
        table(vec![(0, 1_200_000), (600_000, 1_100_000)]),
    );
    let mut dispersions: DispersionTable = BTreeMap::new();
    dispersions.insert(slot_of(AmmoKind::He, 2), 39_000);

    let mortar = MortarPosition::new("M1".into(), 100_000, 0, 0, AmmoKind::He);
    let target = TargetPosition::new("T1".into(), 50_000, 500_000, 300_000, TargetType::Infanterie);

    let sol = calculate_solution_with_dispersion(&mortar, &target, &ballistics, &dispersions);

    assert!(sol.distance_m > 0);
    assert!(sol.azimuth_deg >= 0 && sol.azimuth_deg < 360_000);
    assert_eq!(sol.mortar_ammo, "HE");
    assert_eq!(sol.target_type, "INFANTERIE");
    assert_eq!(sol.recommended_ammo, "HE");
    assert_eq!(sol.solutions.len(), 20);
    assert_eq!(sol.dispersions.len(), 20);
    let sel = sol.selected_solution.as_ref().expect("selected_solution");
    assert_eq!(sel.ammo_type, "HE");
    assert_eq!(sel.elevations.len(), 5);
    assert_eq!(sel.dispersions.len(), 5);
}

#[test]
fn end_to_end_solution_is_exact() {
    let mut ballistics: BallisticsMap = BTreeMap::new();
    ballistics.insert(
        slot_of(AmmoKind::He, 2),
        table(vec![(0, 1_200_000), (600_000, 1_100_000)]),
    );
    let mut dispersions: DispersionTable = BTreeMap::new();
    dispersions.insert(slot_of(AmmoKind::He, 2), 39_000);

    let mortar = MortarPosition::new("M1".into(), 100_000, 0, 0, AmmoKind::He);
    let target = TargetPosition::new("T1".into(), 50_000, 500_000, 300_000, TargetType::Infanterie);

    let sol = calculate_solution_with_dispersion(&mortar, &target, &ballistics, &dispersions);

    // The 500 by 300 meter offset gives the floor of sqrt(340000) meters.
    assert_eq!(sol.distance_m, 583_095);
    assert_eq!(sol.elevation_diff_m, 50_000);
    assert_eq!(sol.signed_elevation_diff_m, 50_000);

    let sel = sol.selected_solution.as_ref().expect("selected_solution");
    let elev = sel.elevations[2].expect("ring 2 elevation");
    assert!(1_100_000 < elev && elev < 1_200_000);
    assert_eq!(elev, 1_102_818);
    // The matrix cell of the loaded projectile agrees with the selected row:
    // the high-explosive row is the second of four.
    assert_eq!(sol.solutions[1 * 5 + 2], Some(1_102_818));
    // Fifty meters of height advantage grow the dispersion by a factor of
    // three and a half.
    assert_eq!(sel.dispersions[2], Some(136_500));
    // Cells without published data stay empty.
    assert_eq!(sol.solutions[0], None);
    assert_eq!(sel.elevations[0], None);
    assert_eq!(sel.dispersions[0], None);
}

#[test]
fn empty_tables_still_give_a_fully_shaped_result() {
    let ballistics: BallisticsMap = BTreeMap::new();
    let mortar = MortarPosition::new("M1".into(), 0, 0, 0, AmmoKind::Smoke);
    let target = TargetPosition::new("T1".into(), 0, 1_000, 1_000, TargetType::Soutien);

    let sol = calculate_solution(&mortar, &target, &ballistics);

    assert_eq!(sol.mortar_ammo, "SMOKE");
    assert_eq!(sol.target_type, "SOUTIEN");
    assert_eq!(sol.recommended_ammo, "SMOKE");
    assert_eq!(sol.solutions.len(), 20);
    assert!(sol.solutions.iter().all(|c| c.is_none()));
    assert!(sol.dispersions.iter().all(|c| c.is_none()));
    let sel = sol.selected_solution.as_ref().expect("selected_solution");
    assert!(sel.elevations.iter().all(|c| c.is_none()));
    assert!(sel.dispersions.iter().all(|c| c.is_none()));
}

#[test]
fn types_endpoint_values() {
    let types = types_response();
    assert_eq!(types.ammo_types, vec!["PRACTICE", "HE", "SMOKE", "FLARE"]);
    assert_eq!(types.target_types, vec!["INFANTERIE", "VEHICULE", "SOUTIEN"]);
}

#[test]
fn ammo_catalogue_lists_only_kinds_with_data() {
    let mut ballistics: BallisticsMap = BTreeMap::new();
    ballistics.insert(slot_of(AmmoKind::He, 1), table(vec![(0, 1_000), (1_000, 2_000)]));
    ballistics.insert(slot_of(AmmoKind::He, 3), table(vec![(0, 1_000), (1_000, 2_000)]));
    ballistics.insert(slot_of(AmmoKind::Flare, 4), table(vec![(0, 1_000), (1_000, 2_000)]));

    assert_eq!(available_rings(&ballistics, AmmoKind::He), vec![1, 3]);
    assert_eq!(available_rings(&ballistics, AmmoKind::Practice), Vec::<u8>::new());

    let catalogue = ammo_types_response(&ballistics);
    assert_eq!(catalogue.ammo_types.len(), 2);
    assert_eq!(catalogue.ammo_types[0].name, "HE");
    assert_eq!(catalogue.ammo_types[0].rings, vec![1, 3]);
    assert_eq!(catalogue.ammo_types[1].name, "FLARE");
    assert_eq!(catalogue.ammo_types[1].rings, vec![4]);
}
