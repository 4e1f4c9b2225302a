//! The solution engine: for a weapon and a target it derives distance,
//! bearing and altitude difference, fills the full projectile-by-ring matrix
//! of sight elevations and altitude-adjusted dispersions, and selects the
//! row of the loaded projectile. Missing data never fails a computation: a
//! gap in the tables yields an empty cell.

use vstd::prelude::*;
use std::collections::BTreeMap;
use crate::ammo::AmmoKind;
use crate::geometry::MortarPosition;
use crate::geometry::TargetPosition;
use crate::geometry::bearing_spec;
use crate::geometry::distance_xy;
use crate::geometry::in_unit_range;
use crate::dispersion::DispersionTable;
use crate::dispersion::adjust_spec;
use crate::dispersion::calculate_dispersion;
use crate::dispersion::slot_of;
use crate::dispersion::slot_spec;
use crate::numeric::abs_spec;
use crate::table::BallisticTable;
use crate::table::Ring;
use crate::table::elev_at_spec;
use vstd::string::StringExecFns;
use vstd::arithmetic::div_mod::lemma_fundamental_div_mod_converse;

verus! {

/// Ballistic tables keyed by projectile type and precision ring through
/// [`slot_of`]. Absence of a key means no published table.
pub type BallisticsMap = BTreeMap<u64, BallisticTable>;

/// The number of precision rings in the solution matrix.
pub const RING_COUNT: usize = 5;

/// The number of cells in the full solution matrix: four projectile types
/// by five precision rings.
pub const MATRIX_CELLS: usize = 20;

/// Holds when every table in the map is well formed.
pub open spec fn ballistics_wf(b: Map<u64, BallisticTable>) -> bool {
    forall|k: u64| b.contains_key(k) ==> (#[trigger] b[k]).wf()
}

/// Holds when every base radius in the map is inside the accepted machine
/// range.
pub open spec fn dispersion_wf(d: Map<u64, i64>) -> bool {
    forall|k: u64| d.contains_key(k) ==> in_unit_range((#[trigger] d[k]) as int)
}

/// The value of an optional fixed-point cell, widened to an optional
/// integer.
pub open spec fn opt_as_int(o: Option<i64>) -> Option<int> {
    match o {
        Some(v) => Some(v as int),
        None => None,
    }
}

/// The projectile type of a matrix row, in the fixed enumeration order.
pub open spec fn kind_of_row(row: int) -> AmmoKind {
    if row == 0 {
        AmmoKind::Practice
    } else if row == 1 {
        AmmoKind::He
    } else if row == 2 {
        AmmoKind::Smoke
    } else {
        AmmoKind::Flare
    }
}

/// The projectile type that owns the matrix cell at flat index `i`.
pub open spec fn cell_kind(i: int) -> AmmoKind {
    kind_of_row(i / 5)
}

/// The precision ring of the matrix cell at flat index `i`.
pub open spec fn cell_ring(i: int) -> int {
    i % 5
}

/// The sight elevation that the tables publish for the given projectile
/// type, ring and distance: nothing when no table exists for the pair or
/// the distance falls outside the table's span.
pub open spec fn elev_cell(
    b: Map<u64, BallisticTable>,
    kind: AmmoKind,
    ring: int,
    dist: int,
) -> Option<int> {
    let key = slot_spec(kind, ring) as u64;
    if b.contains_key(key) {
        elev_at_spec(b[key].points@, dist)
    } else {
        None
    }
}

/// The altitude-adjusted dispersion radius for the given projectile type
/// and ring: nothing when no base radius is published for the pair.
pub open spec fn disp_cell(
    d: Map<u64, i64>,
    kind: AmmoKind,
    ring: int,
    mortar_elev: int,
    target_elev: int,
) -> Option<int> {
    let key = slot_spec(kind, ring) as u64;
    if d.contains_key(key) {
        Some(adjust_spec(d[key] as int, mortar_elev, target_elev))
    } else {
        None
    }
}

/// The matrix row of the loaded projectile, one optional elevation and one
/// optional adjusted dispersion per precision ring.
#[derive(Clone, Debug)]
pub struct SelectedSolution {
    /// The canonical name of the loaded projectile type.
    pub ammo_type: String,
    /// One optional sight elevation per ring, in thousandths of a mil.
    pub elevations: Vec<Option<i64>>,
    /// One optional adjusted dispersion radius per ring, in thousandths of
    /// a meter.
    pub dispersions: Vec<Option<i64>>,
}

/// A complete firing solution: the geometric quantities, the full
/// projectile-by-ring matrix, and the row of the loaded projectile. A
/// snapshot, computed fresh from its inputs.
#[derive(Clone, Debug)]
pub struct FiringSolution {
    /// Planar distance in thousandths of a meter.
    pub distance_m: i64,
    /// Bearing in thousandths of a degree, clockwise from north.
    pub azimuth_deg: i64,
    /// Absolute altitude difference in thousandths of a meter.
    pub elevation_diff_m: i64,
    /// Weapon altitude minus target altitude, in thousandths of a meter.
    pub signed_elevation_diff_m: i64,
    /// The canonical name of the loaded projectile type.
    pub mortar_ammo: String,
    /// The canonical name of the target classification.
    pub target_type: String,
    /// The canonical name of the recommended projectile type.
    pub recommended_ammo: String,
    /// The elevation matrix, row-major: the cell for projectile row `k` and
    /// ring `r` sits at index `k * 5 + r`.
    pub solutions: Vec<Option<i64>>,
    /// The adjusted-dispersion matrix, laid out like `solutions`.
    pub dispersions: Vec<Option<i64>>,
    /// The matrix row of the loaded projectile.
    pub selected_solution: Option<SelectedSolution>,
}

/// Looks up the sight elevation for one projectile type, ring and distance.
fn lookup_elev(ballistics: &BallisticsMap, kind: AmmoKind, ring: Ring, dist: i64) -> (r: Option<
    i64>)
    requires
        ballistics_wf(ballistics@),
    ensures
        opt_as_int(r) == elev_cell(ballistics@, kind, ring as int, dist as int),
{
    let key = slot_of(kind, ring);
    match ballistics.get(&key) {
        Some(t) => t.elev_at(dist),
        None => None,
    }
}

/// Looks up and altitude-adjusts the dispersion radius for one projectile
/// type and ring.
fn lookup_disp(
    dispersion: &DispersionTable,
    kind: AmmoKind,
    ring: Ring,
    mortar_elev: i64,
    target_elev: i64,
) -> (r: Option<i64>)
    requires
        dispersion_wf(dispersion@),
        in_unit_range(mortar_elev as int),
        in_unit_range(target_elev as int),
    ensures
        opt_as_int(r) == disp_cell(
            dispersion@,
            kind,
            ring as int,
            mortar_elev as int,
            target_elev as int,
        ),
{
    let key = slot_of(kind, ring);
    match dispersion.get(&key) {
        Some(base) => Some(calculate_dispersion(*base, mortar_elev, target_elev)),
        None => None,
    }
}

/// Computes the full firing solution with altitude-adjusted dispersions.
///
/// Every cell of the four-by-five matrix is present in the result; a pair
/// with no published table, a distance outside a table's span, or a pair
/// with no published dispersion leaves an empty cell rather than failing.
pub fn calculate_solution_with_dispersion(
    mortar: &MortarPosition,
    target: &TargetPosition,
    ballistics: &BallisticsMap,
    dispersion_table: &DispersionTable,
) -> (r: FiringSolution)
    requires
        mortar.wf(),
        target.wf(),
        ballistics_wf(ballistics@),
        dispersion_wf(dispersion_table@),
    ensures
        r.distance_m == distance_xy(
            mortar.x as int,
            mortar.y as int,
            target.x as int,
            target.y as int,
        ),
        r.azimuth_deg == bearing_spec(target.x - mortar.x, target.y - mortar.y),
        0 <= r.azimuth_deg < crate::geometry::FULL_CIRCLE,
        r.elevation_diff_m == abs_spec(mortar.elevation - target.elevation),
        r.signed_elevation_diff_m == mortar.elevation - target.elevation,
        r.mortar_ammo@ == mortar.ammo_type.name_spec(),
        r.target_type@ == target.target_type.name_spec(),
        r.recommended_ammo@ == target.target_type.suggested_ammo_spec().name_spec(),
        r.solutions@.len() == MATRIX_CELLS,
        r.dispersions@.len() == MATRIX_CELLS,
        forall|i: int|
            0 <= i < MATRIX_CELLS ==> opt_as_int(#[trigger] r.solutions@[i]) == elev_cell(
                ballistics@,
                cell_kind(i),
                cell_ring(i),
                r.distance_m as int,
            ),
        forall|i: int|
            0 <= i < MATRIX_CELLS ==> opt_as_int(#[trigger] r.dispersions@[i]) == disp_cell(
                dispersion_table@,
                cell_kind(i),
                cell_ring(i),
                mortar.elevation as int,
                target.elevation as int,
            ),
        match r.selected_solution {
            Some(sel) => {
                &&& sel.ammo_type@ == mortar.ammo_type.name_spec()
                &&& sel.elevations@.len() == RING_COUNT
                &&& sel.dispersions@.len() == RING_COUNT
                &&& forall|ring: int|
                    0 <= ring < RING_COUNT ==> opt_as_int(#[trigger] sel.elevations@[ring])
                        == elev_cell(ballistics@, mortar.ammo_type, ring, r.distance_m as int)
                &&& forall|ring: int|
                    0 <= ring < RING_COUNT ==> opt_as_int(#[trigger] sel.dispersions@[ring])
                        == disp_cell(
                        dispersion_table@,
                        mortar.ammo_type,
                        ring,
                        mortar.elevation as int,
                        target.elevation as int,
                    )
            },
            None => false,
        },
{
    let mortar_pos = mortar.as_position();
    let target_pos = target.as_position();
    let distance_m = mortar_pos.distance_to(&target_pos);
    let azimuth_deg = mortar_pos.azimuth_to(&target_pos);
    let elevation_diff_m = mortar_pos.elevation_difference(&target_pos);
    let signed_elevation_diff_m = mortar.elevation - target.elevation;

    let kinds = AmmoKind::all();
    let mut solutions: Vec<Option<i64>> = Vec::new();
    let mut dispersions: Vec<Option<i64>> = Vec::new();
    let mut row: usize = 0;
    while row < 4
        invariant
            mortar.wf(),
            target.wf(),
            ballistics_wf(ballistics@),
            dispersion_wf(dispersion_table@),
            kinds@ == seq![AmmoKind::Practice, AmmoKind::He, AmmoKind::Smoke, AmmoKind::Flare],
            0 <= row <= 4,
            solutions@.len() == row * 5,
            dispersions@.len() == row * 5,
            forall|i: int|
                0 <= i < solutions@.len() ==> opt_as_int(#[trigger] solutions@[i]) == elev_cell(
                    ballistics@,
                    cell_kind(i),
                    cell_ring(i),
                    distance_m as int,
                ),
            forall|i: int|
                0 <= i < dispersions@.len() ==> opt_as_int(#[trigger] dispersions@[i]) == disp_cell(
                    dispersion_table@,
                    cell_kind(i),
                    cell_ring(i),
                    mortar.elevation as int,
                    target.elevation as int,
                ),
        decreases 4 - row,
    {
        let kind = kinds[row];
        let mut ring: usize = 0;
        while ring < RING_COUNT
            invariant
                mortar.wf(),
                target.wf(),
                ballistics_wf(ballistics@),
                dispersion_wf(dispersion_table@),
                kinds@ == seq![AmmoKind::Practice, AmmoKind::He, AmmoKind::Smoke, AmmoKind::Flare],
                0 <= row < 4,
                kind == kinds@[row as int],
                kind == kind_of_row(row as int),
                0 <= ring <= RING_COUNT,
                solutions@.len() == row * 5 + ring,
                dispersions@.len() == row * 5 + ring,
                forall|i: int|
                    0 <= i < solutions@.len() ==> opt_as_int(#[trigger] solutions@[i]) == elev_cell(
                        ballistics@,
                        cell_kind(i),
                        cell_ring(i),
                        distance_m as int,
                    ),
                forall|i: int|
                    0 <= i < dispersions@.len() ==> opt_as_int(#[trigger] dispersions@[i])
                        == disp_cell(
                        dispersion_table@,
                        cell_kind(i),
                        cell_ring(i),
                        mortar.elevation as int,
                        target.elevation as int,
                    ),
            decreases RING_COUNT - ring,
        {
            let idx = row * 5 + ring;
            proof {
                lemma_fundamental_div_mod_converse(idx as int, 5, row as int, ring as int);
                assert(cell_kind(idx as int) == kind);
                assert(cell_ring(idx as int) == ring as int);
            }
            let e = lookup_elev(ballistics, kind, ring as u8, distance_m);
            let d = lookup_disp(dispersion_table, kind, ring as u8, mortar.elevation, target.elevation);
            solutions.push(e);
            dispersions.push(d);
            ring = ring + 1;
        }
        row = row + 1;
    }

    let selected_ammo = mortar.ammo_type;
    let mut selected_elevations: Vec<Option<i64>> = Vec::new();
    let mut selected_dispersions: Vec<Option<i64>> = Vec::new();
    let mut ring: usize = 0;
    while ring < RING_COUNT
        invariant
            mortar.wf(),
            target.wf(),
            ballistics_wf(ballistics@),
            dispersion_wf(dispersion_table@),
            selected_ammo == mortar.ammo_type,
            0 <= ring <= RING_COUNT,
            selected_elevations@.len() == ring,
            selected_dispersions@.len() == ring,
            forall|j: int|
                0 <= j < selected_elevations@.len() ==> opt_as_int(
                    #[trigger] selected_elevations@[j],
                ) == elev_cell(ballistics@, mortar.ammo_type, j, distance_m as int),
            forall|j: int|
                0 <= j < selected_dispersions@.len() ==> opt_as_int(
                    #[trigger] selected_dispersions@[j],
                ) == disp_cell(
                    dispersion_table@,
                    mortar.ammo_type,
                    j,
                    mortar.elevation as int,
                    target.elevation as int,
                ),
        decreases RING_COUNT - ring,
    {
        let e = lookup_elev(ballistics, selected_ammo, ring as u8, distance_m);
        let d = lookup_disp(
            dispersion_table,
            selected_ammo,
            ring as u8,
            mortar.elevation,
            target.elevation,
        );
        selected_elevations.push(e);
        selected_dispersions.push(d);
        ring = ring + 1;
    }

    let selected_solution = Some(
        SelectedSolution {
            ammo_type: String::from_str(selected_ammo.as_str()),
            elevations: selected_elevations,
            dispersions: selected_dispersions,
        },
    );

    FiringSolution {
        distance_m,
        azimuth_deg,
        elevation_diff_m,
        signed_elevation_diff_m,
        mortar_ammo: String::from_str(mortar.ammo_type.as_str()),
        target_type: String::from_str(target.target_type.as_str()),
        recommended_ammo: String::from_str(target.target_type.suggested_ammo().as_str()),
        solutions,
        dispersions,
        selected_solution,
    }
}

/// Computes the full firing solution without dispersion data: every
/// dispersion cell of the result is empty, and the rest is as in
/// [`calculate_solution_with_dispersion`].
pub fn calculate_solution(
    mortar: &MortarPosition,
    target: &TargetPosition,
    ballistics: &BallisticsMap,
) -> (r: FiringSolution)
    requires
        mortar.wf(),
        target.wf(),
        ballistics_wf(ballistics@),
    ensures
        r.distance_m == distance_xy(
            mortar.x as int,
            mortar.y as int,
            target.x as int,
            target.y as int,
        ),
        r.azimuth_deg == bearing_spec(target.x - mortar.x, target.y - mortar.y),
        0 <= r.azimuth_deg < crate::geometry::FULL_CIRCLE,
        r.elevation_diff_m == abs_spec(mortar.elevation - target.elevation),
        r.signed_elevation_diff_m == mortar.elevation - target.elevation,
        r.mortar_ammo@ == mortar.ammo_type.name_spec(),
        r.target_type@ == target.target_type.name_spec(),
        r.recommended_ammo@ == target.target_type.suggested_ammo_spec().name_spec(),
        r.solutions@.len() == MATRIX_CELLS,
        r.dispersions@.len() == MATRIX_CELLS,
        forall|i: int|
            0 <= i < MATRIX_CELLS ==> opt_as_int(#[trigger] r.solutions@[i]) == elev_cell(
                ballistics@,
                cell_kind(i),
                cell_ring(i),
                r.distance_m as int,
            ),
        forall|i: int| 0 <= i < MATRIX_CELLS ==> #[trigger] r.dispersions@[i] is None,
        match r.selected_solution {
            Some(sel) => {
                &&& sel.ammo_type@ == mortar.ammo_type.name_spec()
                &&& sel.elevations@.len() == RING_COUNT
                &&& sel.dispersions@.len() == RING_COUNT
                &&& forall|ring: int|
                    0 <= ring < RING_COUNT ==> opt_as_int(#[trigger] sel.elevations@[ring])
                        == elev_cell(ballistics@, mortar.ammo_type, ring, r.distance_m as int)
                &&& forall|ring: int|
                    0 <= ring < RING_COUNT ==> #[trigger] sel.dispersions@[ring] is None
            },
            None => false,
        },
{
    let empty: DispersionTable = BTreeMap::new();
    let r = calculate_solution_with_dispersion(mortar, target, ballistics, &empty);
    proof {
        assert forall|i: int| 0 <= i < MATRIX_CELLS implies #[trigger] r.dispersions@[i] is None by {
            assert(opt_as_int(r.dispersions@[i]) == disp_cell(
                empty@,
                cell_kind(i),
                cell_ring(i),
                mortar.elevation as int,
                target.elevation as int,
            ));
        }
        let sel = r.selected_solution->Some_0;
        assert forall|ring: int| 0 <= ring < RING_COUNT implies #[trigger] sel.dispersions@[ring] is None by {
            assert(opt_as_int(sel.dispersions@[ring]) == disp_cell(
                empty@,
                mortar.ammo_type,
                ring,
                mortar.elevation as int,
                target.elevation as int,
            ));
        }
    }
    r
}

} // verus!
