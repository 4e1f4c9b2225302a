//! Plain data shapes of the service surface: request and response records
//! exchanged with front ends, and the verified builders for the two
//! catalogue responses. The records here carry only plain values; front
//! ends wrap them for transport.

use vstd::prelude::*;
use crate::ammo::AmmoKind;
use crate::ammo::TargetType;
use crate::dispersion::slot_spec;
use crate::dispersion::slot_of;
use crate::geometry::MortarPosition;
use crate::geometry::TargetPosition;
use crate::solution::BallisticsMap;
use crate::table::BallisticTable;
use vstd::string::StringExecFns;

verus! {

/// Asks for a firing solution between two stored positions.
#[derive(Clone, Debug)]
pub struct CalculateByNameRequest {
    /// The stored weapon name.
    pub mortar_name: String,
    /// The stored target name.
    pub target_name: String,
}

/// Asks for a stored position to be removed.
#[derive(Clone, Debug)]
pub struct DeletePositionRequest {
    /// The stored position name.
    pub name: String,
}

/// Asks for a stored target's classification to be changed.
#[derive(Clone, Debug)]
pub struct UpdateTargetTypeRequest {
    /// The stored target name.
    pub name: String,
    /// The new classification, as a name.
    pub target_type: String,
}

/// Asks for a stored target's advisory projectile to be changed.
#[derive(Clone, Debug)]
pub struct UpdateTargetAmmoRequest {
    /// The stored target name.
    pub name: String,
    /// The new projectile, as a name.
    pub ammo_type: String,
}

/// Asks for a new weapon position to be stored.
#[derive(Clone, Debug)]
pub struct AddMortarRequest {
    /// The weapon name.
    pub name: String,
    /// Altitude in thousandths of a meter.
    pub elevation: i64,
    /// East-west coordinate in thousandths of a meter.
    pub x: i64,
    /// North-south coordinate in thousandths of a meter.
    pub y: i64,
    /// The loaded projectile, as a name.
    pub ammo_type: String,
}

/// Asks for a new target position to be stored.
#[derive(Clone, Debug)]
pub struct AddTargetRequest {
    /// The target name.
    pub name: String,
    /// Altitude in thousandths of a meter.
    pub elevation: i64,
    /// East-west coordinate in thousandths of a meter.
    pub x: i64,
    /// North-south coordinate in thousandths of a meter.
    pub y: i64,
    /// The classification, as a name.
    pub target_type: String,
}

/// Asks for a stored target to be corrected by an observed deviation.
#[derive(Clone, Debug)]
pub struct CorrectionRequest {
    /// The stored target name.
    pub target_name: String,
    /// Landing deviation north (negative) or south (positive), in
    /// thousandths of a meter.
    pub vertical_m: i64,
    /// Landing deviation west (negative) or east (positive), in
    /// thousandths of a meter.
    pub horizontal_m: i64,
}

/// The deviation a correction applied and the position it produced.
#[derive(Clone, Debug)]
pub struct CorrectionApplied {
    /// The vertical deviation that was compensated.
    pub vertical_m: i64,
    /// The horizontal deviation that was compensated.
    pub horizontal_m: i64,
    /// The corrected east-west coordinate.
    pub new_x: i64,
    /// The corrected north-south coordinate.
    pub new_y: i64,
}

/// Reports a completed correction.
#[derive(Clone, Debug)]
pub struct CorrectionResponse {
    /// Whether the correction was applied.
    pub success: bool,
    /// The name of the original target.
    pub original: String,
    /// The name of the corrected target.
    pub corrected: String,
    /// The deviation applied and the resulting coordinates.
    pub correction_applied: CorrectionApplied,
}

/// Reports that the service is alive.
#[derive(Clone, Debug)]
pub struct HealthResponse {
    /// A short status word.
    pub status: String,
    /// The service version.
    pub version: String,
}

/// One projectile type and the precision rings it has tables for.
#[derive(Clone, Debug)]
pub struct AmmoTypeInfo {
    /// The canonical projectile name.
    pub name: String,
    /// The rings with a published table, in ascending order.
    pub rings: Vec<u8>,
}

/// The projectile types that have ballistic data loaded.
#[derive(Clone, Debug)]
pub struct AmmoTypesResponse {
    /// One entry per projectile type with data, in enumeration order.
    pub ammo_types: Vec<AmmoTypeInfo>,
}

/// The stored weapon positions.
#[derive(Clone, Debug)]
pub struct MortarListResponse {
    /// The stored weapon positions.
    pub positions: Vec<MortarPosition>,
}

/// The stored target positions.
#[derive(Clone, Debug)]
pub struct TargetListResponse {
    /// The stored target positions.
    pub positions: Vec<TargetPosition>,
}

/// Reports a completed change.
#[derive(Clone, Debug)]
pub struct SuccessResponse {
    /// Whether the change was applied.
    pub success: bool,
    /// A short description of the change.
    pub message: String,
}

/// Reports a refused request.
#[derive(Clone, Debug)]
pub struct ErrorResponse {
    /// What was wrong with the request.
    pub error: String,
}

/// The closed name sets: every projectile name and every classification
/// name.
#[derive(Clone, Debug)]
pub struct TypesResponse {
    /// The canonical projectile names, in enumeration order.
    pub ammo_types: Vec<String>,
    /// The canonical classification names, in enumeration order.
    pub target_types: Vec<String>,
}

/// Builds the closed name sets: all four projectile names and all three
/// classification names, each in its enumeration order.
pub fn types_response() -> (r: TypesResponse)
    ensures
        r.ammo_types@.len() == 4,
        forall|j: int|
            0 <= j < 4 ==> (#[trigger] r.ammo_types@[j])@ == crate::solution::kind_of_row(
                j,
            ).name_spec(),
        r.target_types@.len() == 3,
        r.target_types@[0]@ == TargetType::Infanterie.name_spec(),
        r.target_types@[1]@ == TargetType::Vehicule.name_spec(),
        r.target_types@[2]@ == TargetType::Soutien.name_spec(),
{
    let mut ammo_types: Vec<String> = Vec::new();
    ammo_types.push(String::from_str(AmmoKind::Practice.as_str()));
    ammo_types.push(String::from_str(AmmoKind::He.as_str()));
    ammo_types.push(String::from_str(AmmoKind::Smoke.as_str()));
    ammo_types.push(String::from_str(AmmoKind::Flare.as_str()));
    let mut target_types: Vec<String> = Vec::new();
    target_types.push(String::from_str(TargetType::Infanterie.as_str()));
    target_types.push(String::from_str(TargetType::Vehicule.as_str()));
    target_types.push(String::from_str(TargetType::Soutien.as_str()));
    TypesResponse { ammo_types, target_types }
}

/// Holds when some precision ring of the projectile type has a table.
pub open spec fn kind_has_data(b: Map<u64, BallisticTable>, kind: AmmoKind) -> bool {
    exists|rr: int| 0 <= rr < 5 && b.contains_key(#[trigger] slot_spec(kind, rr) as u64)
}

/// The projectile types of `ks`, kept in order, that have data in `b`.
pub open spec fn kinds_with_data_from(b: Map<u64, BallisticTable>, ks: Seq<AmmoKind>) -> Seq<
    AmmoKind,
>
    decreases ks.len(),
{
    if ks.len() == 0 {
        Seq::empty()
    } else if kind_has_data(b, ks[0]) {
        seq![ks[0]] + kinds_with_data_from(b, ks.drop_first())
    } else {
        kinds_with_data_from(b, ks.drop_first())
    }
}

/// The projectile types with data in `b`, in enumeration order.
pub open spec fn kinds_with_data(b: Map<u64, BallisticTable>) -> Seq<AmmoKind> {
    kinds_with_data_from(
        b,
        seq![AmmoKind::Practice, AmmoKind::He, AmmoKind::Smoke, AmmoKind::Flare],
    )
}

/// Collects the precision rings, in ascending order, for which the
/// projectile type has a table.
pub fn available_rings(ballistics: &BallisticsMap, kind: AmmoKind) -> (r: Vec<u8>)
    ensures
        forall|k: int, l: int| 0 <= k < l < r@.len() ==> r@[k] < r@[l],
        forall|k: int| 0 <= k < r@.len() ==> (#[trigger] r@[k]) < 5,
        forall|rr: int|
            0 <= rr < 5 ==> (ballistics@.contains_key(#[trigger] slot_spec(kind, rr) as u64)
                <==> r@.contains(rr as u8)),
{
    let mut rings: Vec<u8> = Vec::new();
    let mut ring: u8 = 0;
    while ring < 5
        invariant
            0 <= ring <= 5,
            forall|k: int, l: int| 0 <= k < l < rings@.len() ==> rings@[k] < rings@[l],
            forall|k: int| 0 <= k < rings@.len() ==> (#[trigger] rings@[k]) < ring,
            forall|rr: int|
                0 <= rr < ring ==> (ballistics@.contains_key(#[trigger] slot_spec(kind, rr) as u64)
                    <==> rings@.contains(rr as u8)),
        decreases 5 - ring,
    {
        let key = slot_of(kind, ring);
        let ghost before = rings@;
        if ballistics.contains_key(&key) {
            rings.push(ring);
            proof {
                assert(rings@ == before.push(ring));
                assert(rings@[rings@.len() - 1] == ring);
                assert(rings@.contains(ring));
                assert forall|rr: int|
                    0 <= rr < ring + 1 implies (ballistics@.contains_key(
                    #[trigger] slot_spec(kind, rr) as u64,
                ) <==> rings@.contains(rr as u8)) by {
                    if rr < ring {
                        if before.contains(rr as u8) {
                            let w = choose|w: int| 0 <= w < before.len() && before[w] == rr as u8;
                            assert(rings@[w] == rr as u8);
                        }
                        if rings@.contains(rr as u8) {
                            let w = choose|w: int|
                                0 <= w < rings@.len() && rings@[w] == rr as u8;
                            assert(w < before.len() || rings@[w] == ring);
                            if w < before.len() {
                                assert(before[w] == rr as u8);
                            }
                        }
                    }
                }
            }
        } else {
            proof {
                assert forall|rr: int|
                    0 <= rr < ring + 1 implies (ballistics@.contains_key(
                    #[trigger] slot_spec(kind, rr) as u64,
                ) <==> rings@.contains(rr as u8)) by {
                    if rr == ring {
                        if rings@.contains(rr as u8) {
                            let w = choose|w: int|
                                0 <= w < rings@.len() && rings@[w] == rr as u8;
                            assert(rings@[w] < ring);
                        }
                    }
                }
            }
        }
        ring = ring + 1;
    }
    rings
}

/// Builds the catalogue of projectile types that have ballistic data: one
/// entry per such type, in enumeration order, carrying the type's name and
/// its available rings in ascending order.
pub fn ammo_types_response(ballistics: &BallisticsMap) -> (r: AmmoTypesResponse)
    ensures
        r.ammo_types@.len() == kinds_with_data(ballistics@).len(),
        forall|j: int|
            0 <= j < r.ammo_types@.len() ==> (#[trigger] r.ammo_types@[j]).name@ == kinds_with_data(
                ballistics@,
            )[j].name_spec(),
        forall|j: int, rr: int|
            0 <= j < r.ammo_types@.len() && 0 <= rr < 5 ==> (ballistics@.contains_key(
                #[trigger] slot_spec(#[trigger] kinds_with_data(ballistics@)[j], rr) as u64,
            ) <==> r.ammo_types@[j].rings@.contains(rr as u8)),
{
    let all = AmmoKind::all();
    let ghost all_seq = seq![AmmoKind::Practice, AmmoKind::He, AmmoKind::Smoke, AmmoKind::Flare];
    let mut entries: Vec<AmmoTypeInfo> = Vec::new();
    let ghost mut gs: Seq<AmmoKind> = Seq::empty();
    let mut ki: usize = 0;
    proof {
        assert(all_seq.subrange(0, 4) =~= all_seq);
        assert(Seq::<AmmoKind>::empty() + kinds_with_data_from(ballistics@, all_seq)
            =~= kinds_with_data_from(ballistics@, all_seq));
    }
    while ki < 4
        invariant
            all@ == all_seq,
            all_seq == seq![AmmoKind::Practice, AmmoKind::He, AmmoKind::Smoke, AmmoKind::Flare],
            0 <= ki <= 4,
            entries@.len() == gs.len(),
            forall|j: int|
                0 <= j < entries@.len() ==> (#[trigger] entries@[j]).name@ == gs[j].name_spec(),
            forall|j: int, rr: int|
                0 <= j < entries@.len() && 0 <= rr < 5 ==> (ballistics@.contains_key(
                    #[trigger] slot_spec(#[trigger] gs[j], rr) as u64,
                ) <==> entries@[j].rings@.contains(rr as u8)),
            kinds_with_data(ballistics@) == gs + kinds_with_data_from(
                ballistics@,
                all_seq.subrange(ki as int, 4),
            ),
        decreases 4 - ki,
    {
        let kind = all[ki];
        let rings = available_rings(ballistics, kind);
        let ghost rem = all_seq.subrange(ki as int, 4);
        let ghost rem1 = all_seq.subrange(ki as int + 1, 4);
        proof {
            assert(rem[0] == all_seq[ki as int]);
            assert(rem.drop_first() =~= rem1);
        }
        if rings.len() > 0 {
            proof {
                assert(rings@.contains(rings@[0]));
                assert(kind_has_data(ballistics@, kind)) by {
                    assert(rings@[0] < 5);
                    assert(ballistics@.contains_key(slot_spec(kind, rings@[0] as int) as u64));
                }
                assert(kinds_with_data_from(ballistics@, rem) == seq![kind]
                    + kinds_with_data_from(ballistics@, rem1));
                assert((gs + kinds_with_data_from(ballistics@, rem)) =~= (gs.push(kind)
                    + kinds_with_data_from(ballistics@, rem1)));
            }
            entries.push(AmmoTypeInfo { name: String::from_str(kind.as_str()), rings });
            proof {
                gs = gs.push(kind);
            }
        } else {
            proof {
                if kind_has_data(ballistics@, kind) {
                    let rr = choose|rr: int|
                        0 <= rr < 5 && ballistics@.contains_key(
                            #[trigger] slot_spec(kind, rr) as u64,
                        );
                    assert(rings@.contains(rr as u8));
                }
                assert(kinds_with_data_from(ballistics@, rem) == kinds_with_data_from(
                    ballistics@,
                    rem1,
                ));
            }
        }
        ki = ki + 1;
    }
    proof {
        assert(all_seq.subrange(4, 4) =~= Seq::<AmmoKind>::empty());
        assert(kinds_with_data(ballistics@) =~= gs);
    }
    AmmoTypesResponse { ammo_types: entries }
}

} // verus!
