//! Indirect-fire solution engine for a tube weapon.
//!
//! All geometry and ballistics are computed over fixed-point integers:
//! lengths (coordinates, altitudes, ranges, dispersion radii) are carried in
//! thousandths of a meter, sight elevations in thousandths of a mil, and
//! angles in thousandths of a degree. Every public operation carries a
//! contract that pins its result down to this fixed-point model.

pub mod ammo;
pub mod api;
pub mod correction;
pub mod dispersion;
pub mod geometry;
pub mod numeric;
pub mod pchip;
pub mod solution;
pub mod table;

pub use ammo::AmmoKind;
pub use ammo::TargetType;
pub use correction::apply_correction;
pub use dispersion::DispersionTable;
pub use dispersion::calculate_dispersion;
pub use geometry::MortarPosition;
pub use geometry::Position;
pub use geometry::TargetPosition;
pub use pchip::pchip_eval;
pub use pchip::pchip_slopes;
pub use solution::BallisticsMap;
pub use solution::FiringSolution;
pub use solution::SelectedSolution;
pub use solution::calculate_solution;
pub use solution::calculate_solution_with_dispersion;
pub use table::BallisticPoint;
pub use table::BallisticTable;
pub use table::Ring;
