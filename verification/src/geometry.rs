//! Planar geometry between named positions: distance, altitude difference,
//! and bearing. Coordinates are fixed-point (thousandths of a meter), the
//! bearing is a fixed-point angle in thousandths of a degree, measured
//! clockwise from north.

use vstd::prelude::*;
use crate::numeric::UNIT_LIMIT;
use crate::numeric::abs_i64;
use crate::numeric::abs_spec;
use crate::numeric::floor_sqrt;
use crate::numeric::isqrt_u64;
use vstd::arithmetic::div_mod::lemma_div_pos_is_pos;
use vstd::arithmetic::div_mod::lemma_div_nonincreasing;
use vstd::arithmetic::div_mod::lemma_div_is_ordered;
use vstd::arithmetic::div_mod::lemma_div_multiples_vanish;
use vstd::arithmetic::div_mod::lemma_fundamental_div_mod;

verus! {

/// A full circle, in thousandths of a degree.
pub const FULL_CIRCLE: i64 = 360_000;

/// A quarter circle, in thousandths of a degree.
pub const QUARTER_CIRCLE: i64 = 90_000;

/// Holds when a fixed-point length is inside the accepted machine range.
pub open spec fn in_unit_range(v: int) -> bool {
    -UNIT_LIMIT <= v <= UNIT_LIMIT
}

/// The squared planar separation of the points `(ax, ay)` and `(bx, by)`.
pub open spec fn sq_dist_xy(ax: int, ay: int, bx: int, by: int) -> int {
    (ax - bx) * (ax - bx) + (ay - by) * (ay - by)
}

/// The planar distance of the points `(ax, ay)` and `(bx, by)` in
/// thousandths of a meter: the floor of the square root of the squared
/// separation.
pub open spec fn distance_xy(ax: int, ay: int, bx: int, by: int) -> int {
    floor_sqrt(sq_dist_xy(ax, ay, bx, by) as nat) as int
}

/// The distance is symmetric in its endpoints, and a point lies at
/// distance zero from itself.
pub proof fn lemma_distance_symmetric(ax: int, ay: int, bx: int, by: int)
    ensures
        distance_xy(ax, ay, bx, by) == distance_xy(bx, by, ax, ay),
        distance_xy(ax, ay, ax, ay) == 0,
{
    assert(sq_dist_xy(ax, ay, bx, by) == sq_dist_xy(bx, by, ax, ay)) by (nonlinear_arith);
    assert(sq_dist_xy(ax, ay, ax, ay) == 0) by (nonlinear_arith);
}

/// A named point: east-positive `x`, north-positive `y`, and altitude above
/// the reference datum, each in thousandths of a meter.
#[derive(Clone, Debug)]
pub struct Position {
    /// Identifier of the position.
    pub name: String,
    /// Altitude in thousandths of a meter.
    pub elevation: i64,
    /// East-west coordinate in thousandths of a meter, east positive.
    pub x: i64,
    /// North-south coordinate in thousandths of a meter, north positive.
    pub y: i64,
}

/// The polynomial arctangent, in thousandths of a degree, of the ratio
/// `z / 1000`, for `z` between `0` and `1000`: a shape-faithful rational
/// approximation that is exact at `0` (giving `0`) and at `1000` (giving
/// `45000`, a forty-five degree angle).
pub open spec fn atan_milli_spec(z: int) -> int {
    (z * (45000 + ((1000 - z) * (14000 + (383 * z) / 100)) / 1000)) / 1000
}

/// The angle, in thousandths of a degree and measured from north toward
/// east, of the direction whose eastward component is `ax` and northward
/// component is `ay`; both components nonnegative, not both zero.
pub open spec fn octant_angle_spec(ax: int, ay: int) -> int {
    if ax <= ay {
        atan_milli_spec((ax * 1000) / ay)
    } else {
        90000 - atan_milli_spec((ay * 1000) / ax)
    }
}

/// The bearing, in thousandths of a degree clockwise from north, of the
/// displacement `(dx, dy)`; `0` for the zero displacement. A displacement a
/// hair west of due north wraps to `0` rather than reaching the excluded
/// upper end of the circle.
pub open spec fn bearing_spec(dx: int, dy: int) -> int {
    if dx == 0 && dy == 0 {
        0
    } else if dx >= 0 && dy >= 0 {
        octant_angle_spec(dx, dy)
    } else if dx >= 0 && dy < 0 {
        180000 - octant_angle_spec(dx, -dy)
    } else if dx < 0 && dy < 0 {
        180000 + octant_angle_spec(-dx, -dy)
    } else {
        let a = octant_angle_spec(-dx, dy);
        if a == 0 {
            0
        } else {
            360000 - a
        }
    }
}

/// The polynomial arctangent stays between `0` and `45000` over its domain.
pub proof fn lemma_atan_milli_range(z: int)
    requires
        0 <= z <= 1000,
    ensures
        0 <= atan_milli_spec(z) <= 45000,
{
    let g = 14000 + (383 * z) / 100;
    let w = (1000 - z) * g;
    let inner = w / 1000;
    let f = 45000 + inner;
    lemma_div_pos_is_pos(383 * z, 100);
    lemma_div_nonincreasing(383 * z, 100);
    assert(0 <= (383 * z) / 100 <= 3830) by {
        lemma_div_is_ordered(383 * z, 383000, 100);
    }
    assert(w >= 0) by (nonlinear_arith)
        requires
            w == (1000 - z) * g,
            1000 - z >= 0,
            g >= 0,
    {}
    lemma_div_pos_is_pos(w, 1000);
    assert(inner >= 0);
    lemma_div_pos_is_pos(z * f, 1000);
    assert(z * f >= 0) by (nonlinear_arith)
        requires
            z >= 0,
            f >= 0,
    {}
    assert(0 <= atan_milli_spec(z));
    // Upper bound: z * f never exceeds forty-five million.
    lemma_fundamental_div_mod(w, 1000);
    assert(1000 * inner <= w);
    assert(z * (1000 * inner) <= z * w) by (nonlinear_arith)
        requires
            z >= 0,
            1000 * inner <= w,
    {}
    assert(z * w <= 45000000 * (1000 - z)) by (nonlinear_arith)
        requires
            w == (1000 - z) * g,
            0 <= g <= 17830,
            0 <= z <= 1000,
    {}
    assert(z * inner <= 45000 * (1000 - z)) by (nonlinear_arith)
        requires
            z * (1000 * inner) <= 45000000 * (1000 - z),
    {}
    assert(z * f <= 45000000) by (nonlinear_arith)
        requires
            f == 45000 + inner,
            z * inner <= 45000 * (1000 - z),
            0 <= z <= 1000,
    {}
    lemma_div_is_ordered(z * f, 45000000, 1000);
    assert(45000000int / 1000 == 45000) by {
        lemma_div_multiples_vanish(45000, 1000);
    }
}

/// The polynomial arctangent is exact at the ends of its domain.
pub proof fn lemma_atan_milli_ends()
    ensures
        atan_milli_spec(0) == 0,
        atan_milli_spec(1000) == 45000,
{
    assert(atan_milli_spec(0) == 0) by {
        let g0: int = 14000int + (383int * 0) / 100;
        lemma_div_multiples_vanish(0, 100);
        assert((1000 - 0) * g0 == 1000 * g0);
        lemma_div_multiples_vanish(g0, 1000);
        lemma_div_multiples_vanish(0, 1000);
    }
    assert(atan_milli_spec(1000) == 45000) by {
        lemma_div_multiples_vanish(3830, 100);
        assert((1000 - 1000) * (14000 + (383 * 1000) / 100) == 0);
        lemma_div_multiples_vanish(0, 1000);
        assert(1000 * (45000 + 0) == 45000000);
        lemma_div_multiples_vanish(45000, 1000);
    }
}

/// The octant angle stays between `0` and `90000` (a quarter circle), and is
/// exactly `0` straight north and exactly `90000` straight east.
pub proof fn lemma_octant_angle_range(ax: int, ay: int)
    requires
        ax >= 0,
        ay >= 0,
        ax + ay > 0,
    ensures
        0 <= octant_angle_spec(ax, ay) <= 90000,
        ax == 0 ==> octant_angle_spec(ax, ay) == 0,
        ay == 0 ==> octant_angle_spec(ax, ay) == 90000,
{
    if ax <= ay {
        let z = (ax * 1000) / ay;
        lemma_div_pos_is_pos(ax * 1000, ay);
        assert(ax * 1000 <= ay * 1000) by (nonlinear_arith)
            requires
                ax <= ay,
        {}
        lemma_div_is_ordered(ax * 1000, ay * 1000, ay);
        assert(ay * 1000 == ay * 1000);
        lemma_div_multiples_vanish(1000, ay);
        assert((ay * 1000) / ay == 1000);
        lemma_atan_milli_range(z);
        if ax == 0 {
            assert(0 * 1000 == 0);
            lemma_div_pos_is_pos(0, ay);
            lemma_div_nonincreasing(0, ay);
            assert(z == 0);
            lemma_atan_milli_ends();
        }
    } else {
        let z = (ay * 1000) / ax;
        lemma_div_pos_is_pos(ay * 1000, ax);
        assert(ay * 1000 <= ax * 1000) by (nonlinear_arith)
            requires
                ay <= ax,
        {}
        lemma_div_is_ordered(ay * 1000, ax * 1000, ax);
        lemma_div_multiples_vanish(1000, ax);
        lemma_atan_milli_range(z);
        if ay == 0 {
            assert(0 * 1000 == 0);
            lemma_div_pos_is_pos(0, ax);
            lemma_div_nonincreasing(0, ax);
            assert(z == 0);
            lemma_atan_milli_ends();
        }
    }
}

/// Every bearing lies in the half-open circle: at least `0`, strictly less
/// than `360000`.
pub proof fn lemma_bearing_range(dx: int, dy: int)
    ensures
        0 <= bearing_spec(dx, dy) < 360000,
{
    if dx == 0 && dy == 0 {
    } else if dx >= 0 && dy >= 0 {
        lemma_octant_angle_range(dx, dy);
    } else if dx >= 0 && dy < 0 {
        lemma_octant_angle_range(dx, -dy);
    } else if dx < 0 && dy < 0 {
        lemma_octant_angle_range(-dx, -dy);
    } else {
        lemma_octant_angle_range(-dx, dy);
    }
}

/// The bearing of an axis-aligned displacement is the exact cardinal angle:
/// due north `0`, due east `90000`, due south `180000`, due west `270000`.
pub proof fn lemma_bearing_cardinal(dx: int, dy: int)
    requires
        dx == 0 || dy == 0,
        dx != 0 || dy != 0,
    ensures
        dx == 0 && dy > 0 ==> bearing_spec(dx, dy) == 0,
        dx > 0 && dy == 0 ==> bearing_spec(dx, dy) == 90000,
        dx == 0 && dy < 0 ==> bearing_spec(dx, dy) == 180000,
        dx < 0 && dy == 0 ==> bearing_spec(dx, dy) == 270000,
{
    if dx == 0 && dy > 0 {
        lemma_octant_angle_range(0, dy);
    } else if dx > 0 && dy == 0 {
        lemma_octant_angle_range(dx, 0);
    } else if dx == 0 && dy < 0 {
        lemma_octant_angle_range(0, -dy);
    } else if dx < 0 && dy == 0 {
        lemma_octant_angle_range(-dx, 0);
    }
}

impl Position {
    /// Holds when every fixed-point measure of the position is inside the
    /// accepted machine range.
    pub open spec fn wf(self) -> bool {
        &&& in_unit_range(self.elevation as int)
        &&& in_unit_range(self.x as int)
        &&& in_unit_range(self.y as int)
    }

    /// The squared planar separation of two positions; altitude plays no
    /// part.
    pub open spec fn sq_dist(self, other: Position) -> int {
        sq_dist_xy(self.x as int, self.y as int, other.x as int, other.y as int)
    }

    /// The planar distance of two positions in thousandths of a meter: the
    /// floor of the square root of the squared separation.
    pub open spec fn distance_spec(self, other: Position) -> int {
        distance_xy(self.x as int, self.y as int, other.x as int, other.y as int)
    }

    /// Builds a position from its parts.
    pub fn new(name: String, elevation: i64, x: i64, y: i64) -> (r: Position)
        ensures
            r.name == name,
            r.elevation == elevation,
            r.x == x,
            r.y == y,
    {
        Position { name, elevation, x, y }
    }

    /// The planar distance to `other` in thousandths of a meter, ignoring
    /// altitude. Symmetric in its two endpoints, and zero exactly when the
    /// planar coordinates coincide.
    pub fn distance_to(&self, other: &Position) -> (r: i64)
        requires
            self.wf(),
            other.wf(),
        ensures
            r == self.distance_spec(*other),
            0 <= r <= 3_000_000_000i64,
    {
        let dx = self.x - other.x;
        let dy = self.y - other.y;
        let adx = abs_i64(dx) as u64;
        let ady = abs_i64(dy) as u64;
        assert(adx * adx == dx * dx) by (nonlinear_arith)
            requires
                adx == abs_spec(dx as int),
        {}
        assert(ady * ady == dy * dy) by (nonlinear_arith)
            requires
                ady == abs_spec(dy as int),
        {}
        assert(adx * adx <= 4_000_000_000_000_000_000) by (nonlinear_arith)
            requires
                0 <= adx <= 2_000_000_000,
        {}
        assert(ady * ady <= 4_000_000_000_000_000_000) by (nonlinear_arith)
            requires
                0 <= ady <= 2_000_000_000,
        {}
        let sq = adx * adx + ady * ady;
        let r = isqrt_u64(sq);
        proof {
            crate::numeric::lemma_floor_sqrt_bounds(sq as nat);
            assert(r <= 3_000_000_000) by (nonlinear_arith)
                requires
                    r * r <= 8_000_000_000_000_000_000,
                    r >= 0,
            {}
        }
        r as i64
    }

    /// The absolute altitude difference to `other`, in thousandths of a
    /// meter.
    pub fn elevation_difference(&self, other: &Position) -> (r: i64)
        requires
            self.wf(),
            other.wf(),
        ensures
            r == abs_spec(self.elevation - other.elevation),
    {
        abs_i64(self.elevation - other.elevation)
    }

    /// The bearing from this position toward `other`, in thousandths of a
    /// degree, measured clockwise from north; always at least `0` and
    /// strictly below `360000`. Due east gives exactly `90000`, due north
    /// `0`, due south `180000`, due west `270000`.
    pub fn azimuth_to(&self, other: &Position) -> (r: i64)
        requires
            self.wf(),
            other.wf(),
        ensures
            r == bearing_spec(other.x - self.x, other.y - self.y),
            0 <= r < FULL_CIRCLE,
    {
        let dx = other.x - self.x;
        let dy = other.y - self.y;
        proof {
            lemma_bearing_range(dx as int, dy as int);
        }
        if dx == 0 && dy == 0 {
            0
        } else if dx >= 0 && dy >= 0 {
            octant_angle(dx as u64, dy as u64)
        } else if dx >= 0 && dy < 0 {
            180000 - octant_angle(dx as u64, (-dy) as u64)
        } else if dx < 0 && dy < 0 {
            180000 + octant_angle((-dx) as u64, (-dy) as u64)
        } else {
            let a = octant_angle((-dx) as u64, dy as u64);
            if a == 0 {
                0
            } else {
                360000 - a
            }
        }
    }
}

/// A weapon position: a point together with the projectile type loaded.
#[derive(Clone, Debug)]
pub struct MortarPosition {
    /// Identifier of the weapon.
    pub name: String,
    /// Altitude in thousandths of a meter.
    pub elevation: i64,
    /// East-west coordinate in thousandths of a meter, east positive.
    pub x: i64,
    /// North-south coordinate in thousandths of a meter, north positive.
    pub y: i64,
    /// The projectile type currently loaded.
    pub ammo_type: crate::ammo::AmmoKind,
}

/// A target position: a point together with its tactical classification.
#[derive(Clone, Debug)]
pub struct TargetPosition {
    /// Identifier of the target.
    pub name: String,
    /// Altitude in thousandths of a meter.
    pub elevation: i64,
    /// East-west coordinate in thousandths of a meter, east positive.
    pub x: i64,
    /// North-south coordinate in thousandths of a meter, north positive.
    pub y: i64,
    /// The tactical classification of the target.
    pub target_type: crate::ammo::TargetType,
}

impl MortarPosition {
    /// Holds when every fixed-point measure is inside the accepted machine
    /// range.
    pub open spec fn wf(self) -> bool {
        &&& in_unit_range(self.elevation as int)
        &&& in_unit_range(self.x as int)
        &&& in_unit_range(self.y as int)
    }

    /// Builds a weapon position from its parts.
    pub fn new(name: String, elevation: i64, x: i64, y: i64, ammo_type: crate::ammo::AmmoKind) -> (
        r: MortarPosition)
        ensures
            r.name == name,
            r.elevation == elevation,
            r.x == x,
            r.y == y,
            r.ammo_type == ammo_type,
    {
        MortarPosition { name, elevation, x, y, ammo_type }
    }

    /// The bare point of this weapon position, without the loaded
    /// projectile.
    pub fn as_position(&self) -> (r: Position)
        ensures
            r.name@ == self.name@,
            r.elevation == self.elevation,
            r.x == self.x,
            r.y == self.y,
    {
        Position { name: self.name.clone(), elevation: self.elevation, x: self.x, y: self.y }
    }
}

impl TargetPosition {
    /// Holds when every fixed-point measure is inside the accepted machine
    /// range.
    pub open spec fn wf(self) -> bool {
        &&& in_unit_range(self.elevation as int)
        &&& in_unit_range(self.x as int)
        &&& in_unit_range(self.y as int)
    }

    /// Builds a target position from its parts.
    pub fn new(
        name: String,
        elevation: i64,
        x: i64,
        y: i64,
        target_type: crate::ammo::TargetType,
    ) -> (r: TargetPosition)
        ensures
            r.name == name,
            r.elevation == elevation,
            r.x == x,
            r.y == y,
            r.target_type == target_type,
    {
        TargetPosition { name, elevation, x, y, target_type }
    }

    /// The bare point of this target position, without the classification.
    pub fn as_position(&self) -> (r: Position)
        ensures
            r.name@ == self.name@,
            r.elevation == self.elevation,
            r.x == self.x,
            r.y == self.y,
    {
        Position { name: self.name.clone(), elevation: self.elevation, x: self.x, y: self.y }
    }
}

/// The polynomial arctangent of `z / 1000` in thousandths of a degree.
fn atan_milli(z: u64) -> (r: i64)
    requires
        z <= 1000,
    ensures
        r == atan_milli_spec(z as int),
        0 <= r <= 45000,
{
    proof {
        lemma_atan_milli_range(z as int);
    }
    let g = 14000 + (383 * z) / 100;
    proof {
        lemma_div_pos_is_pos((383 * z) as int, 100);
        lemma_div_is_ordered((383 * z) as int, 383000, 100);
        lemma_div_multiples_vanish(3830, 100);
        assert(14000 <= g <= 17830);
        assert((1000 - z) * g <= 1000 * 17830) by (nonlinear_arith)
            requires
                0 <= 1000 - z <= 1000,
                0 <= g <= 17830,
        {}
    }
    let inner = ((1000 - z) * g) / 1000;
    proof {
        lemma_div_pos_is_pos(((1000 - z) * g) as int, 1000);
        lemma_div_is_ordered(((1000 - z) * g) as int, 17830000, 1000);
        lemma_div_multiples_vanish(17830, 1000);
        assert(inner <= 17830);
    }
    let f = 45000 + inner;
    proof {
        assert(z * f <= 1000 * 62830) by (nonlinear_arith)
            requires
                0 <= z <= 1000,
                0 <= f <= 62830,
        {}
        lemma_div_pos_is_pos((z * f) as int, 1000);
    }
    let r = (z * f) / 1000;
    r as i64
}

/// The angle from north toward east, in thousandths of a degree, of the
/// direction with eastward component `ax` and northward component `ay`.
fn octant_angle(ax: u64, ay: u64) -> (r: i64)
    requires
        ax <= 2_000_000_000,
        ay <= 2_000_000_000,
        ax + ay > 0,
    ensures
        r == octant_angle_spec(ax as int, ay as int),
        0 <= r <= QUARTER_CIRCLE,
{
    proof {
        lemma_octant_angle_range(ax as int, ay as int);
    }
    if ax <= ay {
        let z = (ax * 1000) / ay;
        proof {
            lemma_div_pos_is_pos((ax * 1000) as int, ay as int);
            assert(ax * 1000 <= ay * 1000) by (nonlinear_arith)
                requires
                    ax <= ay,
            {}
            lemma_div_is_ordered((ax * 1000) as int, (ay * 1000) as int, ay as int);
            lemma_div_multiples_vanish(1000, ay as int);
        }
        atan_milli(z)
    } else {
        let z = (ay * 1000) / ax;
        proof {
            lemma_div_pos_is_pos((ay * 1000) as int, ax as int);
            assert(ay * 1000 <= ax * 1000) by (nonlinear_arith)
                requires
                    ay <= ax,
            {}
            lemma_div_is_ordered((ay * 1000) as int, (ax * 1000) as int, ax as int);
            lemma_div_multiples_vanish(1000, ax as int);
        }
        90000 - atan_milli(z)
    }
}

} // verus!
