//! Shape-preserving cubic resampling of range tables, after Fritsch and
//! Carlson: per-node slopes are chosen as weighted harmonic means of the
//! neighboring secant slopes, zeroed at local extrema and clamped at the
//! ends, so that the cubic Hermite interpolant does not overshoot the data.
//! Ranges are in thousandths of a meter, elevations in thousandths of a
//! mil, and slopes in thousandths of a mil per meter.

use vstd::prelude::*;
use crate::geometry::in_unit_range;
use crate::numeric::abs_spec;
use crate::numeric::div_trunc;
use crate::numeric::div_trunc_i128;
use crate::numeric::lemma_div_trunc_le;
use crate::numeric::lemma_div_trunc_props;
use crate::numeric::mul_div_i64;
use crate::numeric::rat_trunc;
use crate::numeric::sgn;
use vstd::arithmetic::div_mod::lemma_div_pos_is_pos;
use vstd::arithmetic::div_mod::lemma_div_is_ordered;
use vstd::arithmetic::div_mod::lemma_div_multiples_vanish;

verus! {

/// Why a resampling computation cannot proceed.
#[derive(Clone, Copy, Debug, PartialEq, Eq, Structural)]
pub enum PchipError {
    /// Fewer than two samples were supplied.
    InsufficientData,
    /// The sample ranges are not strictly increasing.
    NonMonotonic,
    /// The query point lies outside the sampled span.
    OutOfDomain,
}

/// Holds when the sequence is strictly increasing from each element to the
/// next.
pub open spec fn strictly_increasing(xs: Seq<i64>) -> bool {
    forall|i: int| 0 <= i < xs.len() - 1 ==> (#[trigger] xs[i]) < xs[i + 1]
}

/// Holds when every element is inside the accepted machine range.
pub open spec fn seq_in_unit_range(xs: Seq<i64>) -> bool {
    forall|i: int| 0 <= i < xs.len() ==> in_unit_range((#[trigger] xs[i]) as int)
}

/// The range gap of segment `i`.
pub open spec fn h_of(xs: Seq<i64>, i: int) -> int {
    xs[i + 1] - xs[i]
}

/// The secant slope of segment `i`, in thousandths of a mil per meter,
/// truncated toward zero.
pub open spec fn delta_of(xs: Seq<i64>, ys: Seq<i64>, i: int) -> int {
    div_trunc(1000 * (ys[i + 1] - ys[i]), h_of(xs, i))
}

/// The interior slope between a segment with gap `hp` and secant `dp` and a
/// segment with gap `hn` and secant `dn`: zero when either secant vanishes
/// or they disagree in sign, otherwise the weighted harmonic mean
/// `(w1 + w2) / (w1 / dp + w2 / dn)` with `w1 = 2 hn + hp` and
/// `w2 = hn + 2 hp`, evaluated as one exact rational and truncated.
pub open spec fn interior_slope(hp: int, hn: int, dp: int, dn: int) -> int {
    if dp == 0 || dn == 0 || sgn(dp) != sgn(dn) {
        0
    } else {
        let w1 = 2 * hn + hp;
        let w2 = hn + 2 * hp;
        rat_trunc((w1 + w2) * dp * dn, w1 * dn + w2 * dp)
    }
}

/// The unclamped one-sided endpoint slope next to the gap `ha` with secant
/// `da`, with the next gap `hb` and secant `db` beyond it: the three-point
/// formula `((2 ha + hb) da - ha db) / (ha + hb)`, truncated. The clamped
/// form below zeroes it when its sign disagrees with the adjacent secant,
/// and caps it at three times that secant when the two secants disagree in
/// sign.
pub open spec fn endpoint_slope_raw(ha: int, hb: int, da: int, db: int) -> int {
    rat_trunc((2 * ha + hb) * da - ha * db, ha + hb)
}

/// The clamping of the raw endpoint slope described at [`endpoint_slope`].
pub open spec fn endpoint_slope(ha: int, hb: int, da: int, db: int) -> int {
    let raw = endpoint_slope_raw(ha, hb, da, db);
    if sgn(raw) != sgn(da) {
        0
    } else if sgn(da) != sgn(db) && abs_spec(raw) > 3 * abs_spec(da) {
        3 * da
    } else {
        raw
    }
}

/// The shape-preserving slope at node `i` of the sample sequence: the
/// single secant for two points, the clamped three-point formula at the
/// ends, and the weighted harmonic mean of the neighboring secants inside.
pub open spec fn slope_at(xs: Seq<i64>, ys: Seq<i64>, i: int) -> int {
    let n = xs.len() as int;
    if n == 2 {
        delta_of(xs, ys, 0)
    } else if i == 0 {
        endpoint_slope(h_of(xs, 0), h_of(xs, 1), delta_of(xs, ys, 0), delta_of(xs, ys, 1))
    } else if i == n - 1 {
        endpoint_slope(
            h_of(xs, n - 2),
            h_of(xs, n - 3),
            delta_of(xs, ys, n - 2),
            delta_of(xs, ys, n - 3),
        )
    } else {
        interior_slope(h_of(xs, i - 1), h_of(xs, i), delta_of(xs, ys, i - 1), delta_of(xs, ys, i))
    }
}

/// The largest slope magnitude the computation can produce, in thousandths
/// of a mil per meter.
pub const SLOPE_LIMIT: i64 = 6_000_000_000_000;

/// Computes the shape-preserving slopes for all sample nodes.
///
/// Fails with `InsufficientData` when fewer than two samples are given and
/// with `NonMonotonic` when the ranges are not strictly increasing;
/// otherwise returns one slope per node, each equal to [`slope_at`].
pub fn pchip_slopes(x: &Vec<i64>, y: &Vec<i64>) -> (r: Result<Vec<i64>, PchipError>)
    requires
        x@.len() == y@.len(),
        seq_in_unit_range(x@),
        seq_in_unit_range(y@),
    ensures
        match r {
            Ok(d) => {
                &&& x@.len() >= 2
                &&& strictly_increasing(x@)
                &&& d@.len() == x@.len()
                &&& forall|i: int|
                    0 <= i < d@.len() ==> (#[trigger] d@[i]) as int == slope_at(x@, y@, i)
                &&& forall|i: int|
                    0 <= i < d@.len() ==> -SLOPE_LIMIT <= #[trigger] d@[i] <= SLOPE_LIMIT
            },
            Err(e) => match e {
                PchipError::InsufficientData => x@.len() < 2,
                PchipError::NonMonotonic => x@.len() >= 2 && !strictly_increasing(x@),
                PchipError::OutOfDomain => false,
            },
        },
{
    let n = x.len();
    if n < 2 {
        return Err(PchipError::InsufficientData);
    }
    let mut h: Vec<i64> = Vec::new();
    let mut delta: Vec<i64> = Vec::new();
    let mut i: usize = 0;
    while i < n - 1
        invariant
            n == x@.len(),
            n == y@.len(),
            2 <= n,
            seq_in_unit_range(x@),
            seq_in_unit_range(y@),
            0 <= i <= n - 1,
            h@.len() == i,
            delta@.len() == i,
            forall|k: int| 0 <= k < i ==> (#[trigger] h@[k]) as int == h_of(x@, k),
            forall|k: int| 0 <= k < i ==> 0 < (#[trigger] h@[k]) <= 2_000_000_000,
            forall|k: int| 0 <= k < i ==> (#[trigger] delta@[k]) as int == delta_of(x@, y@, k),
            forall|k: int|
                0 <= k < i ==> -2_000_000_000_000 <= #[trigger] delta@[k] <= 2_000_000_000_000,
        decreases n - 1 - i,
    {
        let hi = x[i + 1] - x[i];
        if hi <= 0 {
            proof {
                assert(!(x@[i as int] < x@[i as int + 1]));
                assert(!strictly_increasing(x@));
            }
            return Err(PchipError::NonMonotonic);
        }
        let dy = y[i + 1] - y[i];
        let di = mul_div_i64(dy, 1000, hi);
        proof {
            assert(di as int == div_trunc(1000 * (y@[i as int + 1] - y@[i as int]), hi as int));
            lemma_div_trunc_le(
                1000 * (y@[i as int + 1] - y@[i as int]),
                hi as int,
                2_000_000_000_000,
            );
        }
        h.push(hi);
        delta.push(di);
        i = i + 1;
    }
    proof {
        assert forall|k: int| 0 <= k < x@.len() - 1 implies (#[trigger] x@[k]) < x@[k + 1] by {
            assert(h@[k] as int == h_of(x@, k));
            assert(h@[k] > 0);
        }
    }

    let mut d: Vec<i64> = Vec::new();
    if n == 2 {
        d.push(delta[0]);
        d.push(delta[0]);
        return Ok(d);
    }

    let d0 = endpoint_slope_exec(h[0], h[1], delta[0], delta[1]);
    d.push(d0);

    let mut i: usize = 1;
    while i < n - 1
        invariant
            n == x@.len(),
            n == y@.len(),
            3 <= n,
            h@.len() == n - 1,
            delta@.len() == n - 1,
            forall|k: int| 0 <= k < n - 1 ==> (#[trigger] h@[k]) as int == h_of(x@, k),
            forall|k: int| 0 <= k < n - 1 ==> 0 < (#[trigger] h@[k]) <= 2_000_000_000,
            forall|k: int| 0 <= k < n - 1 ==> (#[trigger] delta@[k]) as int == delta_of(x@, y@, k),
            forall|k: int|
                0 <= k < n - 1 ==> -2_000_000_000_000 <= #[trigger] delta@[k] <= 2_000_000_000_000,
            1 <= i <= n - 1,
            d@.len() == i,
            d@[0] as int == slope_at(x@, y@, 0),
            -SLOPE_LIMIT <= d@[0] <= SLOPE_LIMIT,
            forall|k: int| 1 <= k < i ==> (#[trigger] d@[k]) as int == slope_at(x@, y@, k),
            forall|k: int| 1 <= k < i ==> -SLOPE_LIMIT <= #[trigger] d@[k] <= SLOPE_LIMIT,
        decreases n - 1 - i,
    {
        let di = interior_slope_exec(h[i - 1], h[i], delta[i - 1], delta[i]);
        d.push(di);
        i = i + 1;
    }

    let dn = endpoint_slope_exec(h[n - 2], h[n - 3], delta[n - 2], delta[n - 3]);
    d.push(dn);
    Ok(d)
}

/// Computes the clamped three-point endpoint slope.
fn endpoint_slope_exec(ha: i64, hb: i64, da: i64, db: i64) -> (r: i64)
    requires
        0 < ha <= 2_000_000_000,
        0 < hb <= 2_000_000_000,
        -2_000_000_000_000 <= da <= 2_000_000_000_000,
        -2_000_000_000_000 <= db <= 2_000_000_000_000,
    ensures
        r as int == endpoint_slope(ha as int, hb as int, da as int, db as int),
        -SLOPE_LIMIT <= r <= SLOPE_LIMIT,
{
    let a1: i128 = 2 * (ha as i128) + (hb as i128);
    proof {
        let a1i = a1 as int;
        let dai = da as int;
        let hai = ha as int;
        let dbi = db as int;
        assert(-20_000_000_000_000_000_000_000 <= a1i * dai <= 20_000_000_000_000_000_000_000
            && -20_000_000_000_000_000_000_000 <= hai * dbi
            <= 20_000_000_000_000_000_000_000) by (nonlinear_arith)
            requires
                0 < a1i <= 6_000_000_000,
                0 < hai <= 2_000_000_000,
                -2_000_000_000_000 <= dai <= 2_000_000_000_000,
                -2_000_000_000_000 <= dbi <= 2_000_000_000_000,
        {}
    }
    let t1: i128 = a1 * (da as i128);
    let t2: i128 = (ha as i128) * (db as i128);
    let num: i128 = t1 - t2;
    let den: i128 = (ha as i128) + (hb as i128);
    proof {
        let a1i = a1 as int;
        let dai = da as int;
        let hai = ha as int;
        let hbi = hb as int;
        let dbi = db as int;
        let deni = den as int;
        assert(a1i * dai - hai * dbi <= deni * 6_000_000_000_000 && -(deni * 6_000_000_000_000)
            <= a1i * dai - hai * dbi) by (nonlinear_arith)
            requires
                a1i == 2 * hai + hbi,
                deni == hai + hbi,
                0 < hai,
                0 < hbi,
                -2_000_000_000_000 <= dai <= 2_000_000_000_000,
                -2_000_000_000_000 <= dbi <= 2_000_000_000_000,
        {}
    }
    let raw128 = div_trunc_i128(num, den);
    proof {
        lemma_div_trunc_le(num as int, den as int, 6_000_000_000_000);
        assert(endpoint_slope_raw(ha as int, hb as int, da as int, db as int) == raw128 as int);
    }
    let raw = raw128 as i64;
    if (raw > 0 && da <= 0) || (raw < 0 && da >= 0) || (raw == 0 && da != 0) {
        0
    } else {
        let sign_differs = (da > 0 && db <= 0) || (da < 0 && db >= 0) || (da == 0 && db != 0);
        let araw = if raw < 0 {
            -raw
        } else {
            raw
        };
        let ada = if da < 0 {
            -da
        } else {
            da
        };
        if sign_differs && araw > 3 * ada {
            3 * da
        } else {
            raw
        }
    }
}

/// Computes the weighted harmonic-mean interior slope.
fn interior_slope_exec(hp: i64, hn: i64, dp: i64, dn: i64) -> (r: i64)
    requires
        0 < hp <= 2_000_000_000,
        0 < hn <= 2_000_000_000,
        -2_000_000_000_000 <= dp <= 2_000_000_000_000,
        -2_000_000_000_000 <= dn <= 2_000_000_000_000,
    ensures
        r as int == interior_slope(hp as int, hn as int, dp as int, dn as int),
        -SLOPE_LIMIT <= r <= SLOPE_LIMIT,
{
    if dp == 0 || dn == 0 || ((dp > 0) != (dn > 0)) {
        return 0;
    }
    let w1: i64 = 2 * hn + hp;
    let w2: i64 = hn + 2 * hp;
    let adp: u128 = if dp < 0 {
        (-dp) as u128
    } else {
        dp as u128
    };
    let adn: u128 = if dn < 0 {
        (-dn) as u128
    } else {
        dn as u128
    };
    let aw: u128 = (w1 as u128) + (w2 as u128);
    proof {
        let awi = aw as int;
        let adpi = adp as int;
        let adni = adn as int;
        let w1i = w1 as int;
        let w2i = w2 as int;
        assert(awi * adpi <= 24_000_000_000_000_000_000_000 && awi * adpi * adni
            <= 48_000_000_000_000_000_000_000_000_000_000_000 && w1i * adni
            <= 12_000_000_000_000_000_000_000 && w2i * adpi <= 12_000_000_000_000_000_000_000
            && 1 <= w1i * adni && 1 <= w2i * adpi && 1 <= awi * adpi * adni) by (nonlinear_arith)
            requires
                0 < awi <= 12_000_000_000,
                0 < w1i <= 6_000_000_000,
                0 < w2i <= 6_000_000_000,
                0 < adpi <= 2_000_000_000_000,
                0 < adni <= 2_000_000_000_000,
        {}
    }
    let anum: u128 = aw * adp * adn;
    let aden: u128 = (w1 as u128) * adn + (w2 as u128) * adp;
    let aval: u128 = anum / aden;
    proof {
        let awi = aw as int;
        let adpi = adp as int;
        let adni = adn as int;
        let w1i = w1 as int;
        let w2i = w2 as int;
        let anumi = anum as int;
        let adeni = aden as int;
        let avali = aval as int;
        // The harmonic mean is at most three times the smaller secant.
        assert(anumi <= (3 * adpi) * adeni && anumi <= (3 * adni) * adeni) by (nonlinear_arith)
            requires
                anumi == awi * adpi * adni,
                adeni == w1i * adni + w2i * adpi,
                awi == w1i + w2i,
                0 < w1i,
                0 < w2i,
                w2i <= 2 * w1i,
                w1i <= 2 * w2i,
                0 < adpi,
                0 < adni,
        {}
        crate::numeric::lemma_div_le_factor(anumi, adeni, 3 * adpi);
        crate::numeric::lemma_div_le_factor(anumi, adeni, 3 * adni);
        assert(avali == anumi / adeni);
        // The exact rational of the specification has the same magnitude
        // and carries the common sign of the secants.
        let dpi = dp as int;
        let dni = dn as int;
        let numi = (w1i + w2i) * dpi * dni;
        let deni = w1i * dni + w2i * dpi;
        if dp > 0 {
            assert(numi == anumi && deni == adeni) by (nonlinear_arith)
                requires
                    numi == (w1i + w2i) * dpi * dni,
                    deni == w1i * dni + w2i * dpi,
                    anumi == awi * adpi * adni,
                    adeni == w1i * adni + w2i * adpi,
                    awi == w1i + w2i,
                    dpi > 0,
                    dni > 0,
                    adpi == dpi,
                    adni == dni,
            {}
            assert(rat_trunc(numi, deni) == div_trunc(anumi, adeni));
            lemma_div_trunc_props(anumi, adeni);
            assert(div_trunc(anumi, adeni) == anumi / adeni);
        } else {
            assert(numi == anumi && deni == -adeni) by (nonlinear_arith)
                requires
                    numi == (w1i + w2i) * dpi * dni,
                    deni == w1i * dni + w2i * dpi,
                    anumi == awi * adpi * adni,
                    adeni == w1i * adni + w2i * adpi,
                    awi == w1i + w2i,
                    dpi < 0,
                    dni < 0,
                    adpi == -dpi,
                    adni == -dni,
            {}
            assert(rat_trunc(numi, deni) == div_trunc(-numi, adeni));
            assert(-numi <= 0);
            assert(div_trunc(-numi, adeni) == -(anumi / adeni));
        }
    }
    if dp > 0 {
        aval as i64
    } else {
        -(aval as i64)
    }
}

/// The largest slope magnitude the evaluation accepts, in thousandths of a
/// mil per meter.
pub const EVAL_SLOPE_LIMIT: i64 = 10_000_000_000_000;

/// The numerator of the cubic Hermite value on one segment, over the
/// denominator of one quadrillion: `s` is the position in the segment in
/// thousandths, `y0` and `y1` the endpoint elevations, and `dd0` and `dd1`
/// the endpoint slopes already multiplied by the segment gap.
pub open spec fn hermite_num(y0: int, y1: int, dd0: int, dd1: int, s: int) -> int {
    1000 * (1000 + 2 * s) * (1000 - s) * (1000 - s) * y0 + s * (1000 - s) * (1000 - s) * dd0 + 1000
        * s * s * (3000 - 2 * s) * y1 + s * s * (s - 1000) * dd1
}

/// The cubic Hermite value on the segment from `(x0, y0)` to `(x1, y1)`
/// with slopes `d0` and `d1`, evaluated at `q`: the standard Hermite basis
/// over the normalized position `(q - x0) / (x1 - x0)`, carried in
/// thousandths and truncated toward zero.
pub open spec fn hermite_seg(x0: int, x1: int, y0: int, y1: int, d0: int, d1: int, q: int) -> int {
    let h = x1 - x0;
    let s = (1000 * (q - x0)) / h;
    div_trunc(hermite_num(y0, y1, h * d0, h * d1, s), 1_000_000_000_000)
}

/// The cubic Hermite value of the sample sequence at `q`, taken in the
/// first segment whose right endpoint lies beyond `q`.
pub open spec fn hermite_in(xs: Seq<i64>, ys: Seq<i64>, ds: Seq<i64>, q: int) -> int
    decreases xs.len(),
{
    if xs.len() <= 2 || q < xs[1] {
        hermite_seg(
            xs[0] as int,
            xs[1] as int,
            ys[0] as int,
            ys[1] as int,
            ds[0] as int,
            ds[1] as int,
            q,
        )
    } else {
        hermite_in(xs.drop_first(), ys.drop_first(), ds.drop_first(), q)
    }
}

/// What evaluating the interpolant at `q` yields: the stored elevation at
/// the last sample exactly, and the segment's cubic Hermite value
/// elsewhere (exact at every stored sample, since the cubic passes through
/// its endpoints).
pub open spec fn eval_spec(xs: Seq<i64>, ys: Seq<i64>, ds: Seq<i64>, q: int) -> int {
    if q == xs[xs.len() - 1] {
        ys[xs.len() - 1] as int
    } else {
        hermite_in(xs, ys, ds, q)
    }
}

/// A position factor of the Hermite basis never exceeds the cube bound:
/// for `s` between `0` and `1000`, both `s (1000 - s)^2` and
/// `s^2 (1000 - s)` stay at or below `148148149`.
proof fn lemma_hermite_factor_bound(s: int)
    requires
        0 <= s <= 1000,
    ensures
        0 <= s * (1000 - s) * (1000 - s) <= 148_148_149,
        0 <= s * s * (1000 - s) <= 148_148_149,
{
    assert(27 * (s * (1000 - s) * (1000 - s)) <= 4_000_000_000 && 0 <= s * (1000 - s) * (1000 - s)
        && 27 * (s * s * (1000 - s)) <= 4_000_000_000 && 0 <= s * s * (1000
        - s)) by (nonlinear_arith)
        requires
            0 <= s <= 1000,
    {}
}

/// Evaluates the shape-preserving interpolant at `xq`.
///
/// Fails with `OutOfDomain` exactly when `xq` lies outside the sampled
/// span; otherwise returns the value of [`eval_spec`]: the stored
/// elevation at a stored sample, and the segment's cubic Hermite value
/// between samples.
#[verifier::rlimit(100)]
pub fn pchip_eval(x: &Vec<i64>, y: &Vec<i64>, d: &Vec<i64>, xq: i64) -> (r: Result<
    i64,
    PchipError,
>)
    requires
        x@.len() == y@.len(),
        d@.len() == x@.len(),
        x@.len() >= 1,
        strictly_increasing(x@),
        seq_in_unit_range(x@),
        seq_in_unit_range(y@),
        forall|i: int| 0 <= i < d@.len() ==> -EVAL_SLOPE_LIMIT <= #[trigger] d@[i] <= EVAL_SLOPE_LIMIT,
    ensures
        match r {
            Ok(v) => {
                &&& x@[0] <= xq <= x@[x@.len() - 1]
                &&& v as int == eval_spec(x@, y@, d@, xq as int)
            },
            Err(e) => {
                &&& e == PchipError::OutOfDomain
                &&& (xq < x@[0] || xq > x@[x@.len() - 1])
            },
        },
{
    let n = x.len();
    if xq < x[0] || xq > x[n - 1] {
        return Err(PchipError::OutOfDomain);
    }
    if xq == x[n - 1] {
        return Ok(y[n - 1]);
    }
    let mut i: usize = 0;
    proof {
        assert(x@.subrange(0, n as int) =~= x@);
        assert(y@.subrange(0, n as int) =~= y@);
        assert(d@.subrange(0, n as int) =~= d@);
    }
    while i + 2 < n && x[i + 1] <= xq
        invariant
            n == x@.len(),
            n == y@.len(),
            n == d@.len(),
            2 <= n,
            strictly_increasing(x@),
            seq_in_unit_range(x@),
            seq_in_unit_range(y@),
            forall|k: int|
                0 <= k < d@.len() ==> -EVAL_SLOPE_LIMIT <= #[trigger] d@[k] <= EVAL_SLOPE_LIMIT,
            0 <= i,
            i + 2 <= n,
            x@[i as int] <= xq,
            xq < x@[n - 1],
            hermite_in(x@, y@, d@, xq as int) == hermite_in(
                x@.subrange(i as int, n as int),
                y@.subrange(i as int, n as int),
                d@.subrange(i as int, n as int),
                xq as int,
            ),
        decreases n - i,
    {
        proof {
            let xs = x@.subrange(i as int, n as int);
            let ys = y@.subrange(i as int, n as int);
            let ds = d@.subrange(i as int, n as int);
            assert(xs.len() > 2);
            assert(xs[1] == x@[i as int + 1]);
            assert(xs.drop_first() =~= x@.subrange(i as int + 1, n as int));
            assert(ys.drop_first() =~= y@.subrange(i as int + 1, n as int));
            assert(ds.drop_first() =~= d@.subrange(i as int + 1, n as int));
        }
        i = i + 1;
    }
    proof {
        let xs = x@.subrange(i as int, n as int);
        assert(xs[0] == x@[i as int]);
        assert(xs[1] == x@[i as int + 1]);
        if i + 2 < n {
            assert(xq < x@[i as int + 1]);
        } else {
            assert(x@[i as int + 1] == x@[n - 1]);
        }
        assert(xq < x@[i as int + 1]);
        assert(hermite_in(xs, y@.subrange(i as int, n as int), d@.subrange(i as int, n as int), xq as int)
            == hermite_seg(
            x@[i as int] as int,
            x@[i as int + 1] as int,
            y@[i as int] as int,
            y@[i as int + 1] as int,
            d@[i as int] as int,
            d@[i as int + 1] as int,
            xq as int,
        ));
    }
    let v = hermite_seg_exec(x[i], x[i + 1], y[i], y[i + 1], d[i], d[i + 1], xq);
    Ok(v)
}

/// Evaluates the cubic Hermite basis on one segment.
#[verifier::rlimit(100)]
fn hermite_seg_exec(x0: i64, x1: i64, y0: i64, y1: i64, d0: i64, d1: i64, xq: i64) -> (r: i64)
    requires
        in_unit_range(x0 as int),
        in_unit_range(x1 as int),
        in_unit_range(y0 as int),
        in_unit_range(y1 as int),
        -EVAL_SLOPE_LIMIT <= d0 <= EVAL_SLOPE_LIMIT,
        -EVAL_SLOPE_LIMIT <= d1 <= EVAL_SLOPE_LIMIT,
        x0 <= xq < x1,
    ensures
        r as int == hermite_seg(
            x0 as int,
            x1 as int,
            y0 as int,
            y1 as int,
            d0 as int,
            d1 as int,
            xq as int,
        ),
{
    let h = x1 - x0;
    let qx = xq - x0;
    proof {
        assert((qx as int) * 1000 <= 1000 * (h as int)) by (nonlinear_arith)
            requires
                0 <= qx < h,
        {}
        crate::numeric::lemma_div_le_factor((qx as int) * 1000, h as int, 1000);
    }
    let s = ((qx as u64) * 1000) / (h as u64);
    proof {
        assert(s as int == (1000 * ((xq as int) - (x0 as int))) / (h as int));
        lemma_hermite_factor_bound(s as int);
    }
    let s8 = s as i128;
    let c0: i128 = 1000 - s8;
    proof {
        let hi = h as int;
        let d0i = d0 as int;
        let d1i = d1 as int;
        assert(-20_000_000_000_000_000_000_000 <= hi * d0i <= 20_000_000_000_000_000_000_000
            && -20_000_000_000_000_000_000_000 <= hi * d1i
            <= 20_000_000_000_000_000_000_000) by (nonlinear_arith)
            requires
                0 < hi <= 2_000_000_000,
                -10_000_000_000_000 <= d0i <= 10_000_000_000_000,
                -10_000_000_000_000 <= d1i <= 10_000_000_000_000,
        {}
    }
    let dd0: i128 = (h as i128) * (d0 as i128);
    let dd1: i128 = (h as i128) * (d1 as i128);
    let p1: i128 = 1000 + 2 * s8;
    let t1a: i128 = 1000 * p1;
    proof {
        let si = s8 as int;
        let c0i = c0 as int;
        assert(0 <= (1000 * (1000 + 2 * si)) * c0i <= 3_000_000_000 && 0 <= ((1000 * (1000 + 2
            * si)) * c0i) * c0i <= 3_000_000_000_000) by (nonlinear_arith)
            requires
                0 <= si <= 1000,
                c0i == 1000 - si,
        {}
    }
    let t1b: i128 = t1a * c0;
    let t1c: i128 = t1b * c0;
    proof {
        let t1ci = t1c as int;
        let y0i = y0 as int;
        assert(-3_000_000_000_000_000_000_000_000 <= t1ci * y0i
            <= 3_000_000_000_000_000_000_000_000) by (nonlinear_arith)
            requires
                0 <= t1ci <= 3_000_000_000_000,
                -1_000_000_000 <= y0i <= 1_000_000_000,
        {}
    }
    let term1: i128 = t1c * (y0 as i128);
    proof {
        let si = s8 as int;
        let c0i = c0 as int;
        assert(0 <= si * c0i <= 1_000_000 && (si * c0i) * c0i == si * (1000 - si) * (1000 - si)
            && 0 <= (si * c0i) * c0i <= 148_148_149) by (nonlinear_arith)
            requires
                0 <= si <= 1000,
                c0i == 1000 - si,
                0 <= si * (1000 - si) * (1000 - si) <= 148_148_149,
        {}
    }
    let u1: i128 = s8 * c0;
    let u2: i128 = u1 * c0;
    proof {
        let u2i = u2 as int;
        let dd0i = dd0 as int;
        assert(-2_962_962_980_000_000_000_000_000_000_000 <= u2i * dd0i
            <= 2_962_962_980_000_000_000_000_000_000_000) by (nonlinear_arith)
            requires
                0 <= u2i <= 148_148_149,
                -20_000_000_000_000_000_000_000 <= dd0i <= 20_000_000_000_000_000_000_000,
        {}
    }
    let term2: i128 = u2 * dd0;
    let p2: i128 = 3000 - 2 * s8;
    let t3a: i128 = 1000 * s8;
    proof {
        let si = s8 as int;
        assert(0 <= (1000 * si) * si <= 1_000_000_000 && 0 <= ((1000 * si) * si) * (3000 - 2 * si)
            <= 3_000_000_000_000) by (nonlinear_arith)
            requires
                0 <= si <= 1000,
        {}
    }
    let t3b: i128 = t3a * s8;
    let t3c: i128 = t3b * p2;
    proof {
        let t3ci = t3c as int;
        let y1i = y1 as int;
        assert(-3_000_000_000_000_000_000_000_000 <= t3ci * y1i
            <= 3_000_000_000_000_000_000_000_000) by (nonlinear_arith)
            requires
                0 <= t3ci <= 3_000_000_000_000,
                -1_000_000_000 <= y1i <= 1_000_000_000,
        {}
    }
    let term3: i128 = t3c * (y1 as i128);
    proof {
        let si = s8 as int;
        assert(0 <= si * si <= 1_000_000 && (si * si) * (si - 1000) == -(si * si * (1000 - si))
            && -148_148_149 <= (si * si) * (si - 1000) <= 0) by (nonlinear_arith)
            requires
                0 <= si <= 1000,
                0 <= si * si * (1000 - si) <= 148_148_149,
        {}
    }
    let v1: i128 = s8 * s8;
    let v2: i128 = v1 * (s8 - 1000);
    proof {
        let v2i = v2 as int;
        let dd1i = dd1 as int;
        assert(-2_962_962_980_000_000_000_000_000_000_000 <= v2i * dd1i
            <= 2_962_962_980_000_000_000_000_000_000_000) by (nonlinear_arith)
            requires
                -148_148_149 <= v2i <= 0,
                -20_000_000_000_000_000_000_000 <= dd1i <= 20_000_000_000_000_000_000_000,
        {}
    }
    let term4: i128 = v2 * dd1;
    let num: i128 = term1 + term2 + term3 + term4;
    let v128 = div_trunc_i128(num, 1_000_000_000_000);
    proof {
        lemma_div_trunc_le(num as int, 1_000_000_000_000, 5_931_926_000_000_000_000);
        assert(num as int == hermite_num(
            y0 as int,
            y1 as int,
            (h as int) * (d0 as int),
            (h as int) * (d1 as int),
            s as int,
        ));
    }
    v128 as i64
}

/// The column of sample ranges.
pub open spec fn ranges_of(s: Seq<crate::table::BallisticPoint>) -> Seq<i64> {
    Seq::new(s.len(), |i: int| s[i].range_m)
}

/// The column of sample elevations.
pub open spec fn elevs_of(s: Seq<crate::table::BallisticPoint>) -> Seq<i64> {
    Seq::new(s.len(), |i: int| s[i].elev_mil)
}

/// The shape-preserving slopes of all nodes, as one sequence.
pub open spec fn slopes_seq(xs: Seq<i64>, ys: Seq<i64>) -> Seq<i64> {
    Seq::new(xs.len(), |i: int| slope_at(xs, ys, i) as i64)
}

/// The whole-meter grid start of the resampling: the least whole meter at
/// or above the first sampled range.
pub open spec fn grid_lo(xs: Seq<i64>) -> int {
    (xs[0] + 999) / 1000
}

/// The whole-meter grid end of the resampling: the greatest whole meter at
/// or below the last sampled range.
pub open spec fn grid_hi(xs: Seq<i64>) -> int {
    (xs[xs.len() - 1] as int) / 1000
}

/// How many grid points the resampling emits for the given span and step.
pub open spec fn grid_count(lo: int, hi: int, step: int) -> int {
    if lo > hi {
        0
    } else {
        (hi - lo) / step + 1
    }
}

/// Adding a multiple of the divisor shifts the quotient by that multiple.
proof fn lemma_div_shift_1000(a: int, m: int)
    ensures
        (a + 1000 * m) / 1000 == a / 1000 + m,
{
    vstd::arithmetic::div_mod::lemma_fundamental_div_mod(a, 1000);
    vstd::arithmetic::div_mod::lemma_mod_bound(a, 1000);
    let q = a / 1000;
    let rem = a % 1000;
    assert(a + 1000 * m == 1000 * (q + m) + rem);
    vstd::arithmetic::div_mod::lemma_div_multiples_vanish_fancy(q + m, rem, 1000);
}

/// Holds when the sequence never decreases from each element to the next.
pub open spec fn nondecreasing(ys: Seq<i64>) -> bool {
    forall|i: int| 0 <= i < ys.len() - 1 ==> (#[trigger] ys[i]) <= ys[i + 1]
}

/// The Fritsch-Carlson condition on a slope sequence for nondecreasing
/// data: on every segment both endpoint slopes are nonnegative and, scaled
/// by the segment gap, stay within three times the segment's elevation
/// rise.
pub open spec fn fc_ok(xs: Seq<i64>, ys: Seq<i64>, ds: Seq<i64>) -> bool {
    forall|i: int|
        0 <= i < xs.len() - 1 ==> {
            &&& 0 <= #[trigger] ds[i]
            &&& 0 <= ds[i + 1]
            &&& h_of(xs, i) * ds[i] <= 3000 * (ys[i + 1] - ys[i])
            &&& h_of(xs, i) * ds[i + 1] <= 3000 * (ys[i + 1] - ys[i])
        }
}

/// A nondecreasing sequence never drops between any two ordered indexes.
proof fn lemma_nondecreasing_le(ys: Seq<i64>, i: int, j: int)
    requires
        nondecreasing(ys),
        0 <= i <= j < ys.len(),
    ensures
        ys[i] <= ys[j],
    decreases j - i,
{
    if i < j {
        lemma_nondecreasing_le(ys, i + 1, j);
    }
}

/// For a rising segment the truncated secant is nonnegative, multiplies
/// back to within the elevation rise, and stays inside the machine range.
proof fn lemma_secant_props(xs: Seq<i64>, ys: Seq<i64>, i: int)
    requires
        xs.len() == ys.len(),
        0 <= i < xs.len() - 1,
        xs[i] < xs[i + 1],
        ys[i] <= ys[i + 1],
        seq_in_unit_range(ys),
    ensures
        0 <= delta_of(xs, ys, i) <= 2_000_000_000_000,
        h_of(xs, i) * delta_of(xs, ys, i) <= 1000 * (ys[i + 1] - ys[i]),
{
    let p = 1000 * (ys[i + 1] - ys[i]);
    let h = h_of(xs, i);
    lemma_div_trunc_props(p, h);
}

/// For nonnegative secants the clamped endpoint slope is nonnegative and
/// at most three times the adjacent secant.
proof fn lemma_endpoint_monotone(ha: int, hb: int, da: int, db: int)
    requires
        0 < ha,
        0 < hb,
        0 <= da,
        0 <= db,
    ensures
        0 <= endpoint_slope(ha, hb, da, db) <= 3 * da,
{
    let num = (2 * ha + hb) * da - ha * db;
    let den = ha + hb;
    let raw = endpoint_slope_raw(ha, hb, da, db);
    assert(raw == div_trunc(num, den));
    assert(num <= den * (2 * da)) by (nonlinear_arith)
        requires
            num == (2 * ha + hb) * da - ha * db,
            den == ha + hb,
            0 < ha,
            0 < hb,
            0 <= da,
            0 <= db,
    {}
    if num >= 0 {
        crate::numeric::lemma_div_trunc_upper(num, den, 2 * da);
        lemma_div_trunc_props(num, den);
        assert(0 <= raw <= 2 * da);
    } else {
        lemma_div_trunc_props(num, den);
        assert(raw <= 0);
    }
}

/// For positive secants the weighted harmonic mean is nonnegative and at
/// most three times either secant; with a vanishing or opposing secant the
/// interior slope is zero.
proof fn lemma_interior_monotone(hp: int, hn: int, dp: int, dn: int)
    requires
        0 < hp,
        0 < hn,
        0 <= dp,
        0 <= dn,
    ensures
        0 <= interior_slope(hp, hn, dp, dn) <= 3 * dp,
        interior_slope(hp, hn, dp, dn) <= 3 * dn,
{
    if dp == 0 || dn == 0 || sgn(dp) != sgn(dn) {
    } else {
        let w1 = 2 * hn + hp;
        let w2 = hn + 2 * hp;
        let num = (w1 + w2) * dp * dn;
        let den = w1 * dn + w2 * dp;
        assert(0 <= num && 0 < den && num <= den * (3 * dp) && num <= den * (3
            * dn)) by (nonlinear_arith)
            requires
                num == (w1 + w2) * dp * dn,
                den == w1 * dn + w2 * dp,
                w1 == 2 * hn + hp,
                w2 == hn + 2 * hp,
                0 < hp,
                0 < hn,
                0 < dp,
                0 < dn,
        {}
        assert(interior_slope(hp, hn, dp, dn) == div_trunc(num, den));
        crate::numeric::lemma_div_trunc_upper(num, den, 3 * dp);
        crate::numeric::lemma_div_trunc_upper(num, den, 3 * dn);
        lemma_div_trunc_props(num, den);
    }
}

/// The computed slopes of nondecreasing data satisfy the Fritsch-Carlson
/// condition: every slope is nonnegative and, scaled by either adjacent
/// gap, stays within three times that segment's elevation rise.
pub proof fn lemma_slopes_monotone(xs: Seq<i64>, ys: Seq<i64>)
    requires
        xs.len() == ys.len(),
        xs.len() >= 2,
        strictly_increasing(xs),
        seq_in_unit_range(xs),
        seq_in_unit_range(ys),
        nondecreasing(ys),
    ensures
        fc_ok(xs, ys, slopes_seq(xs, ys)),
        forall|i: int| 0 <= i < xs.len() ==> 0 <= #[trigger] slopes_seq(xs, ys)[i],
{
    let n = xs.len() as int;
    let ds = slopes_seq(xs, ys);
    assert forall|i: int| 0 <= i < n implies 0 <= #[trigger] ds[i] by {
        lemma_slope_at_monotone(xs, ys, i);
        assert(ds[i] as int == slope_at(xs, ys, i));
    }
    assert forall|i: int|
        0 <= i < n - 1 implies {
            &&& 0 <= #[trigger] ds[i]
            &&& 0 <= ds[i + 1]
            &&& h_of(xs, i) * ds[i] <= 3000 * (ys[i + 1] - ys[i])
            &&& h_of(xs, i) * ds[i + 1] <= 3000 * (ys[i + 1] - ys[i])
        } by {
        lemma_slope_at_monotone(xs, ys, i);
        lemma_slope_at_monotone(xs, ys, i + 1);
        lemma_secant_props(xs, ys, i);
        assert(ds[i] as int == slope_at(xs, ys, i));
        assert(ds[i + 1] as int == slope_at(xs, ys, i + 1));
        let h = h_of(xs, i);
        let del = delta_of(xs, ys, i);
        assert(h * (ds[i] as int) <= h * (3 * del)) by (nonlinear_arith)
            requires
                0 < h,
                ds[i] as int <= 3 * del,
        {}
        assert(h * (3 * del) <= 3000 * (ys[i + 1] - ys[i])) by (nonlinear_arith)
            requires
                h * del <= 1000 * (ys[i + 1] - ys[i]),
        {}
        assert(h * (ds[i + 1] as int) <= h * (3 * del)) by (nonlinear_arith)
            requires
                0 < h,
                ds[i + 1] as int <= 3 * del,
        {}
    }
}

/// Every slope of nondecreasing data is nonnegative, bounded by the
/// machine slope limit, and at most three times each adjacent secant.
proof fn lemma_slope_at_monotone(xs: Seq<i64>, ys: Seq<i64>, i: int)
    requires
        xs.len() == ys.len(),
        xs.len() >= 2,
        strictly_increasing(xs),
        seq_in_unit_range(xs),
        seq_in_unit_range(ys),
        nondecreasing(ys),
        0 <= i < xs.len(),
    ensures
        0 <= slope_at(xs, ys, i) <= 6_000_000_000_000,
        i < xs.len() - 1 ==> slope_at(xs, ys, i) <= 3 * delta_of(xs, ys, i),
        i > 0 ==> slope_at(xs, ys, i) <= 3 * delta_of(xs, ys, i - 1),
{
    let n = xs.len() as int;
    if n == 2 {
        lemma_secant_props(xs, ys, 0);
        assert(slope_at(xs, ys, i) == delta_of(xs, ys, 0));
    } else if i == 0 {
        lemma_secant_props(xs, ys, 0);
        lemma_secant_props(xs, ys, 1);
        lemma_endpoint_monotone(h_of(xs, 0), h_of(xs, 1), delta_of(xs, ys, 0), delta_of(xs, ys, 1));
    } else if i == n - 1 {
        lemma_secant_props(xs, ys, n - 2);
        lemma_secant_props(xs, ys, n - 3);
        lemma_endpoint_monotone(
            h_of(xs, n - 2),
            h_of(xs, n - 3),
            delta_of(xs, ys, n - 2),
            delta_of(xs, ys, n - 3),
        );
    } else {
        lemma_secant_props(xs, ys, i - 1);
        lemma_secant_props(xs, ys, i);
        lemma_interior_monotone(
            h_of(xs, i - 1),
            h_of(xs, i),
            delta_of(xs, ys, i - 1),
            delta_of(xs, ys, i),
        );
    }
}

/// The Hermite numerator, rewritten in the power basis of the segment
/// position.
proof fn lemma_hermite_num_power_form(y0: int, y1: int, dd0: int, dd1: int, t: int)
    ensures
        hermite_num(y0, y1, dd0, dd1, t) == 1_000_000_000_000 * y0 + 1_000_000 * dd0 * t + (
        3_000_000 * (y1 - y0) - 2000 * dd0 - 1000 * dd1) * (t * t) + (dd0 + dd1 - 2000 * (y1 - y0))
            * (t * t * t),
{
    assert(1000 * (1000 + 2 * t) * (1000 - t) * (1000 - t) * y0 == 1_000_000_000_000 * y0
        - 3_000_000 * y0 * (t * t) + 2000 * y0 * (t * t * t)) by (nonlinear_arith);
    assert(t * (1000 - t) * (1000 - t) * dd0 == 1_000_000 * dd0 * t - 2000 * dd0 * (t * t) + dd0 * (
    t * t * t)) by (nonlinear_arith);
    assert(1000 * t * t * (3000 - 2 * t) * y1 == 3_000_000 * y1 * (t * t) - 2000 * y1 * (t * t
        * t)) by (nonlinear_arith);
    assert(t * t * (t - 1000) * dd1 == dd1 * (t * t * t) - 1000 * dd1 * (t * t)) by (nonlinear_arith);
    assert((3_000_000 * (y1 - y0) - 2000 * dd0 - 1000 * dd1) * (t * t) == 3_000_000 * y1 * (t * t)
        - 3_000_000 * y0 * (t * t) - 2000 * dd0 * (t * t) - 1000 * dd1 * (t * t)) by (nonlinear_arith);
    assert((dd0 + dd1 - 2000 * (y1 - y0)) * (t * t * t) == dd0 * (t * t * t) + dd1 * (t * t * t)
        - 2000 * y1 * (t * t * t) + 2000 * y0 * (t * t * t)) by (nonlinear_arith);
}

/// The forward difference of the Hermite numerator from `s` to `s + 1` is
/// nonnegative whenever the data rises and both gap-scaled slopes stay
/// within three times the rise. The difference is affine in the two
/// slopes, so it is smallest at one of the four corners of the slope box,
/// and each corner reduces to a nonnegative quadratic in `s`.
proof fn lemma_hermite_num_step(y0: int, y1: int, dd0: int, dd1: int, s: int)
    requires
        0 <= s < 1000,
        y0 <= y1,
        0 <= dd0 <= 3000 * (y1 - y0),
        0 <= dd1 <= 3000 * (y1 - y0),
    ensures
        hermite_num(y0, y1, dd0, dd1, s) <= hermite_num(y0, y1, dd0, dd1, s + 1),
{
    let r = y1 - y0;
    let aa = 3 * s * s - 3997 * s + 998001;
    let bb = 3 * s * s - 1997 * s - 999;
    let cc = -6000 * s * s + 5994000 * s + 2998000;
    let n1 = hermite_num(y0, y1, dd0, dd1, s);
    let n2 = hermite_num(y0, y1, dd0, dd1, s + 1);
    let diff = n2 - n1;
    lemma_hermite_num_power_form(y0, y1, dd0, dd1, s);
    lemma_hermite_num_power_form(y0, y1, dd0, dd1, s + 1);
    let c2 = 3_000_000 * r - 2000 * dd0 - 1000 * dd1;
    let c3 = dd0 + dd1 - 2000 * r;
    assert(diff == 1_000_000 * dd0 + c2 * (2 * s + 1) + c3 * (3 * s * s + 3 * s
        + 1)) by (nonlinear_arith)
        requires
            n1 == 1_000_000_000_000 * y0 + 1_000_000 * dd0 * s + c2 * (s * s) + c3 * (s * s * s),
            n2 == 1_000_000_000_000 * y0 + 1_000_000 * dd0 * (s + 1) + c2 * ((s + 1) * (s + 1))
                + c3 * ((s + 1) * (s + 1) * (s + 1)),
            diff == n2 - n1,
    {}
    assert(diff == dd0 * aa + dd1 * bb + r * cc) by (nonlinear_arith)
        requires
            diff == 1_000_000 * dd0 + c2 * (2 * s + 1) + c3 * (3 * s * s + 3 * s + 1),
            c2 == 3_000_000 * r - 2000 * dd0 - 1000 * dd1,
            c3 == dd0 + dd1 - 2000 * r,
            aa == 3 * s * s - 3997 * s + 998001,
            bb == 3 * s * s - 1997 * s - 999,
            cc == -6000 * s * s + 5994000 * s + 2998000,
    {}
    // The four corners of the slope box, as coefficients of the rise.
    assert(cc >= 0) by (nonlinear_arith)
        requires
            cc == -6000 * s * s + 5994000 * s + 2998000,
            0 <= s <= 999,
    {}
    assert(3000 * aa + cc >= 0) by (nonlinear_arith)
        requires
            aa == 3 * s * s - 3997 * s + 998001,
            cc == -6000 * s * s + 5994000 * s + 2998000,
            0 <= s <= 999,
    {}
    assert(3000 * bb + cc >= 0) by (nonlinear_arith)
        requires
            bb == 3 * s * s - 1997 * s - 999,
            cc == -6000 * s * s + 5994000 * s + 2998000,
            0 <= s <= 999,
    {}
    assert(3000 * aa + 3000 * bb + cc >= 0) by (nonlinear_arith)
        requires
            aa == 3 * s * s - 3997 * s + 998001,
            bb == 3 * s * s - 1997 * s - 999,
            cc == -6000 * s * s + 5994000 * s + 2998000,
            0 <= s <= 999,
    {}
    // The difference is affine in the slopes: bound each slope term by its
    // corner and finish with the corner quadratic.
    if aa >= 0 {
        assert(dd0 * aa >= 0) by (nonlinear_arith)
            requires
                aa >= 0,
                dd0 >= 0,
        {}
    } else {
        assert(dd0 * aa >= (3000 * r) * aa) by (nonlinear_arith)
            requires
                aa < 0,
                0 <= dd0 <= 3000 * r,
        {}
    }
    if bb >= 0 {
        assert(dd1 * bb >= 0) by (nonlinear_arith)
            requires
                bb >= 0,
                dd1 >= 0,
        {}
    } else {
        assert(dd1 * bb >= (3000 * r) * bb) by (nonlinear_arith)
            requires
                bb < 0,
                0 <= dd1 <= 3000 * r,
        {}
    }
    if aa >= 0 && bb >= 0 {
        assert(diff >= 0) by (nonlinear_arith)
            requires
                diff == dd0 * aa + dd1 * bb + r * cc,
                dd0 * aa >= 0,
                dd1 * bb >= 0,
                r >= 0,
                cc >= 0,
        {}
    } else if aa >= 0 && bb < 0 {
        assert(diff >= 0) by (nonlinear_arith)
            requires
                diff == dd0 * aa + dd1 * bb + r * cc,
                dd0 * aa >= 0,
                dd1 * bb >= (3000 * r) * bb,
                r >= 0,
                3000 * bb + cc >= 0,
        {}
    } else if aa < 0 && bb >= 0 {
        assert(diff >= 0) by (nonlinear_arith)
            requires
                diff == dd0 * aa + dd1 * bb + r * cc,
                dd0 * aa >= (3000 * r) * aa,
                dd1 * bb >= 0,
                r >= 0,
                3000 * aa + cc >= 0,
        {}
    } else {
        assert(diff >= 0) by (nonlinear_arith)
            requires
                diff == dd0 * aa + dd1 * bb + r * cc,
                dd0 * aa >= (3000 * r) * aa,
                dd1 * bb >= (3000 * r) * bb,
                r >= 0,
                3000 * aa + 3000 * bb + cc >= 0,
        {}
    }
}

/// The Hermite numerator is nondecreasing in the segment position for
/// rising data with Fritsch-Carlson slopes.
proof fn lemma_hermite_num_monotone(y0: int, y1: int, dd0: int, dd1: int, s1: int, s2: int)
    requires
        0 <= s1 <= s2 <= 1000,
        y0 <= y1,
        0 <= dd0 <= 3000 * (y1 - y0),
        0 <= dd1 <= 3000 * (y1 - y0),
    ensures
        hermite_num(y0, y1, dd0, dd1, s1) <= hermite_num(y0, y1, dd0, dd1, s2),
    decreases s2 - s1,
{
    if s1 < s2 {
        lemma_hermite_num_step(y0, y1, dd0, dd1, s1);
        lemma_hermite_num_monotone(y0, y1, dd0, dd1, s1 + 1, s2);
    }
}

/// At the two ends of a segment the Hermite numerator is exactly the
/// endpoint elevation times the fixed denominator.
proof fn lemma_hermite_num_ends(y0: int, y1: int, dd0: int, dd1: int)
    ensures
        hermite_num(y0, y1, dd0, dd1, 0) == 1_000_000_000_000 * y0,
        hermite_num(y0, y1, dd0, dd1, 1000) == 1_000_000_000_000 * y1,
{
    let n0 = hermite_num(y0, y1, dd0, dd1, 0);
    let n1000 = hermite_num(y0, y1, dd0, dd1, 1000);
    assert(n0 == 1_000_000_000_000 * y0 && n1000 == 1_000_000_000_000 * y1) by (nonlinear_arith)
        requires
            n0 == 1000 * (1000 + 2 * 0) * (1000 - 0) * (1000 - 0) * y0 + 0 * (1000 - 0) * (1000
                - 0) * dd0 + 1000 * 0 * 0 * (3000 - 2 * 0) * y1 + 0 * 0 * (0 - 1000) * dd1,
            n1000 == 1000 * (1000 + 2 * 1000) * (1000 - 1000) * (1000 - 1000) * y0 + 1000 * (1000
                - 1000) * (1000 - 1000) * dd0 + 1000 * 1000 * 1000 * (3000 - 2 * 1000) * y1 + 1000
                * 1000 * (1000 - 1000) * dd1,
    {}
}

/// On one segment of rising data with Fritsch-Carlson slopes, the cubic
/// Hermite value stays exactly within the segment's elevation span.
proof fn lemma_hermite_seg_range(x0: int, x1: int, y0: int, y1: int, d0: int, d1: int, q: int)
    requires
        x0 < x1,
        y0 <= y1,
        0 <= d0,
        0 <= d1,
        (x1 - x0) * d0 <= 3000 * (y1 - y0),
        (x1 - x0) * d1 <= 3000 * (y1 - y0),
        x0 <= q <= x1,
    ensures
        y0 <= hermite_seg(x0, x1, y0, y1, d0, d1, q) <= y1,
{
    let h = x1 - x0;
    let s = (1000 * (q - x0)) / h;
    lemma_div_pos_is_pos(1000 * (q - x0), h);
    assert(1000 * (q - x0) <= 1000 * h) by (nonlinear_arith)
        requires
            0 <= q - x0 <= h,
    {}
    crate::numeric::lemma_div_le_factor(1000 * (q - x0), h, 1000);
    let dd0 = h * d0;
    let dd1 = h * d1;
    assert(0 <= dd0 && 0 <= dd1) by (nonlinear_arith)
        requires
            dd0 == h * d0,
            dd1 == h * d1,
            0 < h,
            0 <= d0,
            0 <= d1,
    {}
    lemma_hermite_num_monotone(y0, y1, dd0, dd1, 0, s);
    lemma_hermite_num_monotone(y0, y1, dd0, dd1, s, 1000);
    lemma_hermite_num_ends(y0, y1, dd0, dd1);
    crate::numeric::lemma_div_trunc_monotone(
        1_000_000_000_000 * y0,
        hermite_num(y0, y1, dd0, dd1, s),
        1_000_000_000_000,
    );
    crate::numeric::lemma_div_trunc_monotone(
        hermite_num(y0, y1, dd0, dd1, s),
        1_000_000_000_000 * y1,
        1_000_000_000_000,
    );
    crate::numeric::lemma_div_trunc_multiple(y0, 1_000_000_000_000);
    crate::numeric::lemma_div_trunc_multiple(y1, 1_000_000_000_000);
}

/// On one segment of rising data with Fritsch-Carlson slopes, the cubic
/// Hermite value is nondecreasing in the query.
proof fn lemma_hermite_seg_monotone(
    x0: int,
    x1: int,
    y0: int,
    y1: int,
    d0: int,
    d1: int,
    q1: int,
    q2: int,
)
    requires
        x0 < x1,
        y0 <= y1,
        0 <= d0,
        0 <= d1,
        (x1 - x0) * d0 <= 3000 * (y1 - y0),
        (x1 - x0) * d1 <= 3000 * (y1 - y0),
        x0 <= q1 <= q2 <= x1,
    ensures
        hermite_seg(x0, x1, y0, y1, d0, d1, q1) <= hermite_seg(x0, x1, y0, y1, d0, d1, q2),
{
    let h = x1 - x0;
    let s1 = (1000 * (q1 - x0)) / h;
    let s2 = (1000 * (q2 - x0)) / h;
    lemma_div_pos_is_pos(1000 * (q1 - x0), h);
    lemma_div_is_ordered(1000 * (q1 - x0), 1000 * (q2 - x0), h);
    assert(1000 * (q2 - x0) <= 1000 * h) by (nonlinear_arith)
        requires
            0 <= q2 - x0 <= h,
    {}
    crate::numeric::lemma_div_le_factor(1000 * (q2 - x0), h, 1000);
    let dd0 = h * d0;
    let dd1 = h * d1;
    assert(0 <= dd0 && 0 <= dd1) by (nonlinear_arith)
        requires
            dd0 == h * d0,
            dd1 == h * d1,
            0 < h,
            0 <= d0,
            0 <= d1,
    {}
    lemma_hermite_num_monotone(y0, y1, dd0, dd1, s1, s2);
    crate::numeric::lemma_div_trunc_monotone(
        hermite_num(y0, y1, dd0, dd1, s1),
        hermite_num(y0, y1, dd0, dd1, s2),
        1_000_000_000_000,
    );
}

/// Between any two samples of nondecreasing data with Fritsch-Carlson
/// slopes, the interpolant stays exactly within the sampled elevation
/// span.
proof fn lemma_hermite_in_range(xs: Seq<i64>, ys: Seq<i64>, ds: Seq<i64>, q: int)
    requires
        xs.len() == ys.len(),
        xs.len() == ds.len(),
        xs.len() >= 2,
        strictly_increasing(xs),
        nondecreasing(ys),
        fc_ok(xs, ys, ds),
        xs[0] <= q < xs[xs.len() - 1],
    ensures
        ys[0] <= hermite_in(xs, ys, ds, q) <= ys[ys.len() - 1],
    decreases xs.len(),
{
    let n = xs.len() as int;
    if n <= 2 || q < xs[1] {
        assert(0 <= 0 < n - 1);
        assert(0 <= ds[0] && 0 <= ds[1] && h_of(xs, 0) * ds[0] <= 3000 * (ys[1] - ys[0]) && h_of(
            xs,
            0,
        ) * ds[1] <= 3000 * (ys[1] - ys[0]));
        assert(q < xs[1]) by {
            if n <= 2 {
                assert(xs[n - 1] == xs[1]);
            }
        }
        lemma_hermite_seg_range(
            xs[0] as int,
            xs[1] as int,
            ys[0] as int,
            ys[1] as int,
            ds[0] as int,
            ds[1] as int,
            q,
        );
        lemma_nondecreasing_le(ys, 1, ys.len() as int - 1);
    } else {
        let xs1 = xs.drop_first();
        let ys1 = ys.drop_first();
        let ds1 = ds.drop_first();
        lemma_drop_first_keeps_shape(xs, ys, ds);
        assert(xs1[0] == xs[1]);
        assert(xs1[xs1.len() - 1] == xs[n - 1]);
        lemma_hermite_in_range(xs1, ys1, ds1, q);
        assert(ys1[0] == ys[1]);
        assert(ys1[ys1.len() - 1] == ys[n - 1]);
        lemma_nondecreasing_le(ys, 0, 1);
    }
}

/// Dropping the first sample keeps the sortedness, monotonicity and
/// Fritsch-Carlson conditions of the remaining samples.
proof fn lemma_drop_first_keeps_shape(xs: Seq<i64>, ys: Seq<i64>, ds: Seq<i64>)
    requires
        xs.len() == ys.len(),
        xs.len() == ds.len(),
        xs.len() >= 3,
        strictly_increasing(xs),
        nondecreasing(ys),
        fc_ok(xs, ys, ds),
    ensures
        strictly_increasing(xs.drop_first()),
        nondecreasing(ys.drop_first()),
        fc_ok(xs.drop_first(), ys.drop_first(), ds.drop_first()),
{
    let xs1 = xs.drop_first();
    let ys1 = ys.drop_first();
    let ds1 = ds.drop_first();
    assert(strictly_increasing(xs1)) by {
        assert(forall|k: int| 0 <= k < xs1.len() ==> #[trigger] xs1[k] == xs[k + 1]);
    }
    assert(nondecreasing(ys1)) by {
        assert(forall|k: int| 0 <= k < ys1.len() ==> #[trigger] ys1[k] == ys[k + 1]);
    }
    assert(fc_ok(xs1, ys1, ds1)) by {
        assert forall|k: int|
            0 <= k < xs1.len() - 1 implies {
                &&& 0 <= #[trigger] ds1[k]
                &&& 0 <= ds1[k + 1]
                &&& h_of(xs1, k) * ds1[k] <= 3000 * (ys1[k + 1] - ys1[k])
                &&& h_of(xs1, k) * ds1[k + 1] <= 3000 * (ys1[k + 1] - ys1[k])
            } by {
            assert(ds1[k] == ds[k + 1]);
            assert(ds1[k + 1] == ds[k + 2]);
            assert(xs1[k] == xs[k + 1]);
            assert(xs1[k + 1] == xs[k + 2]);
            assert(ys1[k] == ys[k + 1]);
            assert(ys1[k + 1] == ys[k + 2]);
            assert(0 <= k + 1 < xs.len() - 1);
        }
    }
}

/// Between any two samples of nondecreasing data with Fritsch-Carlson
/// slopes, the interpolant is nondecreasing in the query.
proof fn lemma_hermite_in_monotone(xs: Seq<i64>, ys: Seq<i64>, ds: Seq<i64>, q1: int, q2: int)
    requires
        xs.len() == ys.len(),
        xs.len() == ds.len(),
        xs.len() >= 2,
        strictly_increasing(xs),
        nondecreasing(ys),
        fc_ok(xs, ys, ds),
        xs[0] <= q1 <= q2 < xs[xs.len() - 1],
    ensures
        hermite_in(xs, ys, ds, q1) <= hermite_in(xs, ys, ds, q2),
    decreases xs.len(),
{
    let n = xs.len() as int;
    if n <= 2 || q2 < xs[1] {
        assert(0 <= 0 < n - 1);
        assert(0 <= ds[0] && 0 <= ds[1] && h_of(xs, 0) * ds[0] <= 3000 * (ys[1] - ys[0]) && h_of(
            xs,
            0,
        ) * ds[1] <= 3000 * (ys[1] - ys[0]));
        assert(q2 < xs[1]) by {
            if n <= 2 {
                assert(xs[n - 1] == xs[1]);
            }
        }
        lemma_hermite_seg_monotone(
            xs[0] as int,
            xs[1] as int,
            ys[0] as int,
            ys[1] as int,
            ds[0] as int,
            ds[1] as int,
            q1,
            q2,
        );
    } else if q1 < xs[1] {
        // The queries straddle the first node: the left value stays at or
        // below the node elevation, the right value at or above it.
        assert(0 <= 0 < n - 1);
        assert(0 <= ds[0] && 0 <= ds[1] && h_of(xs, 0) * ds[0] <= 3000 * (ys[1] - ys[0]) && h_of(
            xs,
            0,
        ) * ds[1] <= 3000 * (ys[1] - ys[0]));
        lemma_hermite_seg_range(
            xs[0] as int,
            xs[1] as int,
            ys[0] as int,
            ys[1] as int,
            ds[0] as int,
            ds[1] as int,
            q1,
        );
        let xs1 = xs.drop_first();
        let ys1 = ys.drop_first();
        let ds1 = ds.drop_first();
        lemma_drop_first_keeps_shape(xs, ys, ds);
        assert(xs1[0] == xs[1]);
        assert(xs1[xs1.len() - 1] == xs[n - 1]);
        lemma_hermite_in_range(xs1, ys1, ds1, q2);
        assert(ys1[0] == ys[1]);
    } else {
        let xs1 = xs.drop_first();
        let ys1 = ys.drop_first();
        let ds1 = ds.drop_first();
        lemma_drop_first_keeps_shape(xs, ys, ds);
        assert(xs1[0] == xs[1]);
        assert(xs1[xs1.len() - 1] == xs[n - 1]);
        lemma_hermite_in_monotone(xs1, ys1, ds1, q1, q2);
    }
}

/// No overshoot: at any query inside the sampled range span of
/// nondecreasing elevations, the interpolant built from the computed
/// shape-preserving slopes stays exactly within the sampled elevation
/// span.
pub proof fn lemma_resample_no_overshoot(xs: Seq<i64>, ys: Seq<i64>, q: int)
    requires
        xs.len() == ys.len(),
        xs.len() >= 2,
        strictly_increasing(xs),
        seq_in_unit_range(xs),
        seq_in_unit_range(ys),
        nondecreasing(ys),
        xs[0] <= q <= xs[xs.len() - 1],
    ensures
        ys[0] <= eval_spec(xs, ys, slopes_seq(xs, ys), q) <= ys[ys.len() - 1],
{
    lemma_slopes_monotone(xs, ys);
    if q == xs[xs.len() - 1] {
        lemma_nondecreasing_le(ys, 0, ys.len() as int - 1);
    } else {
        lemma_hermite_in_range(xs, ys, slopes_seq(xs, ys), q);
    }
}

/// Monotone in, monotone out: over nondecreasing elevations the
/// interpolant built from the computed shape-preserving slopes is itself
/// nondecreasing across the whole sampled range span, so resampling a
/// monotone table yields a monotone table.
pub proof fn lemma_resample_monotone(xs: Seq<i64>, ys: Seq<i64>, q1: int, q2: int)
    requires
        xs.len() == ys.len(),
        xs.len() >= 2,
        strictly_increasing(xs),
        seq_in_unit_range(xs),
        seq_in_unit_range(ys),
        nondecreasing(ys),
        xs[0] <= q1 <= q2 <= xs[xs.len() - 1],
    ensures
        eval_spec(xs, ys, slopes_seq(xs, ys), q1) <= eval_spec(xs, ys, slopes_seq(xs, ys), q2),
{
    lemma_slopes_monotone(xs, ys);
    let ds = slopes_seq(xs, ys);
    let last = xs.len() as int - 1;
    if q2 == xs[last] {
        if q1 == xs[last] {
        } else {
            lemma_hermite_in_range(xs, ys, ds, q1);
        }
    } else {
        lemma_hermite_in_monotone(xs, ys, ds, q1, q2);
    }
}

/// Resamples a well-formed range table on the whole-meter grid: one point
/// per `step_m` meters from the least whole meter at or above the first
/// sample to the greatest whole meter at or below the last, each carrying
/// the interpolant's value there.
///
/// Fails with `InsufficientData` exactly when the table has fewer than two
/// samples.
pub fn resample(table: &crate::table::BallisticTable, step_m: i64) -> (r: Result<
    Vec<crate::table::BallisticPoint>,
    PchipError,
>)
    requires
        table.wf(),
        1 <= step_m,
    ensures
        match r {
            Ok(out) => {
                &&& table.points@.len() >= 2
                &&& out@.len() == grid_count(
                    grid_lo(ranges_of(table.points@)),
                    grid_hi(ranges_of(table.points@)),
                    step_m as int,
                )
                &&& forall|j: int|
                    0 <= j < out@.len() ==> (#[trigger] out@[j]).range_m as int == 1000 * (grid_lo(
                        ranges_of(table.points@),
                    ) + j * step_m)
                &&& forall|j: int|
                    0 <= j < out@.len() ==> (#[trigger] out@[j]).elev_mil as int == eval_spec(
                        ranges_of(table.points@),
                        elevs_of(table.points@),
                        slopes_seq(ranges_of(table.points@), elevs_of(table.points@)),
                        1000 * (grid_lo(ranges_of(table.points@)) + j * step_m),
                    )
            },
            Err(e) => {
                &&& e == PchipError::InsufficientData
                &&& table.points@.len() < 2
            },
        },
{
    let n = table.points.len();
    if n < 2 {
        return Err(PchipError::InsufficientData);
    }
    let mut xs: Vec<i64> = Vec::new();
    let mut ys: Vec<i64> = Vec::new();
    let mut k: usize = 0;
    while k < n
        invariant
            table.wf(),
            n == table.points@.len(),
            0 <= k <= n,
            xs@.len() == k,
            ys@.len() == k,
            forall|j: int| 0 <= j < k ==> (#[trigger] xs@[j]) == table.points@[j].range_m,
            forall|j: int| 0 <= j < k ==> (#[trigger] ys@[j]) == table.points@[j].elev_mil,
        decreases n - k,
    {
        xs.push(table.points[k].range_m);
        ys.push(table.points[k].elev_mil);
        k = k + 1;
    }
    proof {
        assert(xs@ =~= ranges_of(table.points@));
        assert(ys@ =~= elevs_of(table.points@));
        assert(seq_in_unit_range(xs@));
        assert(seq_in_unit_range(ys@));
        assert(strictly_increasing(xs@));
    }
    let d = match pchip_slopes(&xs, &ys) {
        Ok(d) => d,
        Err(e) => {
            proof {
                assert(false);
            }
            return Err(e);
        },
    };
    proof {
        assert forall|i: int| 0 <= i < d@.len() implies (#[trigger] d@[i]) == slopes_seq(xs@, ys@)[i] by {
            assert(d@[i] as int == slope_at(xs@, ys@, i));
        }
        assert(d@ =~= slopes_seq(xs@, ys@));
    }

    let x0 = xs[0];
    let xl = xs[n - 1];
    let t_lo: i64 = x0 + 999 + 1_000_000_000;
    let lo: i64 = ((t_lo as u64) / 1000) as i64 - 1_000_000;
    let t_hi: i64 = xl + 1_000_000_000;
    let hi: i64 = ((t_hi as u64) / 1000) as i64 - 1_000_000;
    proof {
        lemma_div_shift_1000((x0 + 999) as int, 1_000_000);
        lemma_div_shift_1000(xl as int, 1_000_000);
        assert(lo as int == grid_lo(xs@));
        assert(hi as int == grid_hi(xs@));
        vstd::arithmetic::div_mod::lemma_fundamental_div_mod((x0 + 999) as int, 1000);
        vstd::arithmetic::div_mod::lemma_mod_bound((x0 + 999) as int, 1000);
        assert(1000 * (lo as int) >= x0 as int);
        vstd::arithmetic::div_mod::lemma_fundamental_div_mod(xl as int, 1000);
        vstd::arithmetic::div_mod::lemma_mod_bound(xl as int, 1000);
        assert(1000 * (hi as int) <= xl as int);
        assert(-1_000_000 <= lo as int <= 1_000_001);
        assert(-1_000_000 <= hi as int <= 1_000_000);
    }
    let mut out: Vec<crate::table::BallisticPoint> = Vec::new();
    if lo > hi {
        return Ok(out);
    }
    let span: i64 = hi - lo;
    let steps: u64 = (span as u64) / (step_m as u64);
    proof {
        vstd::arithmetic::div_mod::lemma_fundamental_div_mod(span as int, step_m as int);
        vstd::arithmetic::div_mod::lemma_mod_bound(span as int, step_m as int);
        vstd::arithmetic::div_mod::lemma_div_pos_is_pos(span as int, step_m as int);
        assert((step_m as int) * (steps as int) <= span as int);
    }
    let cnt: usize = (steps + 1) as usize;
    let mut j: usize = 0;
    while j < cnt
        invariant
            table.wf(),
            n == table.points@.len(),
            2 <= n,
            xs@ == ranges_of(table.points@),
            ys@ == elevs_of(table.points@),
            d@ == slopes_seq(xs@, ys@),
            xs@.len() == n,
            ys@.len() == n,
            d@.len() == n,
            strictly_increasing(xs@),
            seq_in_unit_range(xs@),
            seq_in_unit_range(ys@),
            forall|i: int|
                0 <= i < d@.len() ==> -SLOPE_LIMIT <= #[trigger] d@[i] <= SLOPE_LIMIT,
            1 <= step_m,
            lo as int == grid_lo(xs@),
            hi as int == grid_hi(xs@),
            lo <= hi,
            -1_000_000 <= lo <= 1_000_001,
            -1_000_000 <= hi <= 1_000_000,
            x0 == xs@[0],
            xl == xs@[n - 1],
            1000 * (lo as int) >= x0 as int,
            1000 * (hi as int) <= xl as int,
            steps as int == (hi - lo) as int / (step_m as int),
            (step_m as int) * (steps as int) <= (hi - lo) as int,
            cnt == steps + 1,
            0 <= j <= cnt,
            out@.len() == j,
            forall|k2: int|
                0 <= k2 < j ==> (#[trigger] out@[k2]).range_m as int == 1000 * (lo as int + k2
                    * (step_m as int)),
            forall|k2: int|
                0 <= k2 < j ==> (#[trigger] out@[k2]).elev_mil as int == eval_spec(
                    xs@,
                    ys@,
                    d@,
                    1000 * (lo as int + k2 * (step_m as int)),
                ),
        decreases cnt - j,
    {
        proof {
            vstd::arithmetic::mul::lemma_mul_inequality(j as int, steps as int, step_m as int);
            vstd::arithmetic::mul::lemma_mul_is_commutative(steps as int, step_m as int);
            vstd::arithmetic::mul::lemma_mul_is_commutative(j as int, step_m as int);
            vstd::arithmetic::mul::lemma_mul_nonnegative(j as int, step_m as int);
            assert((j as int) * (step_m as int) <= (hi - lo) as int);
        }
        let offset: i64 = (j as i64) * step_m;
        let r_m: i64 = lo + offset;
        let q: i64 = 1000 * r_m;
        proof {
            assert(q as int >= 1000 * (lo as int));
            assert(q as int <= 1000 * (hi as int));
        }
        let v = match pchip_eval(&xs, &ys, &d, q) {
            Ok(v) => v,
            Err(_) => {
                proof {
                    assert(false);
                }
                return Err(PchipError::OutOfDomain);
            },
        };
        out.push(crate::table::BallisticPoint { range_m: q, elev_mil: v });
        j = j + 1;
    }
    Ok(out)
}

} // verus!

