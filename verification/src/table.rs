//! Ballistic range tables: ordered range-to-elevation samples for one
//! projectile type and precision ring, with exact linear interpolation
//! between neighboring samples. Ranges are in thousandths of a meter,
//! elevations in thousandths of a mil.

use vstd::prelude::*;
use crate::numeric::UNIT_LIMIT;
use crate::numeric::mul_div_trunc;
use crate::numeric::mul_div_i64;
use crate::geometry::in_unit_range;

verus! {

/// A precision-ring index; only rings `0` through `4` carry published data.
pub type Ring = u8;

/// One measured sample: a range and the sight elevation that reaches it.
#[derive(Clone, Copy, Debug, PartialEq, Eq, Structural)]
pub struct BallisticPoint {
    /// Range in thousandths of a meter.
    pub range_m: i64,
    /// Sight elevation in thousandths of a mil.
    pub elev_mil: i64,
}

/// Holds when both measures of the sample are inside the accepted machine
/// range; samples outside it are dropped at construction.
pub open spec fn valid_point(p: BallisticPoint) -> bool {
    in_unit_range(p.range_m as int) && in_unit_range(p.elev_mil as int)
}

/// Holds when some valid sample of `s` has range `r`.
pub open spec fn has_valid_range(s: Seq<BallisticPoint>, r: int) -> bool {
    exists|k: int| 0 <= k < s.len() && valid_point(#[trigger] s[k]) && s[k].range_m == r
}

/// The elevation of the last valid sample of `s` with range `r`; later
/// samples shadow earlier ones with the same range.
pub open spec fn last_valid_elev(s: Seq<BallisticPoint>, r: int) -> int
    decreases s.len(),
{
    if s.len() == 0 {
        0
    } else if valid_point(s.last()) && s.last().range_m == r {
        s.last().elev_mil as int
    } else {
        last_valid_elev(s.drop_last(), r)
    }
}

/// Linear interpolation between the samples `(r0, e0)` and `(r1, e1)`,
/// evaluated at `q`; division truncates toward zero.
pub open spec fn lerp(r0: int, e0: int, r1: int, e1: int, q: int) -> int {
    e0 + mul_div_trunc(q - r0, e1 - e0, r1 - r0)
}

/// The interpolated elevation of the sorted sample sequence `s` at `q`,
/// taken in the first segment whose right endpoint reaches `q`.
pub open spec fn interp_in(s: Seq<BallisticPoint>, q: int) -> int
    decreases s.len(),
{
    if s.len() <= 2 || q <= s[1].range_m {
        lerp(s[0].range_m as int, s[0].elev_mil as int, s[1].range_m as int, s[1].elev_mil as int, q)
    } else {
        interp_in(s.drop_first(), q)
    }
}

/// What a lookup at range `q` returns: nothing when fewer than two samples
/// exist or `q` falls outside the sampled span, otherwise the linear
/// interpolation between the two bracketing samples (exact at a stored
/// sample).
pub open spec fn elev_at_spec(s: Seq<BallisticPoint>, q: int) -> Option<int> {
    if s.len() < 2 {
        None
    } else if q < s[0].range_m || q > s[s.len() - 1].range_m {
        None
    } else {
        Some(interp_in(s, q))
    }
}

/// A ballistic table: samples sorted by strictly increasing range.
#[derive(Clone, Debug)]
pub struct BallisticTable {
    /// The samples, sorted by strictly increasing range.
    pub points: Vec<BallisticPoint>,
}

impl BallisticTable {
    /// Holds when the samples are strictly increasing in range and all
    /// measures are inside the accepted machine range.
    pub open spec fn wf(self) -> bool {
        &&& forall|i: int, j: int|
            0 <= i < j < self.points@.len() ==> (#[trigger] self.points@[i]).range_m < (
            #[trigger] self.points@[j]).range_m
        &&& forall|i: int| 0 <= i < self.points@.len() ==> valid_point(#[trigger] self.points@[i])
    }

    /// Builds a table from raw samples: samples whose measures fall outside
    /// the accepted machine range are dropped, the rest are sorted by range,
    /// and when several share a range the last one given wins.
    pub fn from_points(pts: &Vec<BallisticPoint>) -> (r: BallisticTable)
        ensures
            r.wf(),
            forall|j: int|
                0 <= j < r.points@.len() ==> has_valid_range(pts@, (#[trigger] r.points@[j]).range_m as int)
                    && r.points@[j].elev_mil == last_valid_elev(pts@, r.points@[j].range_m as int),
            forall|k: int|
                0 <= k < pts@.len() && valid_point(#[trigger] pts@[k]) ==> has_valid_range(
                    r.points@,
                    pts@[k].range_m as int,
                ),
    {
        let mut out: Vec<BallisticPoint> = Vec::new();
        let ghost all = pts@;
        let n = pts.len();
        let mut idx: usize = 0;
        while idx < n
            invariant
                n == pts@.len(),
                0 <= idx <= n,
                forall|i: int, j: int|
                    0 <= i < j < out@.len() ==> (#[trigger] out@[i]).range_m < (
                    #[trigger] out@[j]).range_m,
                forall|i: int| 0 <= i < out@.len() ==> valid_point(#[trigger] out@[i]),
                forall|j: int|
                    0 <= j < out@.len() ==> has_valid_range(
                        pts@.subrange(0, idx as int),
                        (#[trigger] out@[j]).range_m as int,
                    ) && out@[j].elev_mil == last_valid_elev(
                        pts@.subrange(0, idx as int),
                        out@[j].range_m as int,
                    ),
                forall|k: int|
                    0 <= k < idx && valid_point(#[trigger] pts@[k]) ==> has_valid_range(
                        out@,
                        pts@[k].range_m as int,
                    ),
            decreases n - idx,
        {
            let p = pts[idx];
            let ghost prefix = pts@.subrange(0, idx as int);
            let ghost prefix1 = pts@.subrange(0, idx as int + 1);
            proof {
                assert(prefix1.drop_last() =~= prefix);
                assert(prefix1.last() == pts@[idx as int]);
            }
            let valid = -UNIT_LIMIT <= p.range_m && p.range_m <= UNIT_LIMIT && -UNIT_LIMIT
                <= p.elev_mil && p.elev_mil <= UNIT_LIMIT;
            if valid {
                let mut j: usize = 0;
                while j < out.len() && out[j].range_m < p.range_m
                    invariant
                        0 <= j <= out@.len(),
                        forall|i: int| 0 <= i < j ==> (#[trigger] out@[i]).range_m < p.range_m,
                    decreases out@.len() - j,
                {
                    j = j + 1;
                }
                if j < out.len() && out[j].range_m == p.range_m {
                    let ghost before = out@;
                    out.set(j, p);
                    proof {
                        lemma_content_after_extend(before, out@, prefix, prefix1, pts@[idx as int], j as int);
                    }
                } else {
                    let ghost before = out@;
                    out.insert(j, p);
                    proof {
                        lemma_content_after_insert(before, out@, prefix, prefix1, pts@[idx as int], j as int);
                    }
                }
            } else {
                proof {
                    assert forall|j: int| 0 <= j < out@.len() implies has_valid_range(
                        prefix1,
                        (#[trigger] out@[j]).range_m as int,
                    ) && out@[j].elev_mil == last_valid_elev(prefix1, out@[j].range_m as int) by {
                        lemma_unchanged_by_invalid(prefix, prefix1, out@[j].range_m as int);
                    }
                }
            }
            idx = idx + 1;
        }
        proof {
            assert(pts@.subrange(0, n as int) =~= pts@);
        }
        BallisticTable { points: out }
    }

    /// The least and greatest sampled range, or `None` for an empty table.
    pub fn range_bounds(&self) -> (r: Option<(i64, i64)>)
        ensures
            match r {
                Some(b) => self.points@.len() > 0 && b.0 == self.points@[0].range_m && b.1
                    == self.points@[self.points@.len() - 1].range_m,
                None => self.points@.len() == 0,
            },
    {
        if self.points.len() == 0 {
            None
        } else {
            Some((self.points[0].range_m, self.points[self.points.len() - 1].range_m))
        }
    }

    /// The sight elevation for range `q`, in thousandths of a mil, by linear
    /// interpolation between the two bracketing samples; exact when `q` hits
    /// a stored sample. `None` when fewer than two samples exist or `q` lies
    /// outside the sampled span.
    pub fn elev_at(&self, q: i64) -> (r: Option<i64>)
        requires
            self.wf(),
        ensures
            match r {
                Some(e) => elev_at_spec(self.points@, q as int) == Some(e as int),
                None => elev_at_spec(self.points@, q as int) is None,
            },
    {
        let n = self.points.len();
        if n < 2 {
            return None;
        }
        if q < self.points[0].range_m || q > self.points[n - 1].range_m {
            return None;
        }
        let mut i: usize = 0;
        proof {
            assert(self.points@.subrange(0, n as int) =~= self.points@);
        }
        while i + 2 < n && self.points[i + 1].range_m < q
            invariant
                self.wf(),
                n == self.points@.len(),
                2 <= n,
                0 <= i,
                i + 2 <= n,
                self.points@[0].range_m <= q <= self.points@[n - 1].range_m,
                self.points@[i as int].range_m <= q,
                interp_in(self.points@, q as int) == interp_in(
                    self.points@.subrange(i as int, n as int),
                    q as int,
                ),
            decreases n - i,
        {
            proof {
                let sub = self.points@.subrange(i as int, n as int);
                let sub1 = self.points@.subrange(i as int + 1, n as int);
                assert(sub.len() > 2);
                assert(sub[1] == self.points@[i as int + 1]);
                assert(sub.drop_first() =~= sub1);
            }
            i = i + 1;
        }
        let p0 = self.points[i];
        let p1 = self.points[i + 1];
        proof {
            let sub = self.points@.subrange(i as int, n as int);
            assert(sub[0] == self.points@[i as int]);
            assert(sub[1] == self.points@[i as int + 1]);
            assert(sub.len() <= 2 || q <= sub[1].range_m);
        }
        let num_a = q - p0.range_m;
        let num_b = p1.elev_mil - p0.elev_mil;
        let den = p1.range_m - p0.range_m;
        proof {
            assert(0 <= num_a <= den);
            assert((num_a as int) * (num_b as int) <= 0x4000_0000_0000_0000 - 1
                && -(0x4000_0000_0000_0000 - 1) <= (num_a as int) * (num_b as int)) by (nonlinear_arith)
                requires
                    0 <= num_a <= 2_000_000_000,
                    -2_000_000_000 <= num_b <= 2_000_000_000,
            {}
            lemma_lerp_delta_bounded(num_a as int, num_b as int, den as int);
        }
        let delta = mul_div_i64(num_a, num_b, den);
        Some(p0.elev_mil + delta)
    }
}

/// Interpolating exactly between two stored samples reproduces them: the
/// linear step vanishes at the left sample and recovers the full elevation
/// step at the right one.
proof fn lemma_lerp_exact_at_ends(r0: int, e0: int, r1: int, e1: int)
    requires
        r0 < r1,
    ensures
        lerp(r0, e0, r1, e1, r0) == e0,
        lerp(r0, e0, r1, e1, r1) == e1,
{
    let c = r1 - r0;
    assert(mul_div_trunc(0, e1 - e0, c) == 0) by {
        assert((0int) * (e1 - e0) == c * 0) by (nonlinear_arith);
        crate::numeric::lemma_div_trunc_multiple(0, c);
    }
    assert(mul_div_trunc(c, e1 - e0, c) == e1 - e0) by {
        assert(c * (e1 - e0) == c * (e1 - e0));
        crate::numeric::lemma_div_trunc_multiple(e1 - e0, c);
    }
}

/// A sorted sample sequence interpolates exactly at each stored sample.
proof fn lemma_interp_in_at_sample(s: Seq<BallisticPoint>, k: int)
    requires
        s.len() >= 2,
        forall|i: int, j: int|
            0 <= i < j < s.len() ==> (#[trigger] s[i]).range_m < (#[trigger] s[j]).range_m,
        0 <= k < s.len(),
    ensures
        interp_in(s, s[k].range_m as int) == s[k].elev_mil as int,
    decreases s.len(),
{
    let q = s[k].range_m as int;
    if k == 0 {
        assert(q < s[1].range_m);
        lemma_lerp_exact_at_ends(
            s[0].range_m as int,
            s[0].elev_mil as int,
            s[1].range_m as int,
            s[1].elev_mil as int,
        );
    } else if k == 1 {
        assert(q <= s[1].range_m);
        lemma_lerp_exact_at_ends(
            s[0].range_m as int,
            s[0].elev_mil as int,
            s[1].range_m as int,
            s[1].elev_mil as int,
        );
    } else {
        assert(s.len() > 2);
        assert(s[1].range_m < s[k].range_m);
        let s1 = s.drop_first();
        assert(forall|i: int| 0 <= i < s1.len() ==> #[trigger] s1[i] == s[i + 1]);
        lemma_interp_in_at_sample(s1, k - 1);
        assert(s1[k - 1] == s[k]);
    }
}

/// Exactness at stored samples: looking a well-formed table up at one of
/// its own sampled ranges returns that sample's stored elevation, with no
/// interpolation error.
pub proof fn lemma_elev_at_stored_sample(t: BallisticTable, k: int)
    requires
        t.wf(),
        t.points@.len() >= 2,
        0 <= k < t.points@.len(),
    ensures
        elev_at_spec(t.points@, t.points@[k].range_m as int) == Some(t.points@[k].elev_mil as int),
{
    let s = t.points@;
    let q = s[k].range_m as int;
    assert(s[0].range_m <= q) by {
        if k > 0 {
            assert(s[0].range_m < s[k].range_m);
        }
    }
    assert(q <= s[s.len() - 1].range_m) by {
        if k < s.len() - 1 {
            assert(s[k].range_m < s[s.len() - 1].range_m);
        }
    }
    lemma_interp_in_at_sample(s, k);
}

/// The interpolation step stays within the elevation step: with
/// `0 <= a <= c`, the magnitude of `a * b / c` is at most the magnitude of
/// `b`.
proof fn lemma_lerp_delta_bounded(a: int, b: int, c: int)
    requires
        0 <= a <= c,
        0 < c,
    ensures
        -crate::numeric::abs_spec(b) <= mul_div_trunc(a, b, c) <= crate::numeric::abs_spec(b),
{
    let p = a * b;
    let ab = crate::numeric::abs_spec(b);
    assert(-(c * ab) <= p <= c * ab) by (nonlinear_arith)
        requires
            p == a * b,
            0 <= a <= c,
            ab == crate::numeric::abs_spec(b),
    {}
    if p >= 0 {
        vstd::arithmetic::div_mod::lemma_div_is_ordered(p, c * ab, c);
        vstd::arithmetic::div_mod::lemma_div_multiples_vanish(ab, c);
        vstd::arithmetic::div_mod::lemma_div_pos_is_pos(p, c);
    } else {
        vstd::arithmetic::div_mod::lemma_div_is_ordered(-p, c * ab, c);
        vstd::arithmetic::div_mod::lemma_div_multiples_vanish(ab, c);
        vstd::arithmetic::div_mod::lemma_div_pos_is_pos(-p, c);
    }
}

/// After an invalid sample is skipped, the recorded content of the prefix is
/// unchanged.
proof fn lemma_unchanged_by_invalid(prefix: Seq<BallisticPoint>, prefix1: Seq<BallisticPoint>, r: int)
    requires
        prefix1.len() == prefix.len() + 1,
        prefix1.drop_last() == prefix,
        !valid_point(prefix1.last()),
    ensures
        last_valid_elev(prefix1, r) == last_valid_elev(prefix, r),
        has_valid_range(prefix1, r) == has_valid_range(prefix, r),
{
    if has_valid_range(prefix, r) {
        let k = choose|k: int| 0 <= k < prefix.len() && valid_point(#[trigger] prefix[k]) && prefix[k].range_m == r;
        assert(prefix1[k] == prefix[k]);
        assert(has_valid_range(prefix1, r));
    }
    if has_valid_range(prefix1, r) {
        let k = choose|k: int|
            0 <= k < prefix1.len() && valid_point(#[trigger] prefix1[k]) && prefix1[k].range_m == r;
        assert(k < prefix.len());
        assert(prefix[k] == prefix1[k]);
        assert(has_valid_range(prefix, r));
    }
}

/// Extending the prefix with a valid sample shifts the recorded content of
/// exactly that sample's range.
proof fn lemma_prefix_push_valid(prefix: Seq<BallisticPoint>, prefix1: Seq<BallisticPoint>, p: BallisticPoint, r: int)
    requires
        prefix1.len() == prefix.len() + 1,
        prefix1.drop_last() == prefix,
        prefix1.last() == p,
        valid_point(p),
    ensures
        p.range_m == r ==> last_valid_elev(prefix1, r) == p.elev_mil,
        p.range_m != r ==> last_valid_elev(prefix1, r) == last_valid_elev(prefix, r),
        has_valid_range(prefix1, r) == (has_valid_range(prefix, r) || p.range_m == r),
{
    if has_valid_range(prefix, r) {
        let k = choose|k: int| 0 <= k < prefix.len() && valid_point(#[trigger] prefix[k]) && prefix[k].range_m == r;
        assert(prefix1[k] == prefix[k]);
        assert(has_valid_range(prefix1, r));
    }
    if p.range_m == r {
        assert(prefix1[prefix1.len() - 1] == p);
        assert(has_valid_range(prefix1, r));
    }
    if has_valid_range(prefix1, r) && p.range_m != r {
        let k = choose|k: int|
            0 <= k < prefix1.len() && valid_point(#[trigger] prefix1[k]) && prefix1[k].range_m == r;
        assert(k < prefix.len());
        assert(prefix[k] == prefix1[k]);
        assert(has_valid_range(prefix, r));
    }
}

/// After replacing the entry whose range equals the new sample's range, the
/// sorted output records the extended prefix.
proof fn lemma_content_after_extend(
    before: Seq<BallisticPoint>,
    after: Seq<BallisticPoint>,
    prefix: Seq<BallisticPoint>,
    prefix1: Seq<BallisticPoint>,
    p: BallisticPoint,
    j: int,
)
    requires
        prefix1.len() == prefix.len() + 1,
        prefix1.drop_last() == prefix,
        prefix1.last() == p,
        valid_point(p),
        0 <= j < before.len(),
        after == before.update(j, p),
        before[j].range_m == p.range_m,
        forall|i1: int, i2: int|
            0 <= i1 < i2 < before.len() ==> (#[trigger] before[i1]).range_m < (
            #[trigger] before[i2]).range_m,
        forall|i: int| 0 <= i < before.len() ==> valid_point(#[trigger] before[i]),
        forall|i: int|
            0 <= i < before.len() ==> has_valid_range(prefix, (#[trigger] before[i]).range_m as int)
                && before[i].elev_mil == last_valid_elev(prefix, before[i].range_m as int),
        forall|k: int|
            0 <= k < prefix.len() && valid_point(#[trigger] prefix[k]) ==> has_valid_range(
                before,
                prefix[k].range_m as int,
            ),
    ensures
        forall|i1: int, i2: int|
            0 <= i1 < i2 < after.len() ==> (#[trigger] after[i1]).range_m < (
            #[trigger] after[i2]).range_m,
        forall|i: int| 0 <= i < after.len() ==> valid_point(#[trigger] after[i]),
        forall|i: int|
            0 <= i < after.len() ==> has_valid_range(prefix1, (#[trigger] after[i]).range_m as int)
                && after[i].elev_mil == last_valid_elev(prefix1, after[i].range_m as int),
        forall|k: int|
            0 <= k < prefix1.len() && valid_point(#[trigger] prefix1[k]) ==> has_valid_range(
                after,
                prefix1[k].range_m as int,
            ),
{
    assert forall|i1: int, i2: int| 0 <= i1 < i2 < after.len() implies (#[trigger] after[i1]).range_m < (
    #[trigger] after[i2]).range_m by {
        assert(after[i1].range_m == before[i1].range_m);
        assert(after[i2].range_m == before[i2].range_m);
    }
    assert forall|i: int| 0 <= i < after.len() implies has_valid_range(
        prefix1,
        (#[trigger] after[i]).range_m as int,
    ) && after[i].elev_mil == last_valid_elev(prefix1, after[i].range_m as int) by {
        lemma_prefix_push_valid(prefix, prefix1, p, after[i].range_m as int);
        if i != j {
            assert(after[i] == before[i]);
            assert(before[i].range_m != p.range_m);
        }
    }
    assert forall|k: int| 0 <= k < prefix1.len() && valid_point(#[trigger] prefix1[k]) implies
        has_valid_range(after, prefix1[k].range_m as int) by {
        let r = prefix1[k].range_m as int;
        if k < prefix.len() {
            assert(prefix1[k] == prefix[k]);
            let i = choose|i: int|
                0 <= i < before.len() && valid_point(#[trigger] before[i]) && before[i].range_m == r;
            assert(after[i].range_m == r);
            assert(valid_point(after[i]));
        } else {
            assert(prefix1[k] == p);
            assert(after[j].range_m == r);
        }
    }
}

/// After inserting the new sample at its sorted position, the output records
/// the extended prefix.
proof fn lemma_content_after_insert(
    before: Seq<BallisticPoint>,
    after: Seq<BallisticPoint>,
    prefix: Seq<BallisticPoint>,
    prefix1: Seq<BallisticPoint>,
    p: BallisticPoint,
    j: int,
)
    requires
        prefix1.len() == prefix.len() + 1,
        prefix1.drop_last() == prefix,
        prefix1.last() == p,
        valid_point(p),
        0 <= j <= before.len(),
        after == before.insert(j, p),
        forall|i: int| 0 <= i < j ==> (#[trigger] before[i]).range_m < p.range_m,
        j < before.len() ==> p.range_m < before[j].range_m,
        forall|i1: int, i2: int|
            0 <= i1 < i2 < before.len() ==> (#[trigger] before[i1]).range_m < (
            #[trigger] before[i2]).range_m,
        forall|i: int| 0 <= i < before.len() ==> valid_point(#[trigger] before[i]),
        forall|i: int|
            0 <= i < before.len() ==> has_valid_range(prefix, (#[trigger] before[i]).range_m as int)
                && before[i].elev_mil == last_valid_elev(prefix, before[i].range_m as int),
        forall|k: int|
            0 <= k < prefix.len() && valid_point(#[trigger] prefix[k]) ==> has_valid_range(
                before,
                prefix[k].range_m as int,
            ),
    ensures
        forall|i1: int, i2: int|
            0 <= i1 < i2 < after.len() ==> (#[trigger] after[i1]).range_m < (
            #[trigger] after[i2]).range_m,
        forall|i: int| 0 <= i < after.len() ==> valid_point(#[trigger] after[i]),
        forall|i: int|
            0 <= i < after.len() ==> has_valid_range(prefix1, (#[trigger] after[i]).range_m as int)
                && after[i].elev_mil == last_valid_elev(prefix1, after[i].range_m as int),
        forall|k: int|
            0 <= k < prefix1.len() && valid_point(#[trigger] prefix1[k]) ==> has_valid_range(
                after,
                prefix1[k].range_m as int,
            ),
{
    assert(after.len() == before.len() + 1);
    assert forall|i: int| 0 <= i < after.len() implies #[trigger] after[i] == (if i < j {
        before[i]
    } else if i == j {
        p
    } else {
        before[i - 1]
    }) by {
    }
    assert forall|i1: int, i2: int| 0 <= i1 < i2 < after.len() implies (#[trigger] after[i1]).range_m < (
    #[trigger] after[i2]).range_m by {
        if i1 < j && i2 > j {
            assert(before[i1].range_m < p.range_m);
            assert(p.range_m < before[i2 - 1].range_m || p.range_m == before[i2 - 1].range_m || p.range_m > before[i2 - 1].range_m);
            if j < before.len() {
                if i2 - 1 > j {
                    assert(before[j].range_m < before[i2 - 1].range_m);
                }
            }
        }
        if i1 == j && i2 > j {
            if j < before.len() {
                if i2 - 1 > j {
                    assert(before[j].range_m < before[i2 - 1].range_m);
                }
            }
        }
    }
    assert forall|i: int| 0 <= i < after.len() implies has_valid_range(
        prefix1,
        (#[trigger] after[i]).range_m as int,
    ) && after[i].elev_mil == last_valid_elev(prefix1, after[i].range_m as int) by {
        lemma_prefix_push_valid(prefix, prefix1, p, after[i].range_m as int);
        if i != j {
            let b = if i < j {
                before[i]
            } else {
                before[i - 1]
            };
            assert(after[i] == b);
            if b.range_m == p.range_m {
                if i < j {
                    assert(before[i].range_m < p.range_m);
                } else {
                    if j < before.len() {
                        if i - 1 > j {
                            assert(before[j].range_m < before[i - 1].range_m);
                        }
                        assert(p.range_m < before[i - 1].range_m);
                    }
                }
            }
            assert(b.range_m != p.range_m);
        }
    }
    assert forall|k: int| 0 <= k < prefix1.len() && valid_point(#[trigger] prefix1[k]) implies
        has_valid_range(after, prefix1[k].range_m as int) by {
        let r = prefix1[k].range_m as int;
        if k < prefix.len() {
            assert(prefix1[k] == prefix[k]);
            let i = choose|i: int|
                0 <= i < before.len() && valid_point(#[trigger] before[i]) && before[i].range_m == r;
            let i2 = if i < j {
                i
            } else {
                i + 1
            };
            assert(after[i2] == before[i]);
            assert(valid_point(after[i2]) && after[i2].range_m == r);
        } else {
            assert(prefix1[k] == p);
            assert(after[j] == p);
        }
    }
}

} // verus!
