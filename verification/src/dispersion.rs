//! Dispersion data and the altitude-dependent dispersion adjustment: a base
//! scatter radius per projectile type and precision ring, grown by five
//! percent per meter the weapon stands above the target and shrunk by one
//! percent per meter it stands below.

use vstd::prelude::*;
use std::collections::BTreeMap;
use crate::ammo::AmmoKind;
use crate::geometry::in_unit_range;
use crate::numeric::UNIT_LIMIT;
use crate::numeric::mul_div_trunc;
use crate::numeric::mul_div_i64;
use crate::table::Ring;
use vstd::arithmetic::div_mod::lemma_div_pos_is_pos;
use vstd::arithmetic::div_mod::lemma_div_is_ordered;
use vstd::arithmetic::div_mod::lemma_div_multiples_vanish;

verus! {

/// The table key that stands for one projectile type and precision ring.
pub open spec fn slot_spec(kind: AmmoKind, ring: int) -> int {
    kind.index_spec() * 256 + ring
}

/// Encodes a projectile type and precision ring as a single table key.
pub fn slot_of(kind: AmmoKind, ring: Ring) -> (r: u64)
    ensures
        r == slot_spec(kind, ring as int),
        r < 1024,
{
    (kind.index() as u64) * 256 + (ring as u64)
}

/// Base dispersion radii in thousandths of a meter, keyed by projectile type
/// and precision ring through [`slot_of`]. Absence of a key means no
/// published figure.
pub type DispersionTable = BTreeMap<u64, i64>;

/// The adjustment factor, in thousandths: for a weapon `delta` above the
/// target (in thousandths of a meter), one thousand plus a twentieth of
/// `delta` (five percent per meter); below the target, one thousand less a
/// hundredth of the drop (one percent per meter). No floor is applied: a
/// deep enough drop can push the factor to or below zero.
pub open spec fn adjust_factor_milli(delta: int) -> int {
    if delta >= 0 {
        1000 + delta / 20
    } else {
        1000 - (-delta) / 100
    }
}

/// The adjusted dispersion radius: the base radius scaled by the altitude
/// adjustment factor, in thousandths of a meter.
pub open spec fn adjust_spec(base: int, mortar_elev: int, target_elev: int) -> int {
    mul_div_trunc(base, adjust_factor_milli(mortar_elev - target_elev), 1000)
}

/// Adjusts a base dispersion radius for the altitude difference between
/// weapon and target: five percent growth per meter of height advantage,
/// one percent shrinkage per meter of height disadvantage.
pub fn calculate_dispersion(base: i64, mortar_elev: i64, target_elev: i64) -> (r: i64)
    requires
        in_unit_range(base as int),
        in_unit_range(mortar_elev as int),
        in_unit_range(target_elev as int),
    ensures
        r == adjust_spec(base as int, mortar_elev as int, target_elev as int),
{
    let factor: i64 = if mortar_elev >= target_elev {
        let d = (mortar_elev - target_elev) as u64;
        proof {
            lemma_div_pos_is_pos(d as int, 20);
            lemma_div_is_ordered(d as int, 2_000_000_000, 20);
            lemma_div_multiples_vanish(100_000_000, 20);
        }
        1000 + (d / 20) as i64
    } else {
        let d = (target_elev - mortar_elev) as u64;
        proof {
            lemma_div_pos_is_pos(d as int, 100);
            lemma_div_is_ordered(d as int, 2_000_000_000, 100);
            lemma_div_multiples_vanish(20_000_000, 100);
        }
        1000 - (d / 100) as i64
    };
    proof {
        assert((base as int) * (factor as int) < 0x4000_0000_0000_0000 && -0x4000_0000_0000_0000
            < (base as int) * (factor as int)) by (nonlinear_arith)
            requires
                -1_000_000_000 <= base <= 1_000_000_000,
                -20_000_000 <= factor <= 101_000_000,
        {}
    }
    mul_div_i64(base, factor, 1000)
}

/// Holds for the decimal digit characters.
pub open spec fn is_digit(c: char) -> bool {
    '0' <= c && c <= '9'
}

/// The numeric value of a decimal digit character.
pub open spec fn digit_val(c: char) -> int {
    c as int - 48
}

/// `s` with every trailing `R` removed.
pub open spec fn strip_trailing_r(s: Seq<char>) -> Seq<char>
    decreases s.len(),
{
    if s.len() > 0 && s.last() == 'R' {
        strip_trailing_r(s.drop_last())
    } else {
        s
    }
}

/// Holds when every character of `s` is a decimal digit.
pub open spec fn all_digits(s: Seq<char>) -> bool {
    forall|i: int| 0 <= i < s.len() ==> is_digit(#[trigger] s[i])
}

/// The number written by the digit string `s`, most significant digit first.
pub open spec fn digits_val(s: Seq<char>) -> int
    decreases s.len(),
{
    if s.len() == 0 {
        0
    } else {
        digits_val(s.drop_last()) * 10 + digit_val(s.last())
    }
}

/// What parsing a ring key yields: the trailing `R` markers are stripped,
/// and the remaining digits are read as a ring index; anything that is not a
/// plain digit string, or reads above `255`, falls back to ring `0`.
pub open spec fn parse_ring_spec(s: Seq<char>) -> int {
    let t = strip_trailing_r(s);
    if t.len() > 0 && all_digits(t) && digits_val(t) <= 255 {
        digits_val(t)
    } else {
        0
    }
}

/// A digit string's value only grows as digits are appended.
proof fn lemma_digits_val_extend(t: Seq<char>, k: int)
    requires
        all_digits(t),
        0 <= k <= t.len(),
    ensures
        0 <= digits_val(t.subrange(0, k)) <= digits_val(t.subrange(0, t.len() as int)),
    decreases t.len() - k,
{
    if k == t.len() {
        lemma_digits_val_nonneg(t.subrange(0, k));
    } else {
        lemma_digits_val_extend(t, k + 1);
        let a = t.subrange(0, k);
        let b = t.subrange(0, k + 1);
        assert(b.drop_last() =~= a);
        assert(is_digit(t[k]));
        lemma_digits_val_nonneg(a);
    }
}

/// A digit string's value is nonnegative.
proof fn lemma_digits_val_nonneg(t: Seq<char>)
    requires
        all_digits(t),
    ensures
        digits_val(t) >= 0,
    decreases t.len(),
{
    if t.len() > 0 {
        assert(all_digits(t.drop_last())) by {
            assert(forall|i: int|
                0 <= i < t.len() - 1 ==> #[trigger] t.drop_last()[i] == t[i]);
        }
        lemma_digits_val_nonneg(t.drop_last());
        assert(is_digit(t.last()));
    }
}

/// Parses a ring key such as a digit string with a trailing `R` marker:
/// strips the trailing markers, reads the digits, and falls back to ring `0`
/// when what remains is not a plain digit string or reads above `255`.
pub fn parse_ring_key(s: &str) -> (r: Ring)
    ensures
        r == parse_ring_spec(s@),
{
    let n = s.unicode_len();
    let mut e = n;
    proof {
        assert(s@.subrange(0, n as int) =~= s@);
    }
    while e > 0 && s.get_char(e - 1) == 'R'
        invariant
            0 <= e <= n,
            n == s@.len(),
            strip_trailing_r(s@.subrange(0, e as int)) == strip_trailing_r(s@),
        decreases e,
    {
        proof {
            let cur = s@.subrange(0, e as int);
            assert(cur.last() == s@[e as int - 1]);
            assert(cur.drop_last() =~= s@.subrange(0, e as int - 1));
        }
        e = e - 1;
    }
    let ghost t = strip_trailing_r(s@);
    proof {
        assert(s@.subrange(0, e as int).len() == e as int);
        if e > 0 {
            assert(s@.subrange(0, e as int).last() == s@[e as int - 1]);
        }
        assert(t == s@.subrange(0, e as int));
    }
    if e == 0 {
        return 0;
    }
    let mut acc: u64 = 0;
    let mut k: usize = 0;
    while k < e
        invariant
            0 <= k <= e,
            e <= n,
            n == s@.len(),
            t == strip_trailing_r(s@),
            t == s@.subrange(0, e as int),
            t.len() == e as int,
            0 < e,
            all_digits(t.subrange(0, k as int)),
            acc == digits_val(t.subrange(0, k as int)),
            acc <= 255,
        decreases e - k,
    {
        let c = s.get_char(k);
        let cu = c as u32;
        proof {
            assert(t[k as int] == s@[k as int]);
        }
        if cu < 48 || cu > 57 {
            proof {
                assert(!is_digit(t[k as int]));
                assert(!all_digits(t));
            }
            return 0;
        }
        proof {
            let a = t.subrange(0, k as int);
            let b = t.subrange(0, k as int + 1);
            assert(b.drop_last() =~= a);
            assert(b.last() == t[k as int]);
            assert(is_digit(t[k as int]));
            assert(forall|i: int| 0 <= i < b.len() ==> #[trigger] b[i] == t[i]);
        }
        acc = acc * 10 + ((cu - 48) as u64);
        k = k + 1;
        if acc > 255 {
            proof {
                if all_digits(t) {
                    lemma_digits_val_extend(t, k as int);
                    assert(t.subrange(0, t.len() as int) =~= t);
                }
            }
            return 0;
        }
    }
    proof {
        assert(t.subrange(0, k as int) =~= t);
    }
    acc as u8
}

/// One row of the raw dispersion source: a projectile name, a ring key, and
/// the base dispersion radius in thousandths of a meter.
#[derive(Clone, Debug)]
pub struct DispersionEntry {
    /// The projectile name as written in the source.
    pub ammo: String,
    /// The ring key as written in the source, such as a digit string with a
    /// trailing `R` marker.
    pub ring_key: String,
    /// The base dispersion radius in thousandths of a meter.
    pub radius_m: i64,
}

/// Holds when the entry writes a radius for the given table key: its
/// projectile name parses, its ring key and that projectile encode to the
/// key, and its radius is inside the accepted machine range.
pub open spec fn entry_applies(e: DispersionEntry, slot: int) -> bool {
    &&& AmmoKind::from_str_spec(e.ammo@) is Some
    &&& slot_spec(AmmoKind::from_str_spec(e.ammo@)->Some_0, parse_ring_spec(e.ring_key@)) == slot
    &&& in_unit_range(e.radius_m as int)
}

/// The radius that the entry sequence leaves at the given table key: the
/// radius of the last entry that writes the key, or nothing when no entry
/// does.
pub open spec fn disp_value(entries: Seq<DispersionEntry>, slot: int) -> Option<int>
    decreases entries.len(),
{
    if entries.len() == 0 {
        None
    } else if entry_applies(entries.last(), slot) {
        Some(entries.last().radius_m as int)
    } else {
        disp_value(entries.drop_last(), slot)
    }
}

/// Builds the dispersion table from raw entries, in order: entries with an
/// unknown projectile name or a radius outside the accepted machine range
/// are skipped, and of several entries for one key the last wins.
pub fn build_dispersion_table(entries: &Vec<DispersionEntry>) -> (r: DispersionTable)
    ensures
        forall|slot: u64|
            match #[trigger] disp_value(entries@, slot as int) {
                Some(v) => r@.contains_key(slot) && r@[slot] == v,
                None => !r@.contains_key(slot),
            },
        forall|slot: u64| r@.contains_key(slot) ==> in_unit_range(r@[slot] as int),
{
    let mut m: DispersionTable = BTreeMap::new();
    let n = entries.len();
    let mut idx: usize = 0;
    while idx < n
        invariant
            n == entries@.len(),
            0 <= idx <= n,
            forall|slot: u64|
                match #[trigger] disp_value(entries@.subrange(0, idx as int), slot as int) {
                    Some(v) => m@.contains_key(slot) && m@[slot] == v,
                    None => !m@.contains_key(slot),
                },
            forall|slot: u64| m@.contains_key(slot) ==> in_unit_range(m@[slot] as int),
        decreases n - idx,
    {
        let e = &entries[idx];
        let ghost prefix = entries@.subrange(0, idx as int);
        let ghost prefix1 = entries@.subrange(0, idx as int + 1);
        proof {
            assert(prefix1.drop_last() =~= prefix);
            assert(prefix1.last() == entries@[idx as int]);
        }
        let parsed = AmmoKind::from_str(e.ammo.as_str());
        match parsed {
            Some(kind) => {
                let ring = parse_ring_key(e.ring_key.as_str());
                let valid = -UNIT_LIMIT <= e.radius_m && e.radius_m <= UNIT_LIMIT;
                if valid {
                    let key = slot_of(kind, ring);
                    let ghost before = m@;
                    m.insert(key, e.radius_m);
                    proof {
                        assert(entry_applies(entries@[idx as int], key as int));
                        assert forall|slot: u64|
                            match #[trigger] disp_value(prefix1, slot as int) {
                                Some(v) => m@.contains_key(slot) && m@[slot] == v,
                                None => !m@.contains_key(slot),
                            } by {
                            if slot == key {
                                assert(disp_value(prefix1, slot as int)
                                    == Some(entries@[idx as int].radius_m as int));
                                assert(m@ == before.insert(key, e.radius_m));
                                assert(m@.contains_key(slot));
                            } else {
                                assert(!entry_applies(entries@[idx as int], slot as int));
                                assert(disp_value(prefix1, slot as int) == disp_value(
                                    prefix,
                                    slot as int,
                                ));
                                assert(m@.contains_key(slot) == before.contains_key(slot));
                                if before.contains_key(slot) {
                                    assert(m@[slot] == before[slot]);
                                }
                            }
                        }
                    }
                } else {
                    proof {
                        assert forall|slot: u64|
                            #[trigger] disp_value(prefix1, slot as int) == disp_value(
                                prefix,
                                slot as int,
                            ) by {
                            assert(!entry_applies(entries@[idx as int], slot as int));
                        }
                    }
                }
            },
            None => {
                proof {
                    assert forall|slot: u64|
                        #[trigger] disp_value(prefix1, slot as int) == disp_value(
                            prefix,
                            slot as int,
                        ) by {
                        assert(!entry_applies(entries@[idx as int], slot as int));
                    }
                }
            },
        }
        idx = idx + 1;
    }
    proof {
        assert(entries@.subrange(0, n as int) =~= entries@);
    }
    m
}

} // verus!
