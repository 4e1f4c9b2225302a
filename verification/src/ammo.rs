//! The closed sets of projectile types and target classifications, with
//! their canonical display names, case-insensitive parsing, and the fixed
//! classification-to-projectile advisory mapping.

use vstd::prelude::*;

verus! {

/// The projectile types the weapon can fire.
///
/// `Practice` and `He` publish ballistic data for precision rings 0 through 4;
/// `Smoke` and `Flare` only for rings 1 through 4.
#[derive(Clone, Copy, Debug, PartialEq, Eq, Structural)]
pub enum AmmoKind {
    /// Training projectile.
    Practice,
    /// High-explosive projectile.
    He,
    /// Smoke-screen projectile.
    Smoke,
    /// Illumination projectile.
    Flare,
}

/// The tactical classification of a target.
#[derive(Clone, Copy, Debug, PartialEq, Eq, Structural)]
pub enum TargetType {
    /// Personnel in the open or dug in.
    Infanterie,
    /// Light, unarmored vehicles.
    Vehicule,
    /// Support position: marking, screening.
    Soutien,
}

/// Holds when `a` is `b` itself or the lower-case form of the upper-case
/// letter `b`; the canonical names are upper-case ASCII, so matching a name
/// character by character under this relation is a case-insensitive match.
pub open spec fn char_matches_upper(a: char, b: char) -> bool {
    a == b || ('A' <= b && b <= 'Z' && a as int == b as int + 32)
}

/// Case-insensitive equality of `s` against the upper-case ASCII name `t`.
pub open spec fn matches_name(s: Seq<char>, t: Seq<char>) -> bool {
    s.len() == t.len() && forall|i: int| 0 <= i < s.len() ==> char_matches_upper(s[i], #[trigger] t[i])
}

/// Compares `s` to the upper-case ASCII string `t`, ignoring the case of `s`.
fn eq_ignore_case(s: &str, t: &str) -> (r: bool)
    ensures
        r == matches_name(s@, t@),
{
    let n = s.unicode_len();
    if n != t.unicode_len() {
        return false;
    }
    let mut i: usize = 0;
    while i < n
        invariant
            0 <= i <= n,
            n == s@.len(),
            n == t@.len(),
            forall|j: int| 0 <= j < i ==> char_matches_upper(s@[j], #[trigger] t@[j]),
        decreases n - i,
    {
        let a = s.get_char(i);
        let b = t.get_char(i);
        let au = a as u32;
        let bu = b as u32;
        if !(au == bu || (65 <= bu && bu <= 90 && au == bu + 32)) {
            assert(!char_matches_upper(s@[i as int], t@[i as int]));
            return false;
        }
        i = i + 1;
    }
    true
}

impl AmmoKind {
    /// The canonical display name of this projectile type.
    pub open spec fn name_spec(self) -> Seq<char> {
        match self {
            AmmoKind::Practice => "PRACTICE"@,
            AmmoKind::He => "HE"@,
            AmmoKind::Smoke => "SMOKE"@,
            AmmoKind::Flare => "FLARE"@,
        }
    }

    /// The canonical display name of this projectile type.
    pub fn as_str(&self) -> (r: &'static str)
        ensures
            r@ == self.name_spec(),
    {
        match self {
            AmmoKind::Practice => "PRACTICE",
            AmmoKind::He => "HE",
            AmmoKind::Smoke => "SMOKE",
            AmmoKind::Flare => "FLARE",
        }
    }

    /// Every projectile type, in its fixed enumeration order.
    pub fn all() -> (r: Vec<AmmoKind>)
        ensures
            r@ == seq![AmmoKind::Practice, AmmoKind::He, AmmoKind::Smoke, AmmoKind::Flare],
    {
        let mut v: Vec<AmmoKind> = Vec::new();
        v.push(AmmoKind::Practice);
        v.push(AmmoKind::He);
        v.push(AmmoKind::Smoke);
        v.push(AmmoKind::Flare);
        assert(v@ =~= seq![AmmoKind::Practice, AmmoKind::He, AmmoKind::Smoke, AmmoKind::Flare]);
        v
    }

    /// What parsing a projectile name yields: the first projectile type
    /// whose canonical name matches, ignoring case; `None` when none does.
    pub open spec fn from_str_spec(s: Seq<char>) -> Option<AmmoKind> {
        if matches_name(s, AmmoKind::Practice.name_spec()) {
            Some(AmmoKind::Practice)
        } else if matches_name(s, AmmoKind::He.name_spec()) {
            Some(AmmoKind::He)
        } else if matches_name(s, AmmoKind::Smoke.name_spec()) {
            Some(AmmoKind::Smoke)
        } else if matches_name(s, AmmoKind::Flare.name_spec()) {
            Some(AmmoKind::Flare)
        } else {
            None
        }
    }

    /// Parses a projectile name, ignoring case. Returns the projectile type
    /// whose canonical name matches, and `None` when no name matches.
    pub fn from_str(s: &str) -> (r: Option<AmmoKind>)
        ensures
            r == AmmoKind::from_str_spec(s@),
    {
        if eq_ignore_case(s, "PRACTICE") {
            Some(AmmoKind::Practice)
        } else if eq_ignore_case(s, "HE") {
            Some(AmmoKind::He)
        } else if eq_ignore_case(s, "SMOKE") {
            Some(AmmoKind::Smoke)
        } else if eq_ignore_case(s, "FLARE") {
            Some(AmmoKind::Flare)
        } else {
            None
        }
    }

    /// Round trip: parsing a projectile type's own canonical name yields
    /// that projectile type again.
    pub proof fn lemma_name_roundtrip(k: AmmoKind)
        ensures
            AmmoKind::from_str_spec(k.name_spec()) == Some(k),
    {
        reveal_strlit("PRACTICE");
        reveal_strlit("HE");
        reveal_strlit("SMOKE");
        reveal_strlit("FLARE");
        let n = k.name_spec();
        assert forall|i: int| 0 <= i < n.len() implies char_matches_upper(n[i], #[trigger] n[i]) by {}
        assert(matches_name(n, n));
        if k == AmmoKind::Flare {
            if matches_name(n, AmmoKind::Smoke.name_spec()) {
                assert(char_matches_upper(n[0], AmmoKind::Smoke.name_spec()[0]));
                assert(false);
            }
        }
    }

    /// The position of this projectile type in the fixed enumeration order.
    pub open spec fn index_spec(self) -> int {
        match self {
            AmmoKind::Practice => 0,
            AmmoKind::He => 1,
            AmmoKind::Smoke => 2,
            AmmoKind::Flare => 3,
        }
    }

    /// The position of this projectile type in the fixed enumeration order.
    pub fn index(&self) -> (r: u8)
        ensures
            r == self.index_spec(),
            r < 4,
    {
        match self {
            AmmoKind::Practice => 0,
            AmmoKind::He => 1,
            AmmoKind::Smoke => 2,
            AmmoKind::Flare => 3,
        }
    }
}

impl TargetType {
    /// The canonical display name of this target classification.
    pub open spec fn name_spec(self) -> Seq<char> {
        match self {
            TargetType::Infanterie => "INFANTERIE"@,
            TargetType::Vehicule => "VEHICULE"@,
            TargetType::Soutien => "SOUTIEN"@,
        }
    }

    /// The short, three-letter form of the display name.
    pub open spec fn short_name_spec(self) -> Seq<char> {
        match self {
            TargetType::Infanterie => "INF"@,
            TargetType::Vehicule => "VEH"@,
            TargetType::Soutien => "SOU"@,
        }
    }

    /// The canonical display name of this target classification.
    pub fn as_str(&self) -> (r: &'static str)
        ensures
            r@ == self.name_spec(),
    {
        match self {
            TargetType::Infanterie => "INFANTERIE",
            TargetType::Vehicule => "VEHICULE",
            TargetType::Soutien => "SOUTIEN",
        }
    }

    /// Every target classification, in its fixed enumeration order.
    pub fn all() -> (r: Vec<TargetType>)
        ensures
            r@ == seq![TargetType::Infanterie, TargetType::Vehicule, TargetType::Soutien],
    {
        let mut v: Vec<TargetType> = Vec::new();
        v.push(TargetType::Infanterie);
        v.push(TargetType::Vehicule);
        v.push(TargetType::Soutien);
        assert(v@ =~= seq![TargetType::Infanterie, TargetType::Vehicule, TargetType::Soutien]);
        v
    }

    /// Holds when `s` names this classification: either the full name or the
    /// three-letter abbreviation, in any case.
    pub open spec fn named_by(self, s: Seq<char>) -> bool {
        matches_name(s, self.name_spec()) || matches_name(s, self.short_name_spec())
    }

    /// What parsing a classification name yields: the first classification
    /// named by the string (full or short form, ignoring case); `None` when
    /// none is.
    pub open spec fn from_str_spec(s: Seq<char>) -> Option<TargetType> {
        if TargetType::Infanterie.named_by(s) {
            Some(TargetType::Infanterie)
        } else if TargetType::Vehicule.named_by(s) {
            Some(TargetType::Vehicule)
        } else if TargetType::Soutien.named_by(s) {
            Some(TargetType::Soutien)
        } else {
            None
        }
    }

    /// Parses a target classification, ignoring case; the full names and the
    /// three-letter abbreviations are both accepted. Returns `None` when no
    /// name matches.
    pub fn from_str(s: &str) -> (r: Option<TargetType>)
        ensures
            r == TargetType::from_str_spec(s@),
    {
        if eq_ignore_case(s, "INFANTERIE") || eq_ignore_case(s, "INF") {
            Some(TargetType::Infanterie)
        } else if eq_ignore_case(s, "VEHICULE") || eq_ignore_case(s, "VEH") {
            Some(TargetType::Vehicule)
        } else if eq_ignore_case(s, "SOUTIEN") || eq_ignore_case(s, "SOU") {
            Some(TargetType::Soutien)
        } else {
            None
        }
    }

    /// Round trip: parsing a classification's own canonical name yields
    /// that classification again.
    pub proof fn lemma_name_roundtrip(t: TargetType)
        ensures
            TargetType::from_str_spec(t.name_spec()) == Some(t),
    {
        reveal_strlit("INFANTERIE");
        reveal_strlit("VEHICULE");
        reveal_strlit("SOUTIEN");
        reveal_strlit("INF");
        reveal_strlit("VEH");
        reveal_strlit("SOU");
        let n = t.name_spec();
        assert forall|i: int| 0 <= i < n.len() implies char_matches_upper(n[i], #[trigger] n[i]) by {}
        assert(matches_name(n, n));
    }

    /// The fixed advisory mapping from target classification to the
    /// recommended projectile type.
    pub open spec fn suggested_ammo_spec(self) -> AmmoKind {
        match self {
            TargetType::Infanterie => AmmoKind::He,
            TargetType::Vehicule => AmmoKind::He,
            TargetType::Soutien => AmmoKind::Smoke,
        }
    }

    /// The recommended projectile type for engaging this classification:
    /// high explosive against personnel and vehicles, smoke for support work.
    pub fn suggested_ammo(&self) -> (r: AmmoKind)
        ensures
            r == self.suggested_ammo_spec(),
    {
        match self {
            TargetType::Infanterie => AmmoKind::He,
            TargetType::Vehicule => AmmoKind::He,
            TargetType::Soutien => AmmoKind::Smoke,
        }
    }
}

} // verus!
