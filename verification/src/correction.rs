//! Miss correction: moves a target's estimated position opposite to an
//! observed landing deviation, and marks the corrected target by a name
//! suffix.

use vstd::prelude::*;
use crate::geometry::TargetPosition;
use crate::geometry::in_unit_range;
use vstd::string::StrSliceExecFns;
use vstd::string::StringExecFns;

verus! {

/// Holds when the name already carries the correction suffix: its last two
/// characters are an underscore and a capital `C`.
pub open spec fn has_correction_suffix(n: Seq<char>) -> bool {
    n.len() >= 2 && n[n.len() - 2] == '_' && n[n.len() - 1] == 'C'
}

/// The name of a corrected target: unchanged when it already carries the
/// correction suffix, otherwise the name with `_C` appended.
pub open spec fn corrected_name_spec(n: Seq<char>) -> Seq<char> {
    if has_correction_suffix(n) {
        n
    } else {
        n + "_C"@
    }
}

/// Corrects a target position by an observed landing deviation.
///
/// Sign convention: `vertical_m` is the shell's landing deviation north
/// (negative) or south (positive) of the target, `horizontal_m` west
/// (negative) or east (positive), both in thousandths of a meter. The
/// corrected position subtracts the deviation from the coordinates;
/// altitude and classification carry over unchanged. The corrected name
/// gains a `_C` suffix unless it already ends in `_C`, in which case the
/// name stays as it is.
pub fn apply_correction(target: &TargetPosition, vertical_m: i64, horizontal_m: i64) -> (r:
    TargetPosition)
    requires
        target.wf(),
        in_unit_range(vertical_m as int),
        in_unit_range(horizontal_m as int),
    ensures
        r.x == target.x - horizontal_m,
        r.y == target.y - vertical_m,
        r.elevation == target.elevation,
        r.target_type == target.target_type,
        r.name@ == corrected_name_spec(target.name@),
{
    let corrected_x = target.x - horizontal_m;
    let corrected_y = target.y - vertical_m;
    let name_len = target.name.as_str().unicode_len();
    let suffixed = name_len >= 2 && target.name.as_str().get_char(name_len - 2) == '_'
        && target.name.as_str().get_char(name_len - 1) == 'C';
    let corrected_name = if suffixed {
        target.name.clone()
    } else {
        target.name.clone().concat("_C")
    };
    TargetPosition {
        name: corrected_name,
        elevation: target.elevation,
        x: corrected_x,
        y: corrected_y,
        target_type: target.target_type,
    }
}

} // verus!
