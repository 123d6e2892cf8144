//! `i++` → `i = i + 1`.
use vstd::prelude::*;

use crate::cast::TranslationUnit;

verus! {

/// Rewrites increment and decrement into assignment.
///
/// Two traps: the left-hand side is duplicated, as in compound assignment;
/// and in value position `i = j++` is not `i = j = j + 1`, since the postfix
/// form yields the old value. Statement position is the safe subset.
///
/// Not implemented yet: the pass leaves the unit as it is.
pub(crate) fn desugar_incdec(unit: TranslationUnit) -> (result: TranslationUnit)
    ensures
        result == unit,
{
    unit
}

} // verus!
