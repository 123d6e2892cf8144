//! `for (init; cond; step) body` → `init; while (cond) { body; step }`.
use vstd::prelude::*;

use crate::cast::TranslationUnit;

verus! {

/// Rewrites `for` loops into `while` loops so later stages see one loop form.
///
/// The naive translation breaks `continue`, which in a `for` still runs the
/// step; and an omitted condition (`for (;;)`) means true, not false.
///
/// Not implemented yet: the pass leaves the unit as it is.
pub(crate) fn for_to_while(unit: TranslationUnit) -> (result: TranslationUnit)
    ensures
        result == unit,
{
    unit
}

} // verus!
