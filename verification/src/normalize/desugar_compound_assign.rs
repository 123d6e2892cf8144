//! `a += b` → `a = a + b`.
use vstd::prelude::*;

use crate::cast::TranslationUnit;

verus! {

/// Rewrites compound assignment into plain assignment.
///
/// This duplicates the left-hand side: `arr[i++] += 1` evaluates the index
/// once in C and twice after a naive desugaring. The pass must be restricted
/// to side-effect-free lvalues; declining to rewrite is always sound.
///
/// Compound assignment currently lowers to `Unsupported`, so there is nothing
/// here to rewrite yet: the pass leaves the unit as it is.
pub(crate) fn desugar_compound_assign(unit: TranslationUnit) -> (result: TranslationUnit)
    ensures
        result == unit,
{
    unit
}

} // verus!
