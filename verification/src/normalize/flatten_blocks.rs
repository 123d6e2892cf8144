//! Collapses redundant nested compounds.
use vstd::prelude::*;

use crate::cast::TranslationUnit;

verus! {

/// Merges a nested block into its parent when doing so cannot change meaning.
///
/// Two sibling blocks that each declare `x` declare two variables; flattening
/// them merges those into one, and shadowing changes which declaration a
/// later reference resolves to. The pass must decline such merges.
///
/// Not implemented yet: the pass leaves the unit as it is.
pub(crate) fn flatten_blocks(unit: TranslationUnit) -> (result: TranslationUnit)
    ensures
        result == unit,
{
    unit
}

} // verus!
