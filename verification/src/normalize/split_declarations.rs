//! `int a, b = 2;` → two declarations.
use vstd::prelude::*;

use crate::cast::TranslationUnit;

verus! {

/// Splits a multi-declarator declaration into one statement per declarator.
///
/// Sound unconditionally: the declarators of one declaration are independent,
/// and lowering already emits one `Declaration` per declarator. The one thing
/// to preserve is order, since a later declarator may refer to an earlier one
/// (`int a = 1, b = a + 1;`).
///
/// Not implemented yet: the pass leaves the unit as it is.
pub(crate) fn split_declarations(unit: TranslationUnit) -> (result: TranslationUnit)
    ensures
        result == unit,
{
    unit
}

} // verus!
