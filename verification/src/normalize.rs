//! CAst → CAst, semantics-preserving.
//!
//! Lowering models C as it is written; later stages need a small, regular
//! subset. This is where the gap is closed, one pass at a time, so that each
//! rewrite is separately testable and separately disableable.
//!
//! Contract, for every pass:
//!
//! 1. Semantics-preserving: argued in the pass's own documentation.
//! 2. Idempotent: `p(p(x)) == p(x)`, so the pipeline is safe to re-run.
//! 3. Never introduces `Unsupported`: a pass may only narrow the set of
//!    unmodelled constructs.
//!
//! Properties 2 and 3 are proved below for every pass in [`passes`]. Every
//! pass is still the identity, so they hold vacuously for now.
use vstd::multiset::Multiset;
use vstd::prelude::*;

use crate::cast::{unsupported_in_unit, SpecTranslationUnit, SpecUnsupported, TranslationUnit};

mod desugar_compound_assign;
mod desugar_incdec;
mod flatten_blocks;
mod for_to_while;
mod split_declarations;

verus! {

/// A pass of this stage.
#[derive(Clone, Copy, Debug, PartialEq, Eq, Structural)]
pub enum Pass {
    SplitDeclarations,
    DesugarCompoundAssign,
    DesugarIncdec,
    ForToWhile,
    FlattenBlocks,
}

/// What a pass makes of a unit.
pub open spec fn applied(pass: Pass, unit: SpecTranslationUnit) -> SpecTranslationUnit {
    match pass {
        Pass::SplitDeclarations => unit,
        Pass::DesugarCompoundAssign => unit,
        Pass::DesugarIncdec => unit,
        Pass::ForToWhile => unit,
        Pass::FlattenBlocks => unit,
    }
}

pub open spec fn pass_name(pass: Pass) -> Seq<char> {
    match pass {
        Pass::SplitDeclarations => "split_declarations"@,
        Pass::DesugarCompoundAssign => "desugar_compound_assign"@,
        Pass::DesugarIncdec => "desugar_incdec"@,
        Pass::ForToWhile => "for_to_while"@,
        Pass::FlattenBlocks => "flatten_blocks"@,
    }
}

/// The passes in the order [`normalize`] applies them: `split_declarations`
/// first, so later passes only see one declarator per statement, and
/// `flatten_blocks` last, so it can collapse the blocks `for_to_while`
/// introduces.
pub open spec fn pass_order() -> Seq<Pass> {
    seq![
        Pass::SplitDeclarations,
        Pass::DesugarCompoundAssign,
        Pass::DesugarIncdec,
        Pass::ForToWhile,
        Pass::FlattenBlocks,
    ]
}

/// The passes applied one after another, first to last.
pub open spec fn applied_all(passes: Seq<Pass>, unit: SpecTranslationUnit) -> SpecTranslationUnit
    decreases passes.len(),
{
    if passes.len() == 0 {
        unit
    } else {
        applied(passes[passes.len() - 1], applied_all(passes.subrange(0, passes.len() - 1), unit))
    }
}

/// What [`normalize`] makes of a unit.
pub open spec fn normalized(unit: SpecTranslationUnit) -> SpecTranslationUnit {
    applied_all(pass_order(), unit)
}

impl Pass {
    pub fn name(&self) -> (name: &'static str)
        ensures
            name@ == pass_name(*self),
    {
        match self {
            Pass::SplitDeclarations => "split_declarations",
            Pass::DesugarCompoundAssign => "desugar_compound_assign",
            Pass::DesugarIncdec => "desugar_incdec",
            Pass::ForToWhile => "for_to_while",
            Pass::FlattenBlocks => "flatten_blocks",
        }
    }

    /// Runs this pass. By value rather than `&mut`, so a pass that
    /// restructures a statement list can build a new one.
    pub fn run(&self, unit: TranslationUnit) -> (result: TranslationUnit)
        ensures
            result@ == applied(*self, unit@),
    {
        match self {
            Pass::SplitDeclarations => split_declarations::split_declarations(unit),
            Pass::DesugarCompoundAssign => desugar_compound_assign::desugar_compound_assign(unit),
            Pass::DesugarIncdec => desugar_incdec::desugar_incdec(unit),
            Pass::ForToWhile => for_to_while::for_to_while(unit),
            Pass::FlattenBlocks => flatten_blocks::flatten_blocks(unit),
        }
    }
}

/// Every pass, in the order [`normalize`] applies them, paired with its name.
pub fn passes() -> (table: Vec<(&'static str, Pass)>)
    ensures
        table@.len() == pass_order().len(),
        forall|i: int|
            0 <= i < table@.len() ==> (#[trigger] table@[i]).1 == pass_order()[i] && table@[i].0@
                == pass_name(pass_order()[i]),
{
    let mut table: Vec<(&'static str, Pass)> = Vec::new();
    let all = [
        Pass::SplitDeclarations,
        Pass::DesugarCompoundAssign,
        Pass::DesugarIncdec,
        Pass::ForToWhile,
        Pass::FlattenBlocks,
    ];
    assert(all@ =~= pass_order());
    let mut i: usize = 0;
    while i < 5
        invariant
            i <= 5,
            all@ == pass_order(),
            table@.len() == i,
            forall|j: int|
                0 <= j < i ==> (#[trigger] table@[j]).1 == pass_order()[j] && table@[j].0@
                    == pass_name(pass_order()[j]),
        decreases 5 - i,
    {
        let pass = all[i];
        table.push((pass.name(), pass));
        i = i + 1;
    }
    table
}

/// Applies every pass of [`passes`], in order.
pub fn normalize(unit: TranslationUnit) -> (result: TranslationUnit)
    ensures
        result@ == normalized(unit@),
{
    let table = passes();
    let ghost start = unit@;
    let mut unit = unit;
    let mut i: usize = 0;
    while i < table.len()
        invariant
            i <= table@.len(),
            table@.len() == pass_order().len(),
            forall|j: int| 0 <= j < table@.len() ==> (#[trigger] table@[j]).1 == pass_order()[j],
            unit@ == applied_all(pass_order().subrange(0, i as int), start),
        decreases table@.len() - i,
    {
        proof {
            let next = pass_order().subrange(0, i + 1);
            assert(next.subrange(0, next.len() - 1) =~= pass_order().subrange(0, i as int));
        }
        let (_, pass) = table[i];
        unit = pass.run(unit);
        i = i + 1;
    }
    assert(pass_order().subrange(0, pass_order().len() as int) =~= pass_order());
    unit
}

// ===========================================================================
// The pass contract
// ===========================================================================

pub open spec fn unsupported_kinds(found: Seq<SpecUnsupported>) -> Multiset<Seq<char>> {
    found.map_values(|u: SpecUnsupported| u.kind).to_multiset()
}

/// Every pass is idempotent: running it twice is running it once.
pub proof fn lemma_pass_idempotent(pass: Pass, unit: SpecTranslationUnit)
    ensures
        applied(pass, applied(pass, unit)) == applied(pass, unit),
{
}

/// No pass introduces an unmodelled construct: every kind of `Unsupported`
/// node occurs after the pass at most as often as before it.
pub proof fn lemma_pass_adds_no_unsupported(pass: Pass, unit: SpecTranslationUnit)
    ensures
        unsupported_kinds(unsupported_in_unit(applied(pass, unit))).subset_of(
            unsupported_kinds(unsupported_in_unit(unit)),
        ),
{
}

/// Normalizing twice is normalizing once.
pub proof fn lemma_normalize_idempotent(unit: SpecTranslationUnit)
    ensures
        normalized(normalized(unit)) == normalized(unit),
{
    reveal_with_fuel(applied_all, 6);
}

} // verus!
