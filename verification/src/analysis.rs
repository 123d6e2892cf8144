//! The e-class analysis of the C subset: constant folding, plus the set of
//! source spans each e-class was seen at.
//!
//! The e-graph calls an analysis at three points: `make` when a node is added,
//! `merge` when two e-classes are united, and `modify` after either. Each of
//! them is decided here, on plain values; the e-graph itself, which hands the
//! children's data in and takes the results back, stays with its caller.
use vstd::prelude::*;

use slotted_egraphs::SmallHashSet;

verus! {

/// The source spans an e-class has been seen at, each as its `(start, end)`
/// byte offsets, held in the e-graph crate's small sorted set.
#[verifier::external_body]
#[derive(Debug, PartialEq, Eq)]
pub struct SpanSet {
    set: SmallHashSet<(usize, usize)>,
}

/// The spans a [`SpanSet`] holds.
pub uninterp spec fn span_set_items(set: SpanSet) -> Set<(usize, usize)>;

impl Clone for SpanSet {
    /// A copy, by the set's own `Clone`, which copies its elements.
    #[verifier::external_body]
    fn clone(&self) -> (copy: Self)
        ensures
            span_set_items(copy) == span_set_items(*self),
    {
        SpanSet { set: self.set.clone() }
    }
}

/// An empty set, from `SmallHashSet::default()`, which starts the set with
/// no element.
#[verifier::external_body]
fn empty_span_set() -> (set: SpanSet)
    ensures
        span_set_items(set) == Set::<(usize, usize)>::empty(),
{
    SpanSet { set: SmallHashSet::default() }
}

/// The union of two sets, by `Extend::extend` of the e-graph crate's set,
/// which merges the sorted elements of both and keeps each value once.
#[verifier::external_body]
fn span_set_union(left: SpanSet, right: SpanSet) -> (set: SpanSet)
    ensures
        span_set_items(set) == span_set_items(left).union(span_set_items(right)),
{
    let mut set = left.set;
    set.extend(right.set);
    SpanSet { set }
}

/// What [`CAnalysis`] reads of an e-node: its operator, and the literal of a
/// `Num`. The children are not here; their folded constants are passed
/// beside it.
#[derive(Clone, Copy, Debug, PartialEq, Eq, Structural)]
pub enum NodeKind {
    Var,
    Num(i64),
    Add,
    Sub,
    Mul,
    Div,
    Eq,
}

/// The value a literal folds to: itself, where it fits in an `i32`.
pub open spec fn literal_constant(n: i64) -> Option<i32> {
    if i32::MIN <= n <= i32::MAX {
        Some(n as i32)
    } else {
        None
    }
}

/// The exact result of an arithmetic operator on two constants.
pub open spec fn arithmetic(kind: NodeKind, x: i32, y: i32) -> int {
    match kind {
        NodeKind::Add => x + y,
        NodeKind::Sub => x - y,
        NodeKind::Mul => x * y,
        _ => 0,
    }
}

pub open spec fn is_folded_operator(kind: NodeKind) -> bool {
    kind is Add || kind is Sub || kind is Mul
}

/// An operator node whose children are both constant folds without leaving
/// the `i32` range.
pub open spec fn fold_fits(kind: NodeKind, lhs: Option<i32>, rhs: Option<i32>) -> bool {
    is_folded_operator(kind) && lhs is Some && rhs is Some ==> i32::MIN <= arithmetic(
        kind,
        lhs->0,
        rhs->0,
    ) <= i32::MAX
}

/// The constant an e-node folds to, given the constants of its children:
/// a literal is its own value, `+`, `-` and `*` of two constants are their
/// result, and nothing else is a constant. Division is not folded.
pub open spec fn folded_constant(kind: NodeKind, lhs: Option<i32>, rhs: Option<i32>) -> Option<
    i32,
> {
    match kind {
        NodeKind::Num(n) => literal_constant(n),
        NodeKind::Add | NodeKind::Sub | NodeKind::Mul => {
            if lhs is Some && rhs is Some {
                Some(arithmetic(kind, lhs->0, rhs->0) as i32)
            } else {
                None
            }
        },
        _ => None,
    }
}

/// Two constants of e-classes being united agree, where both are known.
pub open spec fn constants_agree(left: Option<i32>, right: Option<i32>) -> bool {
    left is Some && right is Some ==> left == right
}

/// The constant of a united e-class: whichever side knows one.
pub open spec fn merged_constant(left: Option<i32>, right: Option<i32>) -> Option<i32> {
    if left is Some {
        left
    } else {
        right
    }
}

/// The literal `modify` adds to an e-class with a known constant, to be
/// united with it.
pub open spec fn literal_for(constant: Option<i32>) -> Option<i64> {
    match constant {
        Some(n) => Some(n as i64),
        None => None,
    }
}

/// Constant folding and span tracking, combined into one analysis.
#[derive(Clone, Copy, Debug, Default)]
pub struct CAnalysis;

impl CAnalysis {
    /// The data of a new e-node: its folded constant and no span.
    ///
    /// The children's constants are those the e-graph holds for the node's
    /// left and right child, `None` for a node without them. Arithmetic is in
    /// `i32` and must not overflow.
    pub fn make(kind: NodeKind, lhs: Option<i32>, rhs: Option<i32>) -> (data: (Option<i32>, SpanSet))
        requires
            fold_fits(kind, lhs, rhs),
        ensures
            data.0 == folded_constant(kind, lhs, rhs),
            span_set_items(data.1) == Set::<(usize, usize)>::empty(),
    {
        let constant = match kind {
            NodeKind::Num(n) => {
                if -2147483648 <= n && n <= 2147483647 {
                    Some(n as i32)
                } else {
                    None
                }
            },
            NodeKind::Add => match (lhs, rhs) {
                (Some(x), Some(y)) => Some(x + y),
                _ => None,
            },
            NodeKind::Sub => match (lhs, rhs) {
                (Some(x), Some(y)) => Some(x - y),
                _ => None,
            },
            NodeKind::Mul => match (lhs, rhs) {
                (Some(x), Some(y)) => Some(x * y),
                _ => None,
            },
            _ => None,
        };
        (constant, empty_span_set())
    }

    /// The data of two e-classes being united: the constant either side
    /// knows, and every span of both. Two known constants must agree.
    pub fn merge(left: (Option<i32>, SpanSet), right: (Option<i32>, SpanSet)) -> (data: (
        Option<i32>,
        SpanSet,
    ))
        requires
            constants_agree(left.0, right.0),
        ensures
            data.0 == merged_constant(left.0, right.0),
            span_set_items(data.1) == span_set_items(left.1).union(span_set_items(right.1)),
    {
        let constant = match (left.0, right.0) {
            (Some(x), Some(_)) => Some(x),
            (Some(x), None) => Some(x),
            (None, Some(y)) => Some(y),
            (None, None) => None,
        };
        (constant, span_set_union(left.1, right.1))
    }

    /// The literal to add to an e-class whose constant is known, so that the
    /// class holds its value as a `Num`; `None` where nothing is known.
    pub fn modify(constant: Option<i32>) -> (literal: Option<i64>)
        ensures
            literal == literal_for(constant),
    {
        match constant {
            Some(n) => Some(n as i64),
            None => None,
        }
    }
}

// ===========================================================================
// Laws of the analysis
// ===========================================================================

/// Merging is commutative where the constants agree, in the constant and in
/// the spans.
pub proof fn lemma_merge_commutative(
    left: Option<i32>,
    right: Option<i32>,
    left_spans: Set<(usize, usize)>,
    right_spans: Set<(usize, usize)>,
)
    requires
        constants_agree(left, right),
    ensures
        merged_constant(left, right) == merged_constant(right, left),
        left_spans.union(right_spans) == right_spans.union(left_spans),
{
    assert(left_spans.union(right_spans) =~= right_spans.union(left_spans));
}

/// Data with no constant and no span changes nothing it is merged with.
pub proof fn lemma_merge_identity(value: Option<i32>, spans: Set<(usize, usize)>)
    ensures
        merged_constant(None, value) == value,
        merged_constant(value, None) == value,
        Set::<(usize, usize)>::empty().union(spans) == spans,
        spans.union(Set::<(usize, usize)>::empty()) == spans,
{
    assert(Set::<(usize, usize)>::empty().union(spans) =~= spans);
    assert(spans.union(Set::<(usize, usize)>::empty()) =~= spans);
}

/// An operator node folds to a constant exactly when both its children do,
/// and then to the exact sum, difference or product of the two; variables,
/// divisions and comparisons never fold.
pub proof fn lemma_folding_needs_both_operands(kind: NodeKind, lhs: Option<i32>, rhs: Option<i32>)
    requires
        fold_fits(kind, lhs, rhs),
    ensures
        (kind is Add || kind is Sub || kind is Mul) ==> (folded_constant(kind, lhs, rhs) is Some
            <==> lhs is Some && rhs is Some),
        (kind is Add && lhs is Some && rhs is Some) ==> folded_constant(kind, lhs, rhs)->0 as int
            == lhs->0 + rhs->0,
        (kind is Sub && lhs is Some && rhs is Some) ==> folded_constant(kind, lhs, rhs)->0 as int
            == lhs->0 - rhs->0,
        (kind is Mul && lhs is Some && rhs is Some) ==> folded_constant(kind, lhs, rhs)->0 as int
            == lhs->0 * rhs->0,
        (kind is Var || kind is Div || kind is Eq) ==> folded_constant(kind, lhs, rhs) is None,
{
}

/// Merging is associative.
pub proof fn lemma_merge_associative(a: Option<i32>, b: Option<i32>, c: Option<i32>)
    ensures
        merged_constant(merged_constant(a, b), c) == merged_constant(a, merged_constant(b, c)),
{
}

/// Merging data with itself changes nothing.
pub proof fn lemma_merge_idempotent(value: Option<i32>)
    ensures
        merged_constant(value, value) == value,
{
}

/// Merging never loses a known constant.
pub proof fn lemma_merge_keeps_constants(left: Option<i32>, right: Option<i32>)
    requires
        constants_agree(left, right),
    ensures
        left is Some ==> merged_constant(left, right) == left,
        right is Some ==> merged_constant(left, right) == right,
{
}

/// The literal `modify` adds folds back to the same constant, so running
/// `make` on it agrees with the class it is united with.
pub proof fn lemma_modify_literal_folds_back(constant: Option<i32>)
    requires
        constant is Some,
    ensures
        literal_for(constant) is Some,
        folded_constant(NodeKind::Num(literal_for(constant)->0), None, None) == constant,
{
}

} // verus!
