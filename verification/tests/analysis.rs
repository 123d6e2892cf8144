use csearch_core::analysis::{CAnalysis, NodeKind};

#[test]
fn literals_fold_to_themselves() {
    assert_eq!(CAnalysis::make(NodeKind::Num(7), None, None).0, Some(7));
    assert_eq!(CAnalysis::make(NodeKind::Num(-2147483648), None, None).0, Some(i32::MIN));
}

#[test]
fn literals_outside_i32_do_not_fold() {
    assert_eq!(CAnalysis::make(NodeKind::Num(1 << 40), None, None).0, None);
    assert_eq!(CAnalysis::make(NodeKind::Num(-2147483649), None, None).0, None);
}

#[test]
fn arithmetic_on_constants_folds() {
    assert_eq!(CAnalysis::make(NodeKind::Add, Some(2), Some(3)).0, Some(5));
    assert_eq!(CAnalysis::make(NodeKind::Sub, Some(2), Some(3)).0, Some(-1));
    assert_eq!(CAnalysis::make(NodeKind::Mul, Some(-4), Some(3)).0, Some(-12));
}

#[test]
fn an_unknown_operand_blocks_folding() {
    assert_eq!(CAnalysis::make(NodeKind::Add, None, Some(3)).0, None);
    assert_eq!(CAnalysis::make(NodeKind::Mul, Some(3), None).0, None);
}

#[test]
fn division_variables_and_equality_do_not_fold() {
    assert_eq!(CAnalysis::make(NodeKind::Div, Some(6), Some(3)).0, None);
    assert_eq!(CAnalysis::make(NodeKind::Var, None, None).0, None);
    assert_eq!(CAnalysis::make(NodeKind::Eq, Some(1), Some(1)).0, None);
}

#[test]
fn merge_keeps_whichever_constant_is_known() {
    let known = CAnalysis::make(NodeKind::Num(4), None, None);
    let unknown = CAnalysis::make(NodeKind::Var, None, None);
    assert_eq!(CAnalysis::merge(known.clone(), unknown.clone()).0, Some(4));
    assert_eq!(CAnalysis::merge(unknown.clone(), known.clone()).0, Some(4));
    assert_eq!(CAnalysis::merge(known.clone(), known.clone()).0, Some(4));
    assert_eq!(CAnalysis::merge(unknown.clone(), unknown).0, None);
}

#[test]
fn merge_is_commutative_on_agreeing_data() {
    let a = CAnalysis::make(NodeKind::Num(9), None, None);
    let b = CAnalysis::make(NodeKind::Add, Some(4), Some(5));
    assert_eq!(CAnalysis::merge(a.clone(), b.clone()), CAnalysis::merge(b, a));
}

#[test]
fn fresh_nodes_carry_no_span() {
    let a = CAnalysis::make(NodeKind::Num(1), None, None);
    let b = CAnalysis::make(NodeKind::Var, None, None);
    assert!(a.1 == b.1);
    assert!(CAnalysis::merge(a.clone(), b).1 == a.1);
}

#[test]
fn modify_adds_the_folded_literal() {
    assert_eq!(CAnalysis::modify(Some(-3)), Some(-3i64));
    assert_eq!(CAnalysis::modify(None), None);
    let literal = CAnalysis::modify(Some(12)).unwrap();
    assert_eq!(CAnalysis::make(NodeKind::Num(literal), None, None).0, Some(12));
}

#[test]
fn merge_is_associative() {
    let a = CAnalysis::make(NodeKind::Var, None, None);
    let b = CAnalysis::make(NodeKind::Num(3), None, None);
    let c = CAnalysis::make(NodeKind::Sub, Some(5), Some(2));
    let left = CAnalysis::merge(CAnalysis::merge(a.clone(), b.clone()), c.clone());
    let right = CAnalysis::merge(a, CAnalysis::merge(b, c));
    assert_eq!(left, right);
    assert_eq!(left.0, Some(3));
}
