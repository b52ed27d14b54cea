use pascal_front::expr::{
    Comparison, CompOp, ExBox, ExprNode, In, Invalid, Logic, LogicOp, Not, Product, ProdOp, Sum,
    SumOp, VarRef,
};
use pascal_front::literal::parse_real;
use pascal_front::program::Program;
use pascal_front::semantic::SemanticErrorKind;
use pascal_front::types::{Span, Type};

fn ctx() -> Program {
    Program::new(String::new())
}

fn int_box(v: i64, start: usize, end: usize) -> ExBox {
    ExBox::new(ExprNode::IntLit(v), Span { start, end })
}

fn real_box(text: &str, start: usize, end: usize) -> ExBox {
    let value = parse_real(text).unwrap();
    ExBox::new(ExprNode::RealLit(value), Span { start, end })
}

fn bool_box(v: bool) -> ExBox {
    ExBox::new(ExprNode::BoolLit(v), Span { start: 0, end: 1 })
}

#[test]
fn sum_of_equal_types_passes_through() {
    let p = ctx();
    let s = Sum { left: int_box(3, 0, 1), right: int_box(4, 4, 5), op: SumOp::Add };
    assert_eq!(s.get_type(&p), Type::Integer);
}

#[test]
fn sum_of_unequal_primitives_promotes_to_real() {
    let p = ctx();
    let s = Sum { left: int_box(3, 0, 1), right: real_box("4.0", 4, 7), op: SumOp::Add };
    assert_eq!(s.get_type(&p), Type::Real);
}

#[test]
fn sum_of_char_and_boolean_promotes_to_real() {
    let p = ctx();
    let s = Sum {
        left: ExBox::new(ExprNode::CharLit('a'), Span { start: 0, end: 3 }),
        right: bool_box(true),
        op: SumOp::Sub,
    };
    assert_eq!(s.get_type(&p), Type::Real);
}

#[test]
fn rdiv_always_types_real() {
    let p = ctx();
    let q = Product { left: int_box(1, 0, 1), right: int_box(2, 2, 3), op: ProdOp::RDiv };
    assert_eq!(q.get_type(&p), Type::Real);
    let q2 = Product { left: bool_box(true), right: bool_box(false), op: ProdOp::RDiv };
    assert_eq!(q2.get_type(&p), Type::Real);
}

#[test]
fn rdiv_never_folds() {
    let p = ctx();
    let q = Product { left: int_box(6, 0, 1), right: int_box(2, 2, 3), op: ProdOp::RDiv };
    assert_eq!(q.as_number(&p), Err(SemanticErrorKind::InvalidLimit));
}

#[test]
fn integer_division_rejects_real_operand() {
    let p = ctx();
    let q = Product { left: real_box("1.5", 0, 3), right: int_box(2, 4, 5), op: ProdOp::Div };
    let errs = q.validate(&p);
    assert_eq!(errs.len(), 1);
    assert_eq!(
        errs[0],
        SemanticErrorKind::TypeError {
            expected: vec![Type::Integer, Type::Char, Type::Boolean],
            got: Type::Real,
        }
    );
    assert_eq!(q.get_type(&p), Type::Invalid);
}

#[test]
fn not_validates_iff_operand_boolean() {
    let p = ctx();
    let ok = Not(bool_box(true));
    assert!(ok.validate(&p).is_empty());
    assert_eq!(ok.get_type(&p), Type::Boolean);

    let bad = Not(int_box(1, 0, 1));
    let errs = bad.validate(&p);
    assert_eq!(errs.len(), 1);
    assert_eq!(
        errs[0],
        SemanticErrorKind::TypeError { expected: vec![Type::Boolean], got: Type::Integer }
    );
    assert_eq!(bad.get_type(&p), Type::Invalid);
}

#[test]
fn homogeneous_sequence_is_a_set_of_its_element_type() {
    let p = ctx();
    let seq = ExprNode::Sequence(vec![int_box(1, 0, 1), int_box(2, 2, 3), int_box(3, 4, 5)]);
    assert!(seq.validate(&p).is_empty());
    assert_eq!(seq.get_type(&p), Type::SetOf(Box::new(Type::Integer)));
}

#[test]
fn one_foreign_element_yields_exactly_one_error() {
    let p = ctx();
    let seq = ExprNode::Sequence(vec![
        int_box(1, 0, 1),
        real_box("2.5", 2, 5),
        int_box(3, 6, 7),
    ]);
    let errs = seq.validate(&p);
    assert_eq!(errs.len(), 1);
    assert_eq!(
        errs[0],
        SemanticErrorKind::TypeError { expected: vec![Type::Integer], got: Type::Real }
    );
}

#[test]
fn folding_a_small_sum() {
    let p = ctx();
    let s = Sum { left: int_box(3, 0, 1), right: int_box(4, 4, 5), op: SumOp::Add };
    assert_eq!(s.as_number(&p), Ok(7));
}

#[test]
fn folding_with_a_real_operand_fails() {
    let p = ctx();
    let s = Sum { left: int_box(3, 0, 1), right: real_box("4.0", 4, 7), op: SumOp::Add };
    assert_eq!(s.as_number(&p), Err(SemanticErrorKind::InvalidLimit));
}

#[test]
fn end_to_end_three_plus_four_point_zero() {
    // source "3 + 4.0": an addition of an integer and a real literal
    let p = Program::new("3 + 4.0".to_string());
    let s = Sum { left: int_box(3, 0, 1), right: real_box("4.0", 4, 7), op: SumOp::Add };
    assert_eq!(s.get_type(&p), Type::Real);
    assert_eq!(s.as_number(&p), Err(SemanticErrorKind::InvalidLimit));
}

#[test]
fn end_to_end_membership_of_two() {
    let p = ctx();
    let set = ExBox::new(
        ExprNode::Sequence(vec![int_box(1, 5, 6), int_box(2, 7, 8), int_box(3, 9, 10)]),
        Span { start: 4, end: 11 },
    );
    let test = In { sample: int_box(2, 0, 1), set };
    assert_eq!(test.get_type(&p), Type::Boolean);
    assert!(test.validate(&p).is_empty());
}

#[test]
fn membership_against_a_non_set_is_rejected() {
    let p = ctx();
    let test = In { sample: int_box(2, 0, 1), set: int_box(7, 5, 6) };
    let errs = test.validate(&p);
    assert_eq!(errs.len(), 1);
    assert_eq!(
        errs[0],
        SemanticErrorKind::TypeError {
            expected: vec![Type::SetOf(Box::new(Type::Invalid))],
            got: Type::Integer,
        }
    );
}

#[test]
fn membership_sample_must_match_element_type() {
    let p = ctx();
    let set = ExBox::new(
        ExprNode::Sequence(vec![int_box(1, 5, 6), int_box(2, 7, 8)]),
        Span { start: 4, end: 9 },
    );
    let test = In { sample: bool_box(true), set };
    let errs = test.validate(&p);
    assert_eq!(errs.len(), 1);
    assert_eq!(
        errs[0],
        SemanticErrorKind::TypeError { expected: vec![Type::Integer], got: Type::Boolean }
    );
}

#[test]
fn comparison_folds_to_zero_or_one() {
    let p = ctx();
    let lt = Comparison { left: int_box(3, 0, 1), right: int_box(4, 2, 3), op: CompOp::Lt };
    assert_eq!(lt.as_number(&p), Ok(1));
    let ge = Comparison { left: int_box(3, 0, 1), right: int_box(4, 2, 3), op: CompOp::Bge };
    assert_eq!(ge.as_number(&p), Ok(0));
    assert_eq!(lt.get_type(&p), Type::Boolean);
}

#[test]
fn logic_validates_booleans_only() {
    let p = ctx();
    let good = Logic { left: bool_box(true), right: bool_box(false), op: LogicOp::And };
    assert!(good.is_valid(&p));
    assert_eq!(good.get_type(&p), Type::Boolean);
    assert_eq!(good.as_number(&p), Ok(0));

    let bad = Logic { left: bool_box(true), right: int_box(1, 0, 1), op: LogicOp::Or };
    assert!(!bad.is_valid(&p));
    assert_eq!(bad.get_type(&p), Type::Invalid);
    let errs = bad.validate(&p);
    assert_eq!(errs.len(), 1);
    assert_eq!(
        errs[0],
        SemanticErrorKind::TypeError { expected: vec![Type::Boolean], got: Type::Integer }
    );
}

#[test]
fn division_and_modulo_fold_truncating() {
    let p = ctx();
    let d = Product { left: int_box(7, 0, 1), right: int_box(2, 2, 3), op: ProdOp::Div };
    assert_eq!(d.as_number(&p), Ok(3));
    let m = Product { left: int_box(7, 0, 1), right: int_box(2, 2, 3), op: ProdOp::Mod };
    assert_eq!(m.as_number(&p), Ok(1));
    let dn = Product { left: int_box(-7, 0, 2), right: int_box(2, 3, 4), op: ProdOp::Div };
    assert_eq!(dn.as_number(&p), Ok(-3));
    let mn = Product { left: int_box(-7, 0, 2), right: int_box(2, 3, 4), op: ProdOp::Mod };
    assert_eq!(mn.as_number(&p), Ok(-1));
}

#[test]
fn division_by_zero_cannot_serve_as_a_constant() {
    let p = ctx();
    let d = Product { left: int_box(7, 0, 1), right: int_box(0, 2, 3), op: ProdOp::Div };
    assert_eq!(d.as_number(&p), Err(SemanticErrorKind::InvalidLimit));
}

#[test]
fn overflowing_arithmetic_cannot_serve_as_a_constant() {
    let p = ctx();
    let s = Sum { left: int_box(i64::MAX, 0, 1), right: int_box(1, 2, 3), op: SumOp::Add };
    assert_eq!(s.as_number(&p), Err(SemanticErrorKind::InvalidLimit));
}

#[test]
fn literals_fold_to_their_code_points() {
    let p = ctx();
    assert_eq!(ExprNode::CharLit('A').as_number(&p), Ok(65));
    assert_eq!(ExprNode::BoolLit(true).as_number(&p), Ok(1));
    assert_eq!(ExprNode::BoolLit(false).as_number(&p), Ok(0));
    assert_eq!(ExprNode::IntLit(42).as_number(&p), Ok(42));
    assert_eq!(ExprNode::Invalid(Invalid).as_number(&p), Ok(0));
}

#[test]
fn not_folds_by_zero_test() {
    let p = ctx();
    let z = Not(int_box(0, 0, 1));
    assert_eq!(z.as_number(&p), Ok(1));
    let nz = Not(int_box(5, 0, 1));
    assert_eq!(nz.as_number(&p), Ok(0));
}

#[test]
fn unresolved_nodes_degrade_to_invalid() {
    let p = ctx();
    let call = pascal_front::expr::Call { name: "f".to_string(), args: vec![int_box(1, 2, 3)] };
    assert_eq!(call.get_type(&p), Type::Invalid);
    assert_eq!(call.as_number(&p), Err(SemanticErrorKind::InvalidLimit));
    let var = VarRef::Immediate("x".to_string());
    assert_eq!(var.get_type(&p), Type::Invalid);
    assert_eq!(var.as_number(&p), Err(SemanticErrorKind::InvalidLimit));
}

#[test]
fn boxed_errors_carry_the_box_range() {
    let p = ctx();
    let node = ExprNode::Not(Not(int_box(1, 4, 5)));
    let boxed = ExBox::new(node, Span { start: 0, end: 5 });
    let errs = boxed.validate(&p);
    assert_eq!(errs.len(), 1);
    assert_eq!(errs[0].range, Span { start: 0, end: 5 });
    assert_eq!(
        errs[0].kind,
        SemanticErrorKind::TypeError { expected: vec![Type::Boolean], got: Type::Integer }
    );
    assert!(!boxed.is_valid(&p));
}

#[test]
fn boxed_folding_failures_carry_the_box_range() {
    let p = ctx();
    let boxed = real_box("2.5", 3, 6);
    let err = boxed.as_number(&p).unwrap_err();
    assert_eq!(err.range, Span { start: 3, end: 6 });
    assert_eq!(err.kind, SemanticErrorKind::InvalidLimit);
    assert_eq!(boxed.get_type(&p), Type::Real);
}

#[test]
fn invalid_children_degrade_the_parent() {
    let p = ctx();
    let bad_child = ExBox::new(
        ExprNode::Not(Not(int_box(1, 0, 1))),
        Span { start: 0, end: 1 },
    );
    let s = Sum { left: bad_child, right: int_box(4, 2, 3), op: SumOp::Add };
    assert_eq!(s.get_type(&p), Type::Invalid);
    assert!(!s.validate(&p).is_empty());
}
