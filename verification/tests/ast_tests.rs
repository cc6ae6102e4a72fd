use calc::ast::{ArithmeticFault, BinaryOp, ConstantVal, Expr, OpKind};

#[test]
fn constant_val_test() {
    let source = 55;
    let constant_val = ConstantVal::new(source);
    assert_eq!(constant_val.eval(), source);
}

#[test]
fn binary_op_test() {
    // the expression 13*(5+1)
    let binary_op = BinaryOp::new(
        OpKind::Mul,
        Expr::ConstantVal(ConstantVal::new(13)),
        Expr::BinaryOp(Box::new(BinaryOp::new(
            OpKind::Add,
            Expr::ConstantVal(ConstantVal::new(5)),
            Expr::ConstantVal(ConstantVal::new(1)),
        ))),
    );
    let expect = 13 * (5 + 1);
    assert_eq!(binary_op.eval().unwrap(), expect);
}

#[test]
fn division_by_zero_is_a_fault() {
    let binary_op = BinaryOp::new(
        OpKind::Div,
        Expr::ConstantVal(ConstantVal::new(1)),
        Expr::ConstantVal(ConstantVal::new(0)),
    );
    assert_eq!(binary_op.eval(), Err(ArithmeticFault::DivisionByZero));
}

#[test]
fn addition_overflow_is_a_fault() {
    let binary_op = BinaryOp::new(
        OpKind::Add,
        Expr::ConstantVal(ConstantVal::new(2_000_000_000)),
        Expr::ConstantVal(ConstantVal::new(2_000_000_000)),
    );
    assert_eq!(binary_op.eval(), Err(ArithmeticFault::Overflow));
}

#[test]
fn right_operand_faults_before_left() {
    // left faults with division by zero, right overflows; the right
    // operand is evaluated first, so its fault wins
    let left = BinaryOp::new(
        OpKind::Div,
        Expr::ConstantVal(ConstantVal::new(1)),
        Expr::ConstantVal(ConstantVal::new(0)),
    );
    let right = BinaryOp::new(
        OpKind::Mul,
        Expr::ConstantVal(ConstantVal::new(2_000_000_000)),
        Expr::ConstantVal(ConstantVal::new(2_000_000_000)),
    );
    let binary_op = BinaryOp::new(
        OpKind::Sub,
        Expr::BinaryOp(Box::new(left)),
        Expr::BinaryOp(Box::new(right)),
    );
    assert_eq!(binary_op.eval(), Err(ArithmeticFault::Overflow));
}

#[test]
fn division_truncates_toward_zero() {
    // -7 / 2 is -3 under truncating division, not -4
    let minus_seven = BinaryOp::new(
        OpKind::Sub,
        Expr::ConstantVal(ConstantVal::new(0)),
        Expr::ConstantVal(ConstantVal::new(7)),
    );
    let binary_op = BinaryOp::new(
        OpKind::Div,
        Expr::BinaryOp(Box::new(minus_seven)),
        Expr::ConstantVal(ConstantVal::new(2)),
    );
    assert_eq!(binary_op.eval(), Ok(-3));
}

#[test]
fn min_divided_by_minus_one_is_a_fault() {
    let binary_op = BinaryOp::new(
        OpKind::Div,
        Expr::ConstantVal(ConstantVal::new(i32::MIN)),
        Expr::ConstantVal(ConstantVal::new(-1)),
    );
    assert_eq!(binary_op.eval(), Err(ArithmeticFault::Overflow));
}
