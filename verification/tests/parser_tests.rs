use calc::ast::{BinaryOp, ConstantVal, Expr, OpKind};
use calc::parser::{
    constant_val_parser, expr_parser, factor_parser, paren_expr_parser, term_parser, ParseFailure,
};

#[test]
fn digit1_test() {
    let s = "63abc";
    let (used, rest) = constant_val_parser(s, 0).unwrap();
    assert_eq!(ConstantVal::new(63), used);
    assert_eq!(2, rest);
    assert_eq!("abc", &s[rest..]);
}

#[test]
fn term_parser_test() {
    let (actual, _) = term_parser("4*2/1", 0).unwrap();

    let temp = Expr::BinaryOp(Box::new(BinaryOp::new(
        OpKind::Div,
        Expr::ConstantVal(ConstantVal::new(2)),
        Expr::ConstantVal(ConstantVal::new(1)),
    )));
    let expect = Expr::BinaryOp(Box::new(BinaryOp::new(
        OpKind::Mul,
        Expr::ConstantVal(ConstantVal::new(4)),
        temp,
    )));
    assert_eq!(actual, expect);
}

#[test]
fn factor_parser_test() {
    let (actual, _) = factor_parser("4", 0).unwrap();
    let expect = Expr::ConstantVal(ConstantVal::new(4));
    assert_eq!(actual, expect);

    let (actual, _) = factor_parser("(3)", 0).unwrap();
    let expect = Expr::ConstantVal(ConstantVal::new(3));
    assert_eq!(actual, expect);
}

#[test]
fn paren_expr_parser_test() {
    let (actual, _) = paren_expr_parser("(76)", 0).unwrap();
    let expect = Expr::ConstantVal(ConstantVal::new(76));
    assert_eq!(actual, expect);
}

#[test]
fn constant_val_parser_test() {
    let (actual, _) = constant_val_parser("889", 0).unwrap();
    let expect = ConstantVal::new(889);
    assert_eq!(actual, expect);
}

#[test]
fn subtraction_chain_groups_to_the_right() {
    let (actual, rest) = expr_parser("10-3-2", 0).unwrap();
    let expect = Expr::BinaryOp(Box::new(BinaryOp::new(
        OpKind::Sub,
        Expr::ConstantVal(ConstantVal::new(10)),
        Expr::BinaryOp(Box::new(BinaryOp::new(
            OpKind::Sub,
            Expr::ConstantVal(ConstantVal::new(3)),
            Expr::ConstantVal(ConstantVal::new(2)),
        ))),
    )));
    assert_eq!(actual, expect);
    assert_eq!(rest, 6);
}

#[test]
fn leading_zeros_are_part_of_the_constant() {
    let (actual, rest) = constant_val_parser("0007", 0).unwrap();
    assert_eq!(actual, ConstantVal::new(7));
    assert_eq!(rest, 4);
}

#[test]
fn constant_above_i32_max_is_rejected() {
    assert_eq!(
        constant_val_parser("9999999999", 0),
        Err(ParseFailure::LiteralOverflow { at: 0 })
    );
}

#[test]
fn failed_tail_after_operator_backtracks() {
    // "1+" matches the bare term "1"; the dangling "+" stays unconsumed
    let (actual, rest) = expr_parser("1+", 0).unwrap();
    assert_eq!(actual, Expr::ConstantVal(ConstantVal::new(1)));
    assert_eq!(rest, 1);
}

#[test]
fn space_terminates_the_match() {
    let (actual, rest) = expr_parser("1 +2", 0).unwrap();
    assert_eq!(actual, Expr::ConstantVal(ConstantVal::new(1)));
    assert_eq!(rest, 1);
}

#[test]
fn missing_close_paren_is_reported() {
    assert_eq!(
        paren_expr_parser("(1", 0),
        Err(ParseFailure::UnclosedParen { at: 2 })
    );
}

#[test]
fn empty_input_is_unexpected_end() {
    assert_eq!(
        factor_parser("", 0),
        Err(ParseFailure::UnexpectedEnd { at: 0 })
    );
}
