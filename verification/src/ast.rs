use vstd::prelude::*;

verus! {

/// Any expression: either a literal constant or a binary operation.
#[derive(Debug, PartialEq)]
pub enum Expr {
    ConstantVal(ConstantVal),
    BinaryOp(Box<BinaryOp>),
}

/// A literal integer constant.
#[derive(Debug, PartialEq)]
pub struct ConstantVal(pub i32);

/// The four infix operators.
#[derive(Debug, PartialEq)]
pub enum OpKind {
    Add,
    Sub,
    Mul,
    Div,
}

/// A binary operation applied to two subexpressions.
#[derive(Debug, PartialEq)]
pub struct BinaryOp {
    pub op_kind: OpKind,
    pub left_expr: Expr,
    pub right_expr: Expr,
}

/// Evaluation error: the evaluator is total and reports these instead of
/// trapping on bad arithmetic.
#[derive(Debug, PartialEq, Eq, Clone, Copy)]
pub enum ArithmeticFault {
    /// The right operand of `/` evaluated to zero.
    DivisionByZero,
    /// An operation left the `i32` range.
    Overflow,
}

/// Truncating (round-toward-zero) integer division, the semantics of Rust's
/// `/` on machine integers, defined for `b != 0`.
pub open spec fn div_trunc(a: int, b: int) -> int {
    if a == 0 {
        0
    } else if a > 0 && b > 0 {
        a / b
    } else if a < 0 && b < 0 {
        (a * -1) / (b * -1)
    } else if a < 0 {
        ((a * -1) / b) * -1
    } else {
        (a / (b * -1)) * -1
    }
}

/// `Ok(v)` if `v` fits in an `i32`, otherwise an overflow fault.
pub open spec fn i32_or_overflow(v: int) -> Result<int, ArithmeticFault> {
    if i32::MIN <= v <= i32::MAX {
        Ok(v)
    } else {
        Err(ArithmeticFault::Overflow)
    }
}

/// The value of one operator applied to two operands, or the fault it raises.
pub open spec fn spec_apply_op(op: OpKind, l: int, r: int) -> Result<int, ArithmeticFault> {
    match op {
        OpKind::Add => i32_or_overflow(l + r),
        OpKind::Sub => i32_or_overflow(l - r),
        OpKind::Mul => i32_or_overflow(l * r),
        OpKind::Div => if r == 0 {
            Err(ArithmeticFault::DivisionByZero)
        } else {
            i32_or_overflow(div_trunc(l, r))
        },
    }
}

/// The value of an expression tree: a structurally recursive fold.  The right
/// subexpression is evaluated before the left one, so a fault on the right
/// side takes precedence.
pub open spec fn spec_eval(e: Expr) -> Result<int, ArithmeticFault>
    decreases e,
{
    match e {
        Expr::ConstantVal(c) => Ok(c.0 as int),
        Expr::BinaryOp(b) => spec_eval_binop(*b),
    }
}

/// The value of a binary operation node.
pub open spec fn spec_eval_binop(b: BinaryOp) -> Result<int, ArithmeticFault>
    decreases b,
{
    match spec_eval(b.right_expr) {
        Err(f) => Err(f),
        Ok(r) => match spec_eval(b.left_expr) {
            Err(f) => Err(f),
            Ok(l) => spec_apply_op(b.op_kind, l, r),
        },
    }
}

/// Exact agreement of an executable evaluation result with its mathematical
/// counterpart.
pub open spec fn eval_result_matches(
    r: Result<i32, ArithmeticFault>,
    sr: Result<int, ArithmeticFault>,
) -> bool {
    match (r, sr) {
        (Ok(v), Ok(sv)) => v as int == sv,
        (Err(f), Err(sf)) => f == sf,
        _ => false,
    }
}

impl Expr {
    /// Evaluate the expression tree.
    pub fn eval(&self) -> (r: Result<i32, ArithmeticFault>)
        ensures
            eval_result_matches(r, spec_eval(*self)),
        decreases *self,
    {
        match self {
            Expr::ConstantVal(c) => Ok(c.eval()),
            Expr::BinaryOp(b) => b.eval(),
        }
    }
}

impl ConstantVal {
    /// Build a constant from its value.
    pub fn new(val: i32) -> (r: ConstantVal)
        ensures
            r.0 == val,
    {
        ConstantVal(val)
    }

    /// A constant evaluates to its stored value; no fault is possible.
    pub fn eval(&self) -> (r: i32)
        ensures
            r == self.0,
    {
        self.0
    }
}

impl BinaryOp {
    /// Build a binary operation node.
    pub fn new(op_kind: OpKind, left_expr: Expr, right_expr: Expr) -> (r: BinaryOp)
        ensures
            r.op_kind == op_kind,
            r.left_expr == left_expr,
            r.right_expr == right_expr,
    {
        BinaryOp { op_kind, left_expr, right_expr }
    }

    /// Evaluate the right operand, then the left, then apply the operator
    /// with checked `i32` arithmetic.
    pub fn eval(&self) -> (r: Result<i32, ArithmeticFault>)
        ensures
            eval_result_matches(r, spec_eval_binop(*self)),
        decreases *self,
    {
        let right = match self.right_expr.eval() {
            Ok(v) => v,
            Err(f) => {
                return Err(f);
            },
        };
        let left = match self.left_expr.eval() {
            Ok(v) => v,
            Err(f) => {
                return Err(f);
            },
        };
        match &self.op_kind {
            OpKind::Add => match left.checked_add(right) {
                Some(v) => Ok(v),
                None => Err(ArithmeticFault::Overflow),
            },
            OpKind::Sub => match left.checked_sub(right) {
                Some(v) => Ok(v),
                None => Err(ArithmeticFault::Overflow),
            },
            OpKind::Mul => match left.checked_mul(right) {
                Some(v) => Ok(v),
                None => Err(ArithmeticFault::Overflow),
            },
            OpKind::Div => if right == 0 {
                Err(ArithmeticFault::DivisionByZero)
            } else {
                match left.checked_div(right) {
                    Some(v) => Ok(v),
                    None => Err(ArithmeticFault::Overflow),
                }
            },
        }
    }
}

} // verus!
