use vstd::prelude::*;

use crate::ast::{BinaryOp, ConstantVal, Expr, OpKind};

verus! {

/// Parse error.  Each variant carries the character offset at which the
/// grammar could not continue.
#[derive(Debug, PartialEq, Eq, Clone, Copy)]
pub enum ParseFailure {
    /// The character at this offset starts no production of the grammar.
    UnexpectedToken { at: usize },
    /// Input ended where a production still expected a character.
    UnexpectedEnd { at: usize },
    /// A parenthesized expression lacks its closing `)` at this offset.
    UnclosedParen { at: usize },
    /// The digit run starting at this offset names a value above `i32::MAX`.
    LiteralOverflow { at: usize },
}

/// A decimal digit.
pub open spec fn is_digit_char(c: char) -> bool {
    48 <= c as u32 <= 57
}

/// The numeric value of one digit.
pub open spec fn digit_val(c: char) -> int {
    c as u32 - 48
}

/// `+` or `-`, the operators of the `expr` rule.
pub open spec fn is_add_op(c: char) -> bool {
    c == '+' || c == '-'
}

/// `*` or `/`, the operators of the `term` rule.
pub open spec fn is_mul_op(c: char) -> bool {
    c == '*' || c == '/'
}

/// The operator named by a character of the `expr` rule.
pub open spec fn add_op_of(c: char) -> OpKind {
    if c == '+' {
        OpKind::Add
    } else {
        OpKind::Sub
    }
}

/// The operator named by a character of the `term` rule.
pub open spec fn mul_op_of(c: char) -> OpKind {
    if c == '*' {
        OpKind::Mul
    } else {
        OpKind::Div
    }
}

/// The first position at or after `pos` that does not hold a digit.
pub open spec fn digit_run_end(s: Seq<char>, pos: int) -> int
    decreases s.len() - pos,
{
    if 0 <= pos < s.len() && is_digit_char(s[pos]) {
        digit_run_end(s, pos + 1)
    } else {
        pos
    }
}

/// The non-negative integer named by the digits `s[pos..end]`, most
/// significant digit first.
pub open spec fn digits_val(s: Seq<char>, pos: int, end: int) -> int
    decreases end - pos,
{
    if pos < end {
        digits_val(s, pos, end - 1) * 10 + digit_val(s[end - 1])
    } else {
        0
    }
}

/// The `constant` rule: the longest run of digits starting at `pos`, read as
/// a non-negative integer.  Fails if no digit stands at `pos`, or if the
/// named value does not fit in an `i32`.
pub open spec fn spec_parse_constant(s: Seq<char>, pos: int) -> Result<
    (ConstantVal, int),
    ParseFailure,
> {
    let end = digit_run_end(s, pos);
    if end == pos {
        if pos >= s.len() {
            Err(ParseFailure::UnexpectedEnd { at: pos as usize })
        } else {
            Err(ParseFailure::UnexpectedToken { at: pos as usize })
        }
    } else {
        let v = digits_val(s, pos, end);
        if v > i32::MAX {
            Err(ParseFailure::LiteralOverflow { at: pos as usize })
        } else {
            Ok((ConstantVal(v as i32), end))
        }
    }
}

/// The `expr` rule: `expr := term (('+' | '-') expr)?`.  The optional tail is
/// taken exactly when an operator character follows the term and the rest of
/// the input parses as an `expr`; otherwise the term alone is the result.
/// Chains of `+`/`-` therefore group to the right.
pub open spec fn spec_parse_expr(s: Seq<char>, pos: int) -> Result<(Expr, int), ParseFailure>
    decreases s.len() - pos, 3int,
{
    match spec_parse_term(s, pos) {
        Err(f) => Err(f),
        Ok((e1, p1)) => if pos < p1 && p1 < s.len() && is_add_op(s[p1]) {
            match spec_parse_expr(s, p1 + 1) {
                Err(_) => Ok((e1, p1)),
                Ok((e2, p2)) => Ok(
                    (
                        Expr::BinaryOp(
                            Box::new(
                                BinaryOp {
                                    op_kind: add_op_of(s[p1]),
                                    left_expr: e1,
                                    right_expr: e2,
                                },
                            ),
                        ),
                        p2,
                    ),
                ),
            }
        } else {
            Ok((e1, p1))
        },
    }
}

/// The `term` rule: `term := factor (('*' | '/') term)?`, grouping to the
/// right like `expr`.
pub open spec fn spec_parse_term(s: Seq<char>, pos: int) -> Result<(Expr, int), ParseFailure>
    decreases s.len() - pos, 2int,
{
    match spec_parse_factor(s, pos) {
        Err(f) => Err(f),
        Ok((e1, p1)) => if pos < p1 && p1 < s.len() && is_mul_op(s[p1]) {
            match spec_parse_term(s, p1 + 1) {
                Err(_) => Ok((e1, p1)),
                Ok((e2, p2)) => Ok(
                    (
                        Expr::BinaryOp(
                            Box::new(
                                BinaryOp {
                                    op_kind: mul_op_of(s[p1]),
                                    left_expr: e1,
                                    right_expr: e2,
                                },
                            ),
                        ),
                        p2,
                    ),
                ),
            }
        } else {
            Ok((e1, p1))
        },
    }
}

/// The `factor` rule: `factor := constant | '(' expr ')'`.  A digit at `pos`
/// commits to the `constant` rule; anything else falls to the parenthesized
/// alternative.
pub open spec fn spec_parse_factor(s: Seq<char>, pos: int) -> Result<(Expr, int), ParseFailure>
    decreases s.len() - pos, 1int,
{
    if 0 <= pos < s.len() && is_digit_char(s[pos]) {
        match spec_parse_constant(s, pos) {
            Err(f) => Err(f),
            Ok((c, p)) => Ok((Expr::ConstantVal(c), p)),
        }
    } else {
        spec_parse_paren(s, pos)
    }
}

/// The parenthesized alternative of `factor`: `'(' expr ')'`.
pub open spec fn spec_parse_paren(s: Seq<char>, pos: int) -> Result<(Expr, int), ParseFailure>
    decreases s.len() - pos, 0int,
{
    if 0 <= pos < s.len() && s[pos] == '(' {
        match spec_parse_expr(s, pos + 1) {
            Err(f) => Err(f),
            Ok((e, p)) => if 0 <= p < s.len() && s[p] == ')' {
                Ok((e, p + 1))
            } else {
                Err(ParseFailure::UnclosedParen { at: p as usize })
            },
        }
    } else if !(0 <= pos < s.len()) {
        Err(ParseFailure::UnexpectedEnd { at: pos as usize })
    } else {
        Err(ParseFailure::UnexpectedToken { at: pos as usize })
    }
}

/// Exact agreement of an executable parse result with its mathematical
/// counterpart: same success or failure, same node, same resume offset.
pub open spec fn parse_result_matches<T>(
    r: Result<(T, usize), ParseFailure>,
    sr: Result<(T, int), ParseFailure>,
) -> bool {
    match (r, sr) {
        (Ok((e, p)), Ok((se, sp))) => e == se && p as int == sp,
        (Err(f), Err(sf)) => f == sf,
        _ => false,
    }
}

/// Where a digit run ends: within the input, past `pos`, behind only digits,
/// and only where no further digit follows.
pub proof fn lemma_digit_run_end(s: Seq<char>, pos: int)
    requires
        0 <= pos <= s.len(),
    ensures
        pos <= digit_run_end(s, pos) <= s.len(),
        forall|i: int| pos <= i < digit_run_end(s, pos) ==> is_digit_char(s[i]),
        digit_run_end(s, pos) < s.len() ==> !is_digit_char(s[digit_run_end(s, pos)]),
    decreases s.len() - pos,
{
    if pos < s.len() && is_digit_char(s[pos]) {
        lemma_digit_run_end(s, pos + 1);
    }
}

/// A run of digits names a non-negative value.
pub proof fn lemma_digits_val_nonneg(s: Seq<char>, pos: int, end: int)
    requires
        forall|i: int| pos <= i < end ==> is_digit_char(s[i]),
    ensures
        digits_val(s, pos, end) >= 0,
    decreases end - pos,
{
    if pos < end {
        lemma_digits_val_nonneg(s, pos, end - 1);
    }
}

/// Extending a run of digits to the right never shrinks its value.
pub proof fn lemma_digits_val_monotone(s: Seq<char>, pos: int, mid: int, end: int)
    requires
        pos <= mid <= end,
        forall|i: int| pos <= i < end ==> is_digit_char(s[i]),
    ensures
        digits_val(s, pos, end) >= digits_val(s, pos, mid),
    decreases end - mid,
{
    if mid < end {
        lemma_digits_val_monotone(s, pos, mid, end - 1);
        lemma_digits_val_nonneg(s, pos, end - 1);
    }
}

/// A successful `constant` parse resumes past its start and within the input.
pub proof fn lemma_constant_progress(s: Seq<char>, pos: int)
    requires
        0 <= pos <= s.len(),
    ensures
        (match spec_parse_constant(s, pos) {
            Ok((_, p)) => pos < p <= s.len(),
            Err(_) => true,
        }),
{
    lemma_digit_run_end(s, pos);
}

/// A successful `paren` parse resumes past its start and within the input.
pub proof fn lemma_paren_progress(s: Seq<char>, pos: int)
    requires
        0 <= pos <= s.len(),
    ensures
        (match spec_parse_paren(s, pos) {
            Ok((_, p)) => pos < p <= s.len(),
            Err(_) => true,
        }),
    decreases s.len() - pos, 0int,
{
    if 0 <= pos < s.len() && s[pos] == '(' {
        lemma_expr_progress(s, pos + 1);
    }
}

/// A successful `factor` parse resumes past its start and within the input.
pub proof fn lemma_factor_progress(s: Seq<char>, pos: int)
    requires
        0 <= pos <= s.len(),
    ensures
        (match spec_parse_factor(s, pos) {
            Ok((_, p)) => pos < p <= s.len(),
            Err(_) => true,
        }),
    decreases s.len() - pos, 1int,
{
    if 0 <= pos < s.len() && is_digit_char(s[pos]) {
        lemma_constant_progress(s, pos);
    } else {
        lemma_paren_progress(s, pos);
    }
}

/// A successful `term` parse resumes past its start and within the input.
pub proof fn lemma_term_progress(s: Seq<char>, pos: int)
    requires
        0 <= pos <= s.len(),
    ensures
        (match spec_parse_term(s, pos) {
            Ok((_, p)) => pos < p <= s.len(),
            Err(_) => true,
        }),
    decreases s.len() - pos, 2int,
{
    lemma_factor_progress(s, pos);
    match spec_parse_factor(s, pos) {
        Err(_) => {},
        Ok((e1, p1)) => {
            if pos < p1 && p1 < s.len() && is_mul_op(s[p1]) {
                lemma_term_progress(s, p1 + 1);
            }
        },
    }
}

/// A successful `expr` parse resumes past its start and within the input.
pub proof fn lemma_expr_progress(s: Seq<char>, pos: int)
    requires
        0 <= pos <= s.len(),
    ensures
        (match spec_parse_expr(s, pos) {
            Ok((_, p)) => pos < p <= s.len(),
            Err(_) => true,
        }),
    decreases s.len() - pos, 3int,
{
    lemma_term_progress(s, pos);
    match spec_parse_term(s, pos) {
        Err(_) => {},
        Ok((e1, p1)) => {
            if pos < p1 && p1 < s.len() && is_add_op(s[p1]) {
                lemma_expr_progress(s, p1 + 1);
            }
        },
    }
}

/// The `constant` rule consumes the longest grammar-matching prefix: on
/// success everything up to the resume offset is a digit, no digit follows
/// it, and the parsed constant holds exactly the value those digits name.
pub proof fn lemma_constant_longest_match(s: Seq<char>, pos: int, c: ConstantVal, end: int)
    requires
        0 <= pos <= s.len(),
        spec_parse_constant(s, pos) == Ok::<(ConstantVal, int), ParseFailure>((c, end)),
    ensures
        pos < end <= s.len(),
        forall|i: int| pos <= i < end ==> is_digit_char(s[i]),
        end < s.len() ==> !is_digit_char(s[end]),
        c.0 as int == digits_val(s, pos, end),
{
    lemma_digit_run_end(s, pos);
    lemma_digits_val_nonneg(s, pos, end);
}

/// Parser for the `expr` rule, from the character offset `pos` in `s`.
/// Returns the parsed tree and the offset of the first unconsumed character.
pub fn expr_parser(s: &str, pos: usize) -> (r: Result<(Expr, usize), ParseFailure>)
    requires
        pos <= s@.len(),
    ensures
        parse_result_matches(r, spec_parse_expr(s@, pos as int)),
    decreases s@.len() - pos, 3int,
{
    let len = s.unicode_len();
    match term_parser(s, pos) {
        Err(f) => Err(f),
        Ok((e1, p1)) => {
            proof {
                lemma_term_progress(s@, pos as int);
            }
            if p1 < len {
                let c = s.get_char(p1);
                if c == '+' || c == '-' {
                    let op = if c == '+' {
                        OpKind::Add
                    } else {
                        OpKind::Sub
                    };
                    match expr_parser(s, p1 + 1) {
                        Err(_) => Ok((e1, p1)),
                        Ok((e2, p2)) => Ok(
                            (Expr::BinaryOp(Box::new(BinaryOp::new(op, e1, e2))), p2),
                        ),
                    }
                } else {
                    Ok((e1, p1))
                }
            } else {
                Ok((e1, p1))
            }
        },
    }
}

/// Parser for the `term` rule.
pub fn term_parser(s: &str, pos: usize) -> (r: Result<(Expr, usize), ParseFailure>)
    requires
        pos <= s@.len(),
    ensures
        parse_result_matches(r, spec_parse_term(s@, pos as int)),
    decreases s@.len() - pos, 2int,
{
    let len = s.unicode_len();
    match factor_parser(s, pos) {
        Err(f) => Err(f),
        Ok((e1, p1)) => {
            proof {
                lemma_factor_progress(s@, pos as int);
            }
            if p1 < len {
                let c = s.get_char(p1);
                if c == '*' || c == '/' {
                    let op = if c == '*' {
                        OpKind::Mul
                    } else {
                        OpKind::Div
                    };
                    match term_parser(s, p1 + 1) {
                        Err(_) => Ok((e1, p1)),
                        Ok((e2, p2)) => Ok(
                            (Expr::BinaryOp(Box::new(BinaryOp::new(op, e1, e2))), p2),
                        ),
                    }
                } else {
                    Ok((e1, p1))
                }
            } else {
                Ok((e1, p1))
            }
        },
    }
}

/// Parser for the `factor` rule.
pub fn factor_parser(s: &str, pos: usize) -> (r: Result<(Expr, usize), ParseFailure>)
    requires
        pos <= s@.len(),
    ensures
        parse_result_matches(r, spec_parse_factor(s@, pos as int)),
    decreases s@.len() - pos, 1int,
{
    let len = s.unicode_len();
    if pos < len {
        let c = s.get_char(pos);
        let d = c as u32;
        if 48 <= d && d <= 57 {
            match constant_val_parser(s, pos) {
                Err(f) => Err(f),
                Ok((c, p)) => Ok((Expr::ConstantVal(c), p)),
            }
        } else {
            paren_expr_parser(s, pos)
        }
    } else {
        paren_expr_parser(s, pos)
    }
}

/// Parser for the parenthesized alternative of `factor`.
pub fn paren_expr_parser(s: &str, pos: usize) -> (r: Result<(Expr, usize), ParseFailure>)
    requires
        pos <= s@.len(),
    ensures
        parse_result_matches(r, spec_parse_paren(s@, pos as int)),
    decreases s@.len() - pos, 0int,
{
    let len = s.unicode_len();
    if pos < len {
        let c = s.get_char(pos);
        if c == '(' {
            match expr_parser(s, pos + 1) {
                Err(f) => Err(f),
                Ok((e, p)) => {
                    proof {
                        lemma_expr_progress(s@, pos + 1);
                    }
                    if p < len {
                        let c2 = s.get_char(p);
                        if c2 == ')' {
                            Ok((e, p + 1))
                        } else {
                            Err(ParseFailure::UnclosedParen { at: p })
                        }
                    } else {
                        Err(ParseFailure::UnclosedParen { at: p })
                    }
                },
            }
        } else {
            Err(ParseFailure::UnexpectedToken { at: pos })
        }
    } else {
        Err(ParseFailure::UnexpectedEnd { at: pos })
    }
}

/// Parser for the `constant` rule: the longest run of digits starting at
/// `pos`, read as a non-negative `i32`.
pub fn constant_val_parser(s: &str, pos: usize) -> (r: Result<(ConstantVal, usize), ParseFailure>)
    requires
        pos <= s@.len(),
    ensures
        parse_result_matches(r, spec_parse_constant(s@, pos as int)),
{
    let len = s.unicode_len();
    let mut end = pos;
    loop
        invariant
            pos <= end <= len,
            len == s@.len(),
            digit_run_end(s@, pos as int) == digit_run_end(s@, end as int),
            forall|i: int| pos <= i < end ==> is_digit_char(s@[i]),
        ensures
            pos <= end <= len,
            len == s@.len(),
            digit_run_end(s@, pos as int) == end,
            forall|i: int| pos <= i < end ==> is_digit_char(s@[i]),
        decreases len - end,
    {
        if end >= len {
            break;
        }
        let c = s.get_char(end);
        let d = c as u32;
        if !(48 <= d && d <= 57) {
            break;
        }
        end = end + 1;
    }
    if end == pos {
        if pos >= len {
            Err(ParseFailure::UnexpectedEnd { at: pos })
        } else {
            Err(ParseFailure::UnexpectedToken { at: pos })
        }
    } else {
        let mut acc: u64 = 0;
        let mut i = pos;
        while i < end
            invariant
                pos <= i <= end <= len,
                len == s@.len(),
                digit_run_end(s@, pos as int) == end as int,
                forall|j: int| pos <= j < end ==> is_digit_char(s@[j]),
                acc as int == digits_val(s@, pos as int, i as int),
                acc <= i32::MAX,
            decreases end - i,
        {
            let c = s.get_char(i);
            let d: u64 = (c as u32) as u64;
            proof {
                lemma_digits_val_nonneg(s@, pos as int, i as int);
            }
            let next: u64 = acc * 10 + (d - 48);
            i = i + 1;
            if next > 2147483647 {
                proof {
                    lemma_digits_val_monotone(s@, pos as int, i as int, end as int);
                }
                return Err(ParseFailure::LiteralOverflow { at: pos });
            }
            acc = next;
        }
        Ok((ConstantVal::new(acc as i32), end))
    }
}

} // verus!
