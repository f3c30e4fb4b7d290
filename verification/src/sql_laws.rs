//! Laws of the language itself: what the comparison, arithmetic and
//! logical operators compute, which rows a query returns, which operator
//! each token of the grammar stands for and how tightly it binds, how
//! literals are read back, and how words are read without regard to ASCII
//! case.

use vstd::prelude::*;
use crate::database::{database_valid, table_valid, SpecDatabase};
use crate::error::SpecBackendError;
use crate::evaluation::{eval, eval_binary, int_to_float, lemma_text_compare_equal, text_compare, SpecScope};
use crate::executor::{
    check_select, find_table, lemma_find_table, scan_rows, select, select_row, spec_expression_label, spec_project_row,
    spec_projection_columns,
};
use crate::expr::{BinaryOp, SpecExpr, SpecExprKind, SpecValue, UnaryOp};
use crate::float::{is_nan, order_key};
use crate::laws::lemma_key_lookup_agrees_with_scan;
use crate::lexer::{
    all_digits, digits_end, has_float_marker, lex_from, number_end, number_token, spanned, spec_parse_i64, spec_tokenize,
    string_body, word_token, FloatModel, SpecLexError,
};
use crate::parser::{
    additive_rest, and_rest, binary, data_type_of, multiplicative_rest, or_rest, parse_additive, parse_and,
    parse_comparison, parse_expr, parse_multiplicative, parse_or, parse_primary, parse_unary, literal_value, tok, SpecParseError,
    Tokens,
};
use crate::span::Span;
use crate::statement::{DataType, SpecColumn, SpecSelect, SpecSelectItem};
use crate::text::{
    digit_char, digits_value, eq_ignore_case, is_digit, lemma_eq_ignore_case_upper, lemma_upper_form, nat_text,
};
use crate::token::{Keyword, SpecSpanned, SpecToken};

verus! {

// ---------------------------------------------------------------------------
// Comparisons.

/// Text order is antisymmetric: swapping the operands negates the order.
proof fn lemma_text_compare_swap(a: Seq<char>, b: Seq<char>)
    ensures
        text_compare(a, b) == -text_compare(b, a),
        -1 <= text_compare(a, b) <= 1,
    decreases a.len(),
{
    if a.len() > 0 && b.len() > 0 && (a[0] as u32) == (b[0] as u32) {
        lemma_text_compare_swap(a.drop_first(), b.drop_first());
    }
}

/// Comparing two integers gives the Boolean of the same relation between the
/// two numbers: `a > b` is TRUE exactly when `a` is greater than `b`, and so
/// on for each comparison operator.
pub proof fn lemma_integer_comparisons(left: SpecExpr, right: SpecExpr, a: i64, b: i64, scope: SpecScope, fl: FloatModel)
    requires
        eval(left, scope, fl) == Ok::<SpecValue, SpecBackendError>(SpecValue::Integer(a)),
        eval(right, scope, fl) == Ok::<SpecValue, SpecBackendError>(SpecValue::Integer(b)),
    ensures
        eval(binary(left, BinaryOp::Equal, right), scope, fl) == Ok::<SpecValue, SpecBackendError>(SpecValue::Boolean(a == b)),
        eval(binary(left, BinaryOp::NotEqual, right), scope, fl) == Ok::<SpecValue, SpecBackendError>(SpecValue::Boolean(a != b)),
        eval(binary(left, BinaryOp::LessThan, right), scope, fl) == Ok::<SpecValue, SpecBackendError>(SpecValue::Boolean(a < b)),
        eval(binary(left, BinaryOp::LessThanOrEqual, right), scope, fl) == Ok::<SpecValue, SpecBackendError>(SpecValue::Boolean(a <= b)),
        eval(binary(left, BinaryOp::GreaterThan, right), scope, fl) == Ok::<SpecValue, SpecBackendError>(SpecValue::Boolean(a > b)),
        eval(binary(left, BinaryOp::GreaterThanOrEqual, right), scope, fl) == Ok::<SpecValue, SpecBackendError>(SpecValue::Boolean(a >= b)),
{
}

/// Comparing two non-NaN floats gives the Boolean of the same relation
/// between the two numbers (both zeros are equal).
pub proof fn lemma_float_comparisons(left: SpecExpr, right: SpecExpr, a: u64, b: u64, scope: SpecScope, fl: FloatModel)
    requires
        eval(left, scope, fl) == Ok::<SpecValue, SpecBackendError>(SpecValue::Float(a)),
        eval(right, scope, fl) == Ok::<SpecValue, SpecBackendError>(SpecValue::Float(b)),
        !is_nan(a),
        !is_nan(b),
    ensures
        eval(binary(left, BinaryOp::Equal, right), scope, fl) == Ok::<SpecValue, SpecBackendError>(SpecValue::Boolean(order_key(a) == order_key(b))),
        eval(binary(left, BinaryOp::NotEqual, right), scope, fl) == Ok::<SpecValue, SpecBackendError>(SpecValue::Boolean(order_key(a) != order_key(b))),
        eval(binary(left, BinaryOp::LessThan, right), scope, fl) == Ok::<SpecValue, SpecBackendError>(SpecValue::Boolean(order_key(a) < order_key(b))),
        eval(binary(left, BinaryOp::LessThanOrEqual, right), scope, fl) == Ok::<SpecValue, SpecBackendError>(SpecValue::Boolean(order_key(a) <= order_key(b))),
        eval(binary(left, BinaryOp::GreaterThan, right), scope, fl) == Ok::<SpecValue, SpecBackendError>(SpecValue::Boolean(order_key(a) > order_key(b))),
        eval(binary(left, BinaryOp::GreaterThanOrEqual, right), scope, fl) == Ok::<SpecValue, SpecBackendError>(SpecValue::Boolean(order_key(a) >= order_key(b))),
{
}

/// Comparing two texts: `=` and `<>` test equality; `a > b` is `b < a`;
/// exactly one of `a < b`, `a = b`, `a > b` holds; `<=` and `>=` are the
/// strict comparisons or equality.
pub proof fn lemma_text_comparisons(left: SpecExpr, right: SpecExpr, a: Seq<char>, b: Seq<char>, scope: SpecScope, fl: FloatModel)
    requires
        eval(left, scope, fl) == Ok::<SpecValue, SpecBackendError>(SpecValue::String(a)),
        eval(right, scope, fl) == Ok::<SpecValue, SpecBackendError>(SpecValue::String(b)),
    ensures
        ({
            let less = eval(binary(left, BinaryOp::LessThan, right), scope, fl);
            let greater = eval(binary(left, BinaryOp::GreaterThan, right), scope, fl);
            let converse = eval(binary(right, BinaryOp::LessThan, left), scope, fl);
            &&& eval(binary(left, BinaryOp::Equal, right), scope, fl) == Ok::<SpecValue, SpecBackendError>(SpecValue::Boolean(a == b))
            &&& eval(binary(left, BinaryOp::NotEqual, right), scope, fl) == Ok::<SpecValue, SpecBackendError>(SpecValue::Boolean(a != b))
            &&& less matches Ok(SpecValue::Boolean(lt))
            &&& greater == converse
            &&& greater matches Ok(SpecValue::Boolean(gt))
            &&& !(lt && gt)
            &&& (a == b ==> !lt && !gt)
            &&& (a != b ==> lt || gt)
            &&& eval(binary(left, BinaryOp::LessThanOrEqual, right), scope, fl) == Ok::<SpecValue, SpecBackendError>(SpecValue::Boolean(lt || a == b))
            &&& eval(binary(left, BinaryOp::GreaterThanOrEqual, right), scope, fl) == Ok::<SpecValue, SpecBackendError>(SpecValue::Boolean(gt || a == b))
        }),
{
    lemma_text_compare_equal(a, b);
    lemma_text_compare_swap(a, b);
}

/// No value is greater or less than itself: for every value `v`, `v > v`
/// and `v < v` are never TRUE, and for an integer or a text they are FALSE
/// while `v = v`, `v <= v` and `v >= v` are TRUE.
pub proof fn lemma_comparison_irreflexive(e: SpecExpr, v: SpecValue, scope: SpecScope, fl: FloatModel)
    requires
        eval(e, scope, fl) == Ok::<SpecValue, SpecBackendError>(v),
    ensures
        eval(binary(e, BinaryOp::GreaterThan, e), scope, fl) != Ok::<SpecValue, SpecBackendError>(SpecValue::Boolean(true)),
        eval(binary(e, BinaryOp::LessThan, e), scope, fl) != Ok::<SpecValue, SpecBackendError>(SpecValue::Boolean(true)),
        v is Integer || v is String ==> {
            &&& eval(binary(e, BinaryOp::GreaterThan, e), scope, fl) == Ok::<SpecValue, SpecBackendError>(SpecValue::Boolean(false))
            &&& eval(binary(e, BinaryOp::LessThan, e), scope, fl) == Ok::<SpecValue, SpecBackendError>(SpecValue::Boolean(false))
            &&& eval(binary(e, BinaryOp::Equal, e), scope, fl) == Ok::<SpecValue, SpecBackendError>(SpecValue::Boolean(true))
            &&& eval(binary(e, BinaryOp::LessThanOrEqual, e), scope, fl) == Ok::<SpecValue, SpecBackendError>(SpecValue::Boolean(true))
            &&& eval(binary(e, BinaryOp::GreaterThanOrEqual, e), scope, fl) == Ok::<SpecValue, SpecBackendError>(SpecValue::Boolean(true))
        },
{
    if let SpecValue::String(s) = v {
        lemma_text_compare_equal(s, s);
    }
}

/// An integer compared with a float is compared as the float the host
/// converts it to: each comparison gives what it gives on the two floats.
pub proof fn lemma_mixed_comparisons(a: i64, b: u64, x: u64, fl: FloatModel)
    requires
        int_to_float(a, fl) == Some(x),
    ensures
        forall|op: BinaryOp|
            (op is Equal || op is NotEqual || op is LessThan || op is LessThanOrEqual || op is GreaterThan
                || op is GreaterThanOrEqual) ==> {
                &&& #[trigger] eval_binary(SpecValue::Integer(a), op, SpecValue::Float(b), fl) == eval_binary(
                    SpecValue::Float(x),
                    op,
                    SpecValue::Float(b),
                    fl,
                )
                &&& eval_binary(SpecValue::Float(b), op, SpecValue::Integer(a), fl) == eval_binary(
                    SpecValue::Float(b),
                    op,
                    SpecValue::Float(x),
                    fl,
                )
            },
{
}

/// Booleans compare for equality only: `=` and `<>` test whether the two
/// truth values are the same, and the order comparisons are errors.
pub proof fn lemma_boolean_comparisons(left: SpecExpr, right: SpecExpr, a: bool, b: bool, scope: SpecScope, fl: FloatModel)
    requires
        eval(left, scope, fl) == Ok::<SpecValue, SpecBackendError>(SpecValue::Boolean(a)),
        eval(right, scope, fl) == Ok::<SpecValue, SpecBackendError>(SpecValue::Boolean(b)),
    ensures
        eval(binary(left, BinaryOp::Equal, right), scope, fl) == Ok::<SpecValue, SpecBackendError>(SpecValue::Boolean(a == b)),
        eval(binary(left, BinaryOp::NotEqual, right), scope, fl) == Ok::<SpecValue, SpecBackendError>(SpecValue::Boolean(a != b)),
        eval(binary(left, BinaryOp::LessThan, right), scope, fl) is Err,
        eval(binary(left, BinaryOp::LessThanOrEqual, right), scope, fl) is Err,
        eval(binary(left, BinaryOp::GreaterThan, right), scope, fl) is Err,
        eval(binary(left, BinaryOp::GreaterThanOrEqual, right), scope, fl) is Err,
{
}

/// A comparison or an arithmetic operation with a NULL operand gives NULL,
/// whatever the other operand is.
pub proof fn lemma_null_operand(left: SpecExpr, right: SpecExpr, x: SpecValue, y: SpecValue, scope: SpecScope, fl: FloatModel)
    requires
        eval(left, scope, fl) == Ok::<SpecValue, SpecBackendError>(x),
        eval(right, scope, fl) == Ok::<SpecValue, SpecBackendError>(y),
        x is Null || y is Null,
    ensures
        forall|op: BinaryOp|
            !(op is And || op is Or) ==> #[trigger] eval(binary(left, op, right), scope, fl) == Ok::<SpecValue, SpecBackendError>(
                SpecValue::Null,
            ),
{
    assert forall|op: BinaryOp| !(op is And || op is Or) implies #[trigger] eval(binary(left, op, right), scope, fl)
        == Ok::<SpecValue, SpecBackendError>(SpecValue::Null) by {
        assert(eval(binary(left, op, right), scope, fl) == eval_binary(x, op, y, fl));
    };
}

// ---------------------------------------------------------------------------
// Integer arithmetic.

/// The result of an integer operation whose exact value is `v`: that value
/// when it fits in 64 bits, else the overflow error.
pub open spec fn integer_result(v: int) -> Result<SpecValue, SpecBackendError> {
    if i64::MIN <= v <= i64::MAX {
        Ok(SpecValue::Integer(v as i64))
    } else {
        Err(SpecBackendError::Execution("integer arithmetic overflow"@))
    }
}

/// Rust's truncating division of integers, as the pair (quotient, remainder)
/// satisfies it: `a == q * b + r`, the remainder is smaller than the divisor
/// in magnitude and is zero or has the sign of `a`.
pub open spec fn truncated_division(a: int, b: int, q: int, r: int) -> bool {
    &&& a == q * b + r
    &&& (if b > 0 { -b < r < b } else { b < r < -b })
    &&& (r == 0 || (r < 0) == (a < 0))
}

proof fn lemma_truncated_division(a: i64, b: i64)
    requires
        b != 0,
        !(a == i64::MIN && b == -1),
    ensures
        a.checked_div(b) matches Some(q) && a.checked_rem(b) matches Some(r) && truncated_division(a as int, b as int, q as int, r as int),
{
    let x = a as int;
    let d = b as int;
    if x == 0 {
    } else if x > 0 && d > 0 {
        vstd::arithmetic::div_mod::lemma_fundamental_div_mod(x, d);
        vstd::arithmetic::div_mod::lemma_mod_pos_bound(x, d);
        vstd::arithmetic::div_mod::lemma_div_pos_is_pos(x, d);
        vstd::arithmetic::div_mod::lemma_div_nonincreasing(x, d);
        assert(x == (x / d) * d + x % d) by (nonlinear_arith)
            requires x == d * (x / d) + (x % d);
    } else if x < 0 && d < 0 {
        let (nx, nd) = (x * -1, d * -1);
        vstd::arithmetic::div_mod::lemma_fundamental_div_mod(nx, nd);
        vstd::arithmetic::div_mod::lemma_mod_pos_bound(nx, nd);
        vstd::arithmetic::div_mod::lemma_div_pos_is_pos(nx, nd);
        vstd::arithmetic::div_mod::lemma_div_nonincreasing(nx, nd);
        if nd > 1 {
            vstd::arithmetic::div_mod::lemma_div_decreases(nx, nd);
        } else {
            assert(nx / 1 == nx) by (nonlinear_arith);
        }
        assert(x == (nx / nd) * d + (nx % nd) * -1) by (nonlinear_arith)
            requires nx == nd * (nx / nd) + (nx % nd), nx == x * -1, nd == d * -1;
    } else if x < 0 {
        let nx = x * -1;
        vstd::arithmetic::div_mod::lemma_fundamental_div_mod(nx, d);
        vstd::arithmetic::div_mod::lemma_mod_pos_bound(nx, d);
        vstd::arithmetic::div_mod::lemma_div_pos_is_pos(nx, d);
        vstd::arithmetic::div_mod::lemma_div_nonincreasing(nx, d);
        assert(x == ((nx / d) * -1) * d + (nx % d) * -1) by (nonlinear_arith)
            requires nx == d * (nx / d) + (nx % d), nx == x * -1;
    } else {
        let nd = d * -1;
        vstd::arithmetic::div_mod::lemma_fundamental_div_mod(x, nd);
        vstd::arithmetic::div_mod::lemma_mod_pos_bound(x, nd);
        vstd::arithmetic::div_mod::lemma_div_pos_is_pos(x, nd);
        vstd::arithmetic::div_mod::lemma_div_nonincreasing(x, nd);
        assert(x == ((x / nd) * -1) * d + x % nd) by (nonlinear_arith)
            requires x == nd * (x / nd) + (x % nd), nd == d * -1;
    }
}

/// Integer `+`, `-` and `*` give the exact sum, difference (left minus
/// right) and product when it fits in 64 bits, and the overflow error
/// otherwise. `/` and `%` by zero give the division-by-zero error; otherwise
/// they give Rust's truncating quotient and remainder, except that
/// `i64::MIN / -1` and `i64::MIN % -1` overflow.
pub proof fn lemma_integer_arithmetic(left: SpecExpr, right: SpecExpr, a: i64, b: i64, scope: SpecScope, fl: FloatModel)
    requires
        eval(left, scope, fl) == Ok::<SpecValue, SpecBackendError>(SpecValue::Integer(a)),
        eval(right, scope, fl) == Ok::<SpecValue, SpecBackendError>(SpecValue::Integer(b)),
    ensures
        eval(binary(left, BinaryOp::Add, right), scope, fl) == integer_result(a + b),
        eval(binary(left, BinaryOp::Subtract, right), scope, fl) == integer_result(a - b),
        eval(binary(left, BinaryOp::Multiply, right), scope, fl) == integer_result(a * b),
        b == 0 ==> eval(binary(left, BinaryOp::Divide, right), scope, fl) == Err::<SpecValue, SpecBackendError>(
            SpecBackendError::Execution("division by zero"@),
        ),
        b == 0 ==> eval(binary(left, BinaryOp::Modulo, right), scope, fl) == Err::<SpecValue, SpecBackendError>(
            SpecBackendError::Execution("division by zero"@),
        ),
        a == i64::MIN && b == -1 ==> eval(binary(left, BinaryOp::Divide, right), scope, fl) == Err::<SpecValue, SpecBackendError>(
            SpecBackendError::Execution("integer arithmetic overflow"@),
        ),
        a == i64::MIN && b == -1 ==> eval(binary(left, BinaryOp::Modulo, right), scope, fl) == Err::<SpecValue, SpecBackendError>(
            SpecBackendError::Execution("integer arithmetic overflow"@),
        ),
        b != 0 && !(a == i64::MIN && b == -1) ==> {
            &&& eval(binary(left, BinaryOp::Divide, right), scope, fl) matches Ok(SpecValue::Integer(q))
            &&& eval(binary(left, BinaryOp::Modulo, right), scope, fl) matches Ok(SpecValue::Integer(r))
            &&& truncated_division(a as int, b as int, q as int, r as int)
        },
{
    if b != 0 && !(a == i64::MIN && b == -1) {
        lemma_truncated_division(a, b);
    }
    assert(a * b > i64::MAX || a * b < i64::MIN || i64::MIN <= a * b <= i64::MAX);
}

// ---------------------------------------------------------------------------
// Projection.

/// A select list of expressions projects a row to the expressions' values,
/// in select-list order, and names the result columns in the same order,
/// each by its alias where it has one (else by the expression's label),
/// provided each expression evaluates on the row.
pub proof fn lemma_expression_projection(items: Seq<SpecSelectItem>, row: Seq<SpecValue>, cols: Seq<SpecColumn>, fl: FloatModel)
    requires
        forall|i: int| 0 <= i < items.len() ==> (#[trigger] items[i]) is Expression,
        forall|i: int| 0 <= i < items.len() ==> eval(
            (#[trigger] items[i])->expr,
            SpecScope::Row { values: row, columns: cols },
            fl,
        ) is Ok,
    ensures
        spec_project_row(items, row, cols, fl) == Ok::<Seq<SpecValue>, SpecBackendError>(
            Seq::new(items.len(), |i: int| eval(items[i]->expr, SpecScope::Row { values: row, columns: cols }, fl)->Ok_0),
        ),
        spec_projection_columns(items, cols) == Seq::new(
            items.len(),
            |i: int|
                match items[i]->alias {
                    Some(a) => a,
                    None => spec_expression_label(items[i]->expr),
                },
        ),
    decreases items.len(),
{
    if items.len() > 0 {
        let front = items.drop_last();
        assert forall|i: int| 0 <= i < front.len() implies (#[trigger] front[i]) is Expression && eval(
            front[i]->expr,
            SpecScope::Row { values: row, columns: cols },
            fl,
        ) is Ok by {
            assert(front[i] == items[i]);
        };
        lemma_expression_projection(front, row, cols, fl);
        let n = items.len() - 1;
        assert(items.last() == items[n]);
        assert(items[n] is Expression);
        assert(eval(items[n]->expr, SpecScope::Row { values: row, columns: cols }, fl) is Ok);
        assert(Seq::new(front.len(), |i: int| eval(front[i]->expr, SpecScope::Row { values: row, columns: cols }, fl)->Ok_0).push(
            eval(items[n]->expr, SpecScope::Row { values: row, columns: cols }, fl)->Ok_0,
        ) =~= Seq::new(items.len(), |i: int| eval(items[i]->expr, SpecScope::Row { values: row, columns: cols }, fl)->Ok_0));
        assert(Seq::new(
            front.len(),
            |i: int|
                match front[i]->alias {
                    Some(a) => a,
                    None => spec_expression_label(front[i]->expr),
                },
        ) + seq![
            match items[n]->alias {
                Some(a) => a,
                None => spec_expression_label(items[n]->expr),
            },
        ] =~= Seq::new(
            items.len(),
            |i: int|
                match items[i]->alias {
                    Some(a) => a,
                    None => spec_expression_label(items[i]->expr),
                },
        ));
    } else {
        assert(Seq::new(items.len(), |i: int| eval(items[i]->expr, SpecScope::Row { values: row, columns: cols }, fl)->Ok_0)
            =~= Seq::<SpecValue>::empty());
    }
}

// ---------------------------------------------------------------------------
// The grammar's operators.

/// At the last position (`Eof`), no operator follows: each level of the
/// grammar gives back the expression it was handed.
proof fn lemma_nothing_follows(ts: Tokens, q: int, e: SpecExpr, fl: FloatModel)
    requires
        0 <= q,
        ts.len() == q + 1,
        tok(ts, q) is Eof,
    ensures
        multiplicative_rest(ts, q, e, fl) == Ok::<(SpecExpr, int), SpecParseError>((e, q)),
        additive_rest(ts, q, e, fl) == Ok::<(SpecExpr, int), SpecParseError>((e, q)),
        and_rest(ts, q, e, fl) == Ok::<(SpecExpr, int), SpecParseError>((e, q)),
        or_rest(ts, q, e, fl) == Ok::<(SpecExpr, int), SpecParseError>((e, q)),
{
}

/// Between two integer literals that end the input, each operator token is
/// read as its own operator: `+` as addition, `-` as subtraction, `*` as
/// multiplication, `/` as division, `%` as remainder, each comparison token
/// as that comparison, and AND / OR as the logical operators.
pub proof fn lemma_operator_tokens(ts: Tokens, p: int, a: i64, t: SpecToken, b: i64, fl: FloatModel)
    requires
        0 <= p,
        ts.len() == p + 4,
        tok(ts, p) == SpecToken::Integer(a),
        tok(ts, p + 1) == t,
        tok(ts, p + 2) == SpecToken::Integer(b),
        tok(ts, p + 3) is Eof,
    ensures
        ({
            let l = SpecExpr { kind: SpecExprKind::Literal(SpecValue::Integer(a)), span: ts[p].span };
            let r = SpecExpr { kind: SpecExprKind::Literal(SpecValue::Integer(b)), span: ts[p + 2].span };
            let parsed = parse_expr(ts, p, fl);
            &&& t is Plus ==> parsed == Ok::<(SpecExpr, int), SpecParseError>((binary(l, BinaryOp::Add, r), p + 3))
            &&& t is Minus ==> parsed == Ok::<(SpecExpr, int), SpecParseError>((binary(l, BinaryOp::Subtract, r), p + 3))
            &&& t is Star ==> parsed == Ok::<(SpecExpr, int), SpecParseError>((binary(l, BinaryOp::Multiply, r), p + 3))
            &&& t is Slash ==> parsed == Ok::<(SpecExpr, int), SpecParseError>((binary(l, BinaryOp::Divide, r), p + 3))
            &&& t is Percent ==> parsed == Ok::<(SpecExpr, int), SpecParseError>((binary(l, BinaryOp::Modulo, r), p + 3))
            &&& t is Equal ==> parsed == Ok::<(SpecExpr, int), SpecParseError>((binary(l, BinaryOp::Equal, r), p + 3))
            &&& t is NotEqual ==> parsed == Ok::<(SpecExpr, int), SpecParseError>((binary(l, BinaryOp::NotEqual, r), p + 3))
            &&& t is LessThan ==> parsed == Ok::<(SpecExpr, int), SpecParseError>((binary(l, BinaryOp::LessThan, r), p + 3))
            &&& t is LessThanOrEqual ==> parsed == Ok::<(SpecExpr, int), SpecParseError>(
                (binary(l, BinaryOp::LessThanOrEqual, r), p + 3),
            )
            &&& t is GreaterThan ==> parsed == Ok::<(SpecExpr, int), SpecParseError>((binary(l, BinaryOp::GreaterThan, r), p + 3))
            &&& t is GreaterThanOrEqual ==> parsed == Ok::<(SpecExpr, int), SpecParseError>(
                (binary(l, BinaryOp::GreaterThanOrEqual, r), p + 3),
            )
            &&& t is And ==> parsed == Ok::<(SpecExpr, int), SpecParseError>((binary(l, BinaryOp::And, r), p + 3))
            &&& t is Or ==> parsed == Ok::<(SpecExpr, int), SpecParseError>((binary(l, BinaryOp::Or, r), p + 3))
        }),
{
    let l = SpecExpr { kind: SpecExprKind::Literal(SpecValue::Integer(a)), span: ts[p].span };
    let r = SpecExpr { kind: SpecExprKind::Literal(SpecValue::Integer(b)), span: ts[p + 2].span };
    let q = p + 3;
    lemma_literal_operand(ts, p, fl);
    lemma_literal_operand(ts, p + 2, fl);
    lemma_nothing_follows(ts, q, r, fl);
    assert(parse_multiplicative(ts, p + 2, fl) == Ok::<(SpecExpr, int), SpecParseError>((r, q)));
    assert(parse_additive(ts, p + 2, fl) == Ok::<(SpecExpr, int), SpecParseError>((r, q)));
    assert(parse_comparison(ts, p + 2, fl) == Ok::<(SpecExpr, int), SpecParseError>((r, q)));
    assert(parse_and(ts, p + 2, fl) == Ok::<(SpecExpr, int), SpecParseError>((r, q)));
    if t is Star || t is Slash || t is Percent || t is Plus || t is Minus || t is Equal || t is NotEqual || t is LessThan
        || t is LessThanOrEqual || t is GreaterThan || t is GreaterThanOrEqual || t is And || t is Or {
        let op = if t is Star {
            BinaryOp::Multiply
        } else if t is Slash {
            BinaryOp::Divide
        } else if t is Percent {
            BinaryOp::Modulo
        } else if t is Plus {
            BinaryOp::Add
        } else if t is Minus {
            BinaryOp::Subtract
        } else if t is Equal {
            BinaryOp::Equal
        } else if t is NotEqual {
            BinaryOp::NotEqual
        } else if t is LessThan {
            BinaryOp::LessThan
        } else if t is LessThanOrEqual {
            BinaryOp::LessThanOrEqual
        } else if t is GreaterThan {
            BinaryOp::GreaterThan
        } else if t is GreaterThanOrEqual {
            BinaryOp::GreaterThanOrEqual
        } else if t is And {
            BinaryOp::And
        } else {
            BinaryOp::Or
        };
        let e = binary(l, op, r);
        lemma_nothing_follows(ts, q, e, fl);
        if t is Star || t is Slash || t is Percent {
            assert(multiplicative_rest(ts, p + 1, l, fl) == Ok::<(SpecExpr, int), SpecParseError>((e, q)));
            assert(parse_multiplicative(ts, p, fl) == Ok::<(SpecExpr, int), SpecParseError>((e, q)));
            assert(parse_additive(ts, p, fl) == Ok::<(SpecExpr, int), SpecParseError>((e, q)));
            assert(parse_comparison(ts, p, fl) == Ok::<(SpecExpr, int), SpecParseError>((e, q)));
        } else {
            assert(multiplicative_rest(ts, p + 1, l, fl) == Ok::<(SpecExpr, int), SpecParseError>((l, p + 1)));
            assert(parse_multiplicative(ts, p, fl) == Ok::<(SpecExpr, int), SpecParseError>((l, p + 1)));
            if t is Plus || t is Minus {
                assert(additive_rest(ts, p + 1, l, fl) == Ok::<(SpecExpr, int), SpecParseError>((e, q)));
                assert(parse_additive(ts, p, fl) == Ok::<(SpecExpr, int), SpecParseError>((e, q)));
                assert(parse_comparison(ts, p, fl) == Ok::<(SpecExpr, int), SpecParseError>((e, q)));
            } else {
                assert(additive_rest(ts, p + 1, l, fl) == Ok::<(SpecExpr, int), SpecParseError>((l, p + 1)));
                assert(parse_additive(ts, p, fl) == Ok::<(SpecExpr, int), SpecParseError>((l, p + 1)));
                if t is And || t is Or {
                    assert(parse_comparison(ts, p, fl) == Ok::<(SpecExpr, int), SpecParseError>((l, p + 1)));
                } else {
                    assert(parse_comparison(ts, p, fl) == Ok::<(SpecExpr, int), SpecParseError>((e, q)));
                }
            }
        }
        if t is Or {
            assert(and_rest(ts, p + 1, l, fl) == Ok::<(SpecExpr, int), SpecParseError>((l, p + 1)));
            assert(parse_and(ts, p, fl) == Ok::<(SpecExpr, int), SpecParseError>((l, p + 1)));
            assert(or_rest(ts, p + 1, l, fl) == Ok::<(SpecExpr, int), SpecParseError>((e, q)));
        } else if t is And {
            assert(and_rest(ts, p + 1, l, fl) == Ok::<(SpecExpr, int), SpecParseError>((e, q)));
            assert(parse_and(ts, p, fl) == Ok::<(SpecExpr, int), SpecParseError>((e, q)));
        } else {
            assert(parse_and(ts, p, fl) == Ok::<(SpecExpr, int), SpecParseError>((e, q)));
        }
        assert(parse_or(ts, p, fl) == Ok::<(SpecExpr, int), SpecParseError>((e, q)));
        assert(parse_expr(ts, p, fl) == Ok::<(SpecExpr, int), SpecParseError>((e, q)));
    }
}

/// A prefix operator before a literal that ends the input is read as its
/// own unary operator: `-` as negation, `+` as identity and NOT as logical
/// negation.
pub proof fn lemma_prefix_operator_tokens(ts: Tokens, p: int, t: SpecToken, fl: FloatModel)
    requires
        0 <= p,
        ts.len() == p + 3,
        tok(ts, p) == t,
        literal_value(tok(ts, p + 1)) is Some,
        tok(ts, p + 2) is Eof,
    ensures
        ({
            let l = SpecExpr { kind: SpecExprKind::Literal(literal_value(tok(ts, p + 1))->Some_0), span: ts[p + 1].span };
            let parsed = parse_expr(ts, p, fl);
            let span = ts[p].span.spec_merge(l.span);
            &&& t is Minus ==> parsed == Ok::<(SpecExpr, int), SpecParseError>((unary(UnaryOp::Minus, l, span), p + 2))
            &&& t is Plus ==> parsed == Ok::<(SpecExpr, int), SpecParseError>((unary(UnaryOp::Plus, l, span), p + 2))
            &&& t is Not ==> parsed == Ok::<(SpecExpr, int), SpecParseError>((unary(UnaryOp::Not, l, span), p + 2))
        }),
{
    let l = SpecExpr { kind: SpecExprKind::Literal(literal_value(tok(ts, p + 1))->Some_0), span: ts[p + 1].span };
    let span = ts[p].span.spec_merge(l.span);
    let q = p + 2;
    lemma_literal_operand(ts, p + 1, fl);
    if t is Minus || t is Plus || t is Not {
        let op = if t is Minus {
            UnaryOp::Minus
        } else if t is Plus {
            UnaryOp::Plus
        } else {
            UnaryOp::Not
        };
        let e = unary(op, l, span);
        assert(parse_unary(ts, p, fl) == Ok::<(SpecExpr, int), SpecParseError>((e, q)));
        lemma_nothing_follows(ts, q, e, fl);
        assert(parse_multiplicative(ts, p, fl) == Ok::<(SpecExpr, int), SpecParseError>((e, q)));
        assert(parse_additive(ts, p, fl) == Ok::<(SpecExpr, int), SpecParseError>((e, q)));
        assert(parse_comparison(ts, p, fl) == Ok::<(SpecExpr, int), SpecParseError>((e, q)));
        assert(parse_and(ts, p, fl) == Ok::<(SpecExpr, int), SpecParseError>((e, q)));
        assert(parse_or(ts, p, fl) == Ok::<(SpecExpr, int), SpecParseError>((e, q)));
    }
}

/// The arithmetic operator an operator token stands for.
pub open spec fn arithmetic_token(t: SpecToken) -> Option<BinaryOp> {
    match t {
        SpecToken::Plus => Some(BinaryOp::Add),
        SpecToken::Minus => Some(BinaryOp::Subtract),
        SpecToken::Star => Some(BinaryOp::Multiply),
        SpecToken::Slash => Some(BinaryOp::Divide),
        SpecToken::Percent => Some(BinaryOp::Modulo),
        _ => None,
    }
}

/// `*`, `/` and `%` bind tighter than `+` and `-`.
pub open spec fn binds_tighter(t: SpecToken) -> bool {
    t is Star || t is Slash || t is Percent
}

/// In `a op1 b op2 c` with arithmetic operators, `*`, `/` and `%` bind
/// tighter than `+` and `-`, and operators of the same level group to the
/// left: the input reads as `a op1 (b op2 c)` exactly when `op2` binds
/// tighter than `op1`, and as `(a op1 b) op2 c` otherwise.
pub proof fn lemma_arithmetic_precedence(ts: Tokens, p: int, a: i64, t1: SpecToken, b: i64, t2: SpecToken, c: i64, fl: FloatModel)
    requires
        0 <= p,
        ts.len() == p + 6,
        tok(ts, p) == SpecToken::Integer(a),
        tok(ts, p + 1) == t1,
        tok(ts, p + 2) == SpecToken::Integer(b),
        tok(ts, p + 3) == t2,
        tok(ts, p + 4) == SpecToken::Integer(c),
        tok(ts, p + 5) is Eof,
        arithmetic_token(t1) is Some,
        arithmetic_token(t2) is Some,
    ensures
        ({
            let la = SpecExpr { kind: SpecExprKind::Literal(SpecValue::Integer(a)), span: ts[p].span };
            let lb = SpecExpr { kind: SpecExprKind::Literal(SpecValue::Integer(b)), span: ts[p + 2].span };
            let lc = SpecExpr { kind: SpecExprKind::Literal(SpecValue::Integer(c)), span: ts[p + 4].span };
            let op1 = arithmetic_token(t1)->Some_0;
            let op2 = arithmetic_token(t2)->Some_0;
            parse_expr(ts, p, fl) == Ok::<(SpecExpr, int), SpecParseError>((
                if !binds_tighter(t1) && binds_tighter(t2) {
                    binary(la, op1, binary(lb, op2, lc))
                } else {
                    binary(binary(la, op1, lb), op2, lc)
                },
                p + 5,
            ))
        }),
{
    let la = SpecExpr { kind: SpecExprKind::Literal(SpecValue::Integer(a)), span: ts[p].span };
    let lb = SpecExpr { kind: SpecExprKind::Literal(SpecValue::Integer(b)), span: ts[p + 2].span };
    let lc = SpecExpr { kind: SpecExprKind::Literal(SpecValue::Integer(c)), span: ts[p + 4].span };
    let op1 = arithmetic_token(t1)->Some_0;
    let op2 = arithmetic_token(t2)->Some_0;
    let end = p + 5;
    lemma_literal_operand(ts, p, fl);
    lemma_literal_operand(ts, p + 2, fl);
    lemma_literal_operand(ts, p + 4, fl);
    lemma_nothing_follows(ts, end, lc, fl);
    assert(parse_multiplicative(ts, p + 4, fl) == Ok::<(SpecExpr, int), SpecParseError>((lc, end)));
    let e = if !binds_tighter(t1) && binds_tighter(t2) {
        binary(la, op1, binary(lb, op2, lc))
    } else {
        binary(binary(la, op1, lb), op2, lc)
    };
    lemma_nothing_follows(ts, end, e, fl);
    if binds_tighter(t1) {
        let ab = binary(la, op1, lb);
        if binds_tighter(t2) {
            lemma_nothing_follows(ts, end, e, fl);
            assert(multiplicative_rest(ts, p + 3, ab, fl) == Ok::<(SpecExpr, int), SpecParseError>((e, end)));
            assert(multiplicative_rest(ts, p + 1, la, fl) == Ok::<(SpecExpr, int), SpecParseError>((e, end)));
            assert(parse_multiplicative(ts, p, fl) == Ok::<(SpecExpr, int), SpecParseError>((e, end)));
        } else {
            assert(multiplicative_rest(ts, p + 3, ab, fl) == Ok::<(SpecExpr, int), SpecParseError>((ab, p + 3)));
            assert(multiplicative_rest(ts, p + 1, la, fl) == Ok::<(SpecExpr, int), SpecParseError>((ab, p + 3)));
            assert(parse_multiplicative(ts, p, fl) == Ok::<(SpecExpr, int), SpecParseError>((ab, p + 3)));
            assert(additive_rest(ts, p + 3, ab, fl) == Ok::<(SpecExpr, int), SpecParseError>((e, end)));
        }
    } else {
        assert(multiplicative_rest(ts, p + 1, la, fl) == Ok::<(SpecExpr, int), SpecParseError>((la, p + 1)));
        assert(parse_multiplicative(ts, p, fl) == Ok::<(SpecExpr, int), SpecParseError>((la, p + 1)));
        if binds_tighter(t2) {
            let bc = binary(lb, op2, lc);
            lemma_nothing_follows(ts, end, bc, fl);
            assert(multiplicative_rest(ts, p + 3, lb, fl) == Ok::<(SpecExpr, int), SpecParseError>((bc, end)));
            assert(parse_multiplicative(ts, p + 2, fl) == Ok::<(SpecExpr, int), SpecParseError>((bc, end)));
            assert(additive_rest(ts, p + 1, la, fl) == Ok::<(SpecExpr, int), SpecParseError>((e, end)));
        } else {
            let ab = binary(la, op1, lb);
            assert(multiplicative_rest(ts, p + 3, lb, fl) == Ok::<(SpecExpr, int), SpecParseError>((lb, p + 3)));
            assert(parse_multiplicative(ts, p + 2, fl) == Ok::<(SpecExpr, int), SpecParseError>((lb, p + 3)));
            assert(additive_rest(ts, p + 3, ab, fl) == Ok::<(SpecExpr, int), SpecParseError>((e, end)));
            assert(additive_rest(ts, p + 1, la, fl) == Ok::<(SpecExpr, int), SpecParseError>((e, end)));
        }
    }
    assert(parse_additive(ts, p, fl) == Ok::<(SpecExpr, int), SpecParseError>((e, end)));
    assert(parse_comparison(ts, p, fl) == Ok::<(SpecExpr, int), SpecParseError>((e, end)));
    assert(parse_and(ts, p, fl) == Ok::<(SpecExpr, int), SpecParseError>((e, end)));
    assert(parse_or(ts, p, fl) == Ok::<(SpecExpr, int), SpecParseError>((e, end)));
}

/// A literal token at `p`, not the last token, is read as its value.
proof fn lemma_literal_operand(ts: Tokens, p: int, fl: FloatModel)
    requires
        0 <= p,
        p + 1 < ts.len(),
        literal_value(tok(ts, p)) is Some,
    ensures
        parse_unary(ts, p, fl) == Ok::<(SpecExpr, int), SpecParseError>(
            (SpecExpr { kind: SpecExprKind::Literal(literal_value(tok(ts, p))->Some_0), span: ts[p].span }, p + 1),
        ),
{
    assert(parse_primary(ts, p, fl) == Ok::<(SpecExpr, int), SpecParseError>(
        (SpecExpr { kind: SpecExprKind::Literal(literal_value(tok(ts, p))->Some_0), span: ts[p].span }, p + 1),
    ));
}

/// A literal at `p` followed by AND, OR or the end is read, at the level of
/// comparisons, as that literal alone.
proof fn lemma_literal_comparison(ts: Tokens, p: int, fl: FloatModel)
    requires
        0 <= p,
        p + 1 < ts.len(),
        literal_value(tok(ts, p)) is Some,
        tok(ts, p + 1) is And || tok(ts, p + 1) is Or || tok(ts, p + 1) is Eof,
    ensures
        parse_comparison(ts, p, fl) == Ok::<(SpecExpr, int), SpecParseError>(
            (SpecExpr { kind: SpecExprKind::Literal(literal_value(tok(ts, p))->Some_0), span: ts[p].span }, p + 1),
        ),
{
    let l = SpecExpr { kind: SpecExprKind::Literal(literal_value(tok(ts, p))->Some_0), span: ts[p].span };
    lemma_literal_operand(ts, p, fl);
    assert(multiplicative_rest(ts, p + 1, l, fl) == Ok::<(SpecExpr, int), SpecParseError>((l, p + 1)));
    assert(parse_multiplicative(ts, p, fl) == Ok::<(SpecExpr, int), SpecParseError>((l, p + 1)));
    assert(additive_rest(ts, p + 1, l, fl) == Ok::<(SpecExpr, int), SpecParseError>((l, p + 1)));
    assert(parse_additive(ts, p, fl) == Ok::<(SpecExpr, int), SpecParseError>((l, p + 1)));
}

/// The logical operator a token stands for.
pub open spec fn logical_token(t: SpecToken) -> Option<BinaryOp> {
    match t {
        SpecToken::And => Some(BinaryOp::And),
        SpecToken::Or => Some(BinaryOp::Or),
        _ => None,
    }
}

/// In `a op1 b op2 c` with literals and the operators AND and OR, AND binds
/// tighter than OR and each groups to the left: the input reads as
/// `a OR (b AND c)` when `op1` is OR and `op2` is AND, and as
/// `(a op1 b) op2 c` otherwise.
pub proof fn lemma_logical_precedence(ts: Tokens, p: int, t1: SpecToken, t2: SpecToken, fl: FloatModel)
    requires
        0 <= p,
        ts.len() == p + 6,
        literal_value(tok(ts, p)) is Some,
        tok(ts, p + 1) == t1,
        literal_value(tok(ts, p + 2)) is Some,
        tok(ts, p + 3) == t2,
        literal_value(tok(ts, p + 4)) is Some,
        tok(ts, p + 5) is Eof,
        logical_token(t1) is Some,
        logical_token(t2) is Some,
    ensures
        ({
            let la = SpecExpr { kind: SpecExprKind::Literal(literal_value(tok(ts, p))->Some_0), span: ts[p].span };
            let lb = SpecExpr { kind: SpecExprKind::Literal(literal_value(tok(ts, p + 2))->Some_0), span: ts[p + 2].span };
            let lc = SpecExpr { kind: SpecExprKind::Literal(literal_value(tok(ts, p + 4))->Some_0), span: ts[p + 4].span };
            let op1 = logical_token(t1)->Some_0;
            let op2 = logical_token(t2)->Some_0;
            parse_expr(ts, p, fl) == Ok::<(SpecExpr, int), SpecParseError>((
                if t1 is Or && t2 is And {
                    binary(la, op1, binary(lb, op2, lc))
                } else {
                    binary(binary(la, op1, lb), op2, lc)
                },
                p + 5,
            ))
        }),
{
    let la = SpecExpr { kind: SpecExprKind::Literal(literal_value(tok(ts, p))->Some_0), span: ts[p].span };
    let lb = SpecExpr { kind: SpecExprKind::Literal(literal_value(tok(ts, p + 2))->Some_0), span: ts[p + 2].span };
    let lc = SpecExpr { kind: SpecExprKind::Literal(literal_value(tok(ts, p + 4))->Some_0), span: ts[p + 4].span };
    let op1 = logical_token(t1)->Some_0;
    let op2 = logical_token(t2)->Some_0;
    let end = p + 5;
    lemma_literal_comparison(ts, p, fl);
    lemma_literal_comparison(ts, p + 2, fl);
    lemma_literal_comparison(ts, p + 4, fl);
    let e = if t1 is Or && t2 is And {
        binary(la, op1, binary(lb, op2, lc))
    } else {
        binary(binary(la, op1, lb), op2, lc)
    };
    lemma_nothing_follows(ts, end, e, fl);
    lemma_nothing_follows(ts, end, lc, fl);
    assert(parse_and(ts, p + 4, fl) == Ok::<(SpecExpr, int), SpecParseError>((lc, end)));
    let ab = binary(la, op1, lb);
    if t1 is And {
        if t2 is And {
            assert(and_rest(ts, p + 3, ab, fl) == Ok::<(SpecExpr, int), SpecParseError>((e, end)));
            assert(and_rest(ts, p + 1, la, fl) == Ok::<(SpecExpr, int), SpecParseError>((e, end)));
            assert(parse_and(ts, p, fl) == Ok::<(SpecExpr, int), SpecParseError>((e, end)));
        } else {
            assert(and_rest(ts, p + 3, ab, fl) == Ok::<(SpecExpr, int), SpecParseError>((ab, p + 3)));
            assert(and_rest(ts, p + 1, la, fl) == Ok::<(SpecExpr, int), SpecParseError>((ab, p + 3)));
            assert(parse_and(ts, p, fl) == Ok::<(SpecExpr, int), SpecParseError>((ab, p + 3)));
            assert(or_rest(ts, p + 3, ab, fl) == Ok::<(SpecExpr, int), SpecParseError>((e, end)));
        }
    } else {
        assert(and_rest(ts, p + 1, la, fl) == Ok::<(SpecExpr, int), SpecParseError>((la, p + 1)));
        assert(parse_and(ts, p, fl) == Ok::<(SpecExpr, int), SpecParseError>((la, p + 1)));
        if t2 is And {
            let bc = binary(lb, op2, lc);
            lemma_nothing_follows(ts, end, bc, fl);
            assert(and_rest(ts, p + 3, lb, fl) == Ok::<(SpecExpr, int), SpecParseError>((bc, end)));
            assert(parse_and(ts, p + 2, fl) == Ok::<(SpecExpr, int), SpecParseError>((bc, end)));
            assert(or_rest(ts, p + 1, la, fl) == Ok::<(SpecExpr, int), SpecParseError>((e, end)));
        } else {
            assert(and_rest(ts, p + 3, lb, fl) == Ok::<(SpecExpr, int), SpecParseError>((lb, p + 3)));
            assert(parse_and(ts, p + 2, fl) == Ok::<(SpecExpr, int), SpecParseError>((lb, p + 3)));
            assert(or_rest(ts, p + 3, ab, fl) == Ok::<(SpecExpr, int), SpecParseError>((e, end)));
            assert(or_rest(ts, p + 1, la, fl) == Ok::<(SpecExpr, int), SpecParseError>((e, end)));
        }
    }
    assert(parse_or(ts, p, fl) == Ok::<(SpecExpr, int), SpecParseError>((e, end)));
}

// ---------------------------------------------------------------------------
// Data type names.

/// The data type names, read without regard to ASCII case: INT is another
/// name of INTEGER, DOUBLE of FLOAT, BOOL of BOOLEAN, TEXT and VARCHAR of
/// STRING, and no other word names a type.
pub proof fn lemma_data_type_names(w: Seq<char>)
    ensures
        (data_type_of(w) == Some(DataType::Integer)) == (eq_ignore_case(w, "INTEGER"@) || eq_ignore_case(w, "INT"@)),
        (data_type_of(w) == Some(DataType::Float)) == (eq_ignore_case(w, "FLOAT"@) || eq_ignore_case(w, "DOUBLE"@)),
        (data_type_of(w) == Some(DataType::Boolean)) == (eq_ignore_case(w, "BOOLEAN"@) || eq_ignore_case(w, "BOOL"@)),
        (data_type_of(w) == Some(DataType::String)) == (eq_ignore_case(w, "STRING"@) || eq_ignore_case(w, "TEXT"@)
            || eq_ignore_case(w, "VARCHAR"@)),
{
    reveal_strlit("INTEGER");
    lemma_upper_form(w, "INTEGER"@);
    assert("INTEGER"@[0] == 'I');
    reveal_strlit("INT");
    lemma_upper_form(w, "INT"@);
    assert("INT"@[0] == 'I');
    reveal_strlit("FLOAT");
    lemma_upper_form(w, "FLOAT"@);
    assert("FLOAT"@[0] == 'F');
    reveal_strlit("DOUBLE");
    lemma_upper_form(w, "DOUBLE"@);
    assert("DOUBLE"@[0] == 'D');
    reveal_strlit("BOOLEAN");
    lemma_upper_form(w, "BOOLEAN"@);
    assert("BOOLEAN"@[0] == 'B');
    reveal_strlit("BOOL");
    lemma_upper_form(w, "BOOL"@);
    assert("BOOL"@[0] == 'B');
    reveal_strlit("STRING");
    lemma_upper_form(w, "STRING"@);
    assert("STRING"@[0] == 'S');
    reveal_strlit("TEXT");
    lemma_upper_form(w, "TEXT"@);
    assert("TEXT"@[0] == 'T');
    reveal_strlit("VARCHAR");
    lemma_upper_form(w, "VARCHAR"@);
    assert("VARCHAR"@[0] == 'V');
}

/// Words equal up to ASCII case name the same data type.
pub proof fn lemma_data_type_ignores_case(v: Seq<char>, w: Seq<char>)
    requires
        eq_ignore_case(v, w),
    ensures
        data_type_of(v) == data_type_of(w),
{
    lemma_eq_ignore_case_upper(v, w);
}

// ---------------------------------------------------------------------------
// Literals read back.

/// A text as it is written inside a string literal: each quote doubled.
pub open spec fn escaped(v: Seq<char>) -> Seq<char>
    decreases v.len(),
{
    if v.len() == 0 {
        Seq::empty()
    } else if v[0] == '\'' {
        seq!['\'', '\''] + escaped(v.drop_first())
    } else {
        seq![v[0]] + escaped(v.drop_first())
    }
}

proof fn lemma_string_body_escaped(cs: Seq<char>, j: int, v: Seq<char>, acc: Seq<char>)
    requires
        0 <= j,
        j + escaped(v).len() < cs.len(),
        cs.subrange(j, j + escaped(v).len()) == escaped(v),
        cs[j + escaped(v).len()] == '\'',
        j + escaped(v).len() + 1 < cs.len() ==> cs[j + escaped(v).len() + 1] != '\'',
    ensures
        string_body(cs, j, acc) == Some((acc + v, j + escaped(v).len() + 1)),
    decreases v.len(),
{
    let n = escaped(v).len() as int;
    if v.len() == 0 {
        assert(acc + v =~= acc);
    } else {
        let w = v.drop_first();
        let m = escaped(w).len() as int;
        if v[0] == '\'' {
            assert(cs[j] == cs.subrange(j, j + n)[0]);
            assert(cs[j + 1] == cs.subrange(j, j + n)[1]);
            assert(cs.subrange(j + 2, j + 2 + m) =~= escaped(w)) by {
                assert forall|k: int| 0 <= k < m implies cs.subrange(j + 2, j + 2 + m)[k] == escaped(w)[k] by {
                    assert(cs.subrange(j, j + n)[k + 2] == escaped(v)[k + 2]);
                };
            };
            lemma_string_body_escaped(cs, j + 2, w, acc.push('\''));
            assert(acc.push('\'') + w =~= acc + v);
        } else {
            assert(cs[j] == cs.subrange(j, j + n)[0]);
            assert(cs.subrange(j + 1, j + 1 + m) =~= escaped(w)) by {
                assert forall|k: int| 0 <= k < m implies cs.subrange(j + 1, j + 1 + m)[k] == escaped(w)[k] by {
                    assert(cs.subrange(j, j + n)[k + 1] == escaped(v)[k + 1]);
                };
            };
            lemma_string_body_escaped(cs, j + 1, w, acc.push(v[0]));
            assert(acc.push(v[0]) + w =~= acc + v);
        }
    }
}

/// A text written as a string literal (in quotes, each quote inside it
/// doubled) is read back as that very text, in one token spanning the
/// literal.
pub proof fn lemma_string_literal_round_trip(v: Seq<char>, fl: FloatModel)
    ensures
        ({
            let cs = seq!['\''] + escaped(v) + seq!['\''];
            spec_tokenize(cs, fl) == Ok::<Seq<SpecSpanned>, SpecLexError>(
                seq![
                    spanned(SpecToken::String(v), cs, 0, cs.len() as int),
                    spanned(SpecToken::Eof, cs, cs.len() as int, cs.len() as int),
                ],
            )
        }),
{
    let cs = seq!['\''] + escaped(v) + seq!['\''];
    let n = escaped(v).len() as int;
    assert(cs.subrange(1, 1 + n) =~= escaped(v));
    assert(cs[1 + n] == '\'');
    lemma_string_body_escaped(cs, 1, v, seq![]);
    assert(Seq::<char>::empty() + v =~= v);
    assert(cs[0] == '\'');
    assert(lex_from(cs, cs.len() as int, fl) == Ok::<Seq<SpecSpanned>, SpecLexError>(
        seq![spanned(SpecToken::Eof, cs, cs.len() as int, cs.len() as int)],
    ));
    assert(seq![spanned(SpecToken::String(v), cs, 0, cs.len() as int)] + seq![
        spanned(SpecToken::Eof, cs, cs.len() as int, cs.len() as int),
    ] =~= seq![
        spanned(SpecToken::String(v), cs, 0, cs.len() as int),
        spanned(SpecToken::Eof, cs, cs.len() as int, cs.len() as int),
    ]);
}

/// The decimal text of a natural number is a non-empty run of digits whose
/// value is that number.
proof fn lemma_nat_text(n: nat)
    ensures
        nat_text(n).len() > 0,
        all_digits(nat_text(n)),
        digits_value(nat_text(n)) == n,
    decreases n,
{
    if n >= 10 {
        lemma_nat_text(n / 10);
        let t = nat_text(n);
        let d = digit_char(n % 10);
        assert(t == nat_text(n / 10).push(d));
        assert(t.drop_last() =~= nat_text(n / 10));
        assert(t.last() == d);
        assert(forall|k: int| 0 <= k < t.len() - 1 ==> t[k] == nat_text(n / 10)[k]);
        assert(n == (n / 10) * 10 + n % 10);
        assert(((d as u32) - 48) as nat == n % 10);
        assert(digits_value(t) == digits_value(t.drop_last()) * 10 + ((t.last() as u32) - 48) as nat);
        assert(digits_value(t) == (n / 10) * 10 + n % 10);
    } else {
        let t = nat_text(n);
        assert(t.drop_last() =~= Seq::<char>::empty());
        assert(((digit_char(n) as u32) - 48) as nat == n);
        assert(digits_value(Seq::<char>::empty()) == 0);
        assert(digits_value(t) == n);
    }
}

proof fn lemma_digits_run(cs: Seq<char>, i: int)
    requires
        0 <= i <= cs.len(),
        all_digits(cs),
    ensures
        digits_end(cs, i) == cs.len(),
    decreases cs.len() - i,
{
    if i < cs.len() {
        assert(is_digit(cs[i]));
        lemma_digits_run(cs, i + 1);
    }
}

/// The decimal text of any integer from 0 to `i64::MAX` is read as that
/// integer, in one token spanning the text.
pub proof fn lemma_integer_literal_round_trip(n: i64, fl: FloatModel)
    requires
        n >= 0,
    ensures
        ({
            let cs = nat_text(n as nat);
            spec_tokenize(cs, fl) == Ok::<Seq<SpecSpanned>, SpecLexError>(
                seq![
                    spanned(SpecToken::Integer(n), cs, 0, cs.len() as int),
                    spanned(SpecToken::Eof, cs, cs.len() as int, cs.len() as int),
                ],
            )
        }),
{
    let cs = nat_text(n as nat);
    lemma_nat_text(n as nat);
    lemma_digits_run(cs, 0);
    assert(is_digit(cs[0]));
    assert(number_end(cs, 0) == Ok::<int, int>(cs.len() as int));
    assert(cs.subrange(0, cs.len() as int) =~= cs);
    assert(!has_float_marker(cs)) by {
        if has_float_marker(cs) {
            let k = choose|k: int| 0 <= k < cs.len() && (cs[k] == '.' || cs[k] == 'e' || cs[k] == 'E');
            assert(is_digit(cs[k]));
        }
    };
    assert(spec_parse_i64(cs) == Some(n));
    assert(number_token(cs, fl) == Some(SpecToken::Integer(n)));
    assert(lex_from(cs, cs.len() as int, fl) == Ok::<Seq<SpecSpanned>, SpecLexError>(
        seq![spanned(SpecToken::Eof, cs, cs.len() as int, cs.len() as int)],
    ));
    assert(seq![spanned(SpecToken::Integer(n), cs, 0, cs.len() as int)] + seq![
        spanned(SpecToken::Eof, cs, cs.len() as int, cs.len() as int),
    ] =~= seq![
        spanned(SpecToken::Integer(n), cs, 0, cs.len() as int),
        spanned(SpecToken::Eof, cs, cs.len() as int, cs.len() as int),
    ]);
}

// ---------------------------------------------------------------------------
// Keywords and literal words.

/// Keywords, the word operators AND / OR / NOT and the literals TRUE, FALSE
/// and NULL are read without regard to ASCII case; any other word is an
/// identifier holding the word as written.
pub proof fn lemma_word_tokens(w: Seq<char>)
    ensures
        (word_token(w) == SpecToken::Keyword(Keyword::Select)) == eq_ignore_case(w, "SELECT"@),
        (word_token(w) == SpecToken::Keyword(Keyword::From)) == eq_ignore_case(w, "FROM"@),
        (word_token(w) == SpecToken::Keyword(Keyword::Where)) == eq_ignore_case(w, "WHERE"@),
        (word_token(w) == SpecToken::Keyword(Keyword::Insert)) == eq_ignore_case(w, "INSERT"@),
        (word_token(w) == SpecToken::Keyword(Keyword::Into)) == eq_ignore_case(w, "INTO"@),
        (word_token(w) == SpecToken::Keyword(Keyword::Values)) == eq_ignore_case(w, "VALUES"@),
        (word_token(w) == SpecToken::Keyword(Keyword::Create)) == eq_ignore_case(w, "CREATE"@),
        (word_token(w) == SpecToken::Keyword(Keyword::Table)) == eq_ignore_case(w, "TABLE"@),
        (word_token(w) == SpecToken::Keyword(Keyword::As)) == eq_ignore_case(w, "AS"@),
        (word_token(w) == SpecToken::Keyword(Keyword::Primary)) == eq_ignore_case(w, "PRIMARY"@),
        (word_token(w) == SpecToken::Keyword(Keyword::Key)) == eq_ignore_case(w, "KEY"@),
        (word_token(w) == SpecToken::And) == eq_ignore_case(w, "AND"@),
        (word_token(w) == SpecToken::Or) == eq_ignore_case(w, "OR"@),
        (word_token(w) == SpecToken::Not) == eq_ignore_case(w, "NOT"@),
        (word_token(w) == SpecToken::Boolean(true)) == eq_ignore_case(w, "TRUE"@),
        (word_token(w) == SpecToken::Boolean(false)) == eq_ignore_case(w, "FALSE"@),
        (word_token(w) == SpecToken::Null) == eq_ignore_case(w, "NULL"@),
        word_token(w) is Identifier ==> word_token(w) == SpecToken::Identifier(w),
{
    reveal_strlit("SELECT");
    lemma_upper_form(w, "SELECT"@);
    assert("SELECT"@[0] == 'S');
    reveal_strlit("FROM");
    lemma_upper_form(w, "FROM"@);
    assert("FROM"@[0] == 'F');
    reveal_strlit("WHERE");
    lemma_upper_form(w, "WHERE"@);
    assert("WHERE"@[0] == 'W');
    reveal_strlit("INSERT");
    lemma_upper_form(w, "INSERT"@);
    assert("INSERT"@[0] == 'I');
    reveal_strlit("INTO");
    lemma_upper_form(w, "INTO"@);
    assert("INTO"@[0] == 'I');
    reveal_strlit("VALUES");
    lemma_upper_form(w, "VALUES"@);
    assert("VALUES"@[0] == 'V');
    reveal_strlit("CREATE");
    lemma_upper_form(w, "CREATE"@);
    assert("CREATE"@[0] == 'C');
    reveal_strlit("TABLE");
    lemma_upper_form(w, "TABLE"@);
    assert("TABLE"@[0] == 'T');
    reveal_strlit("AS");
    lemma_upper_form(w, "AS"@);
    assert("AS"@[0] == 'A');
    reveal_strlit("PRIMARY");
    lemma_upper_form(w, "PRIMARY"@);
    assert("PRIMARY"@[0] == 'P');
    reveal_strlit("KEY");
    lemma_upper_form(w, "KEY"@);
    assert("KEY"@[0] == 'K');
    reveal_strlit("AND");
    lemma_upper_form(w, "AND"@);
    assert("AND"@[0] == 'A');
    reveal_strlit("OR");
    lemma_upper_form(w, "OR"@);
    assert("OR"@[0] == 'O');
    reveal_strlit("NOT");
    lemma_upper_form(w, "NOT"@);
    assert("NOT"@[0] == 'N');
    reveal_strlit("TRUE");
    lemma_upper_form(w, "TRUE"@);
    assert("TRUE"@[0] == 'T');
    reveal_strlit("FALSE");
    lemma_upper_form(w, "FALSE"@);
    assert("FALSE"@[0] == 'F');
    reveal_strlit("NULL");
    lemma_upper_form(w, "NULL"@);
    assert("NULL"@[0] == 'N');
}

/// Words equal up to ASCII case give the same token, unless both are
/// identifiers (which keep the word as written).
pub proof fn lemma_word_token_ignores_case(v: Seq<char>, w: Seq<char>)
    requires
        eq_ignore_case(v, w),
    ensures
        word_token(v) == word_token(w) || (word_token(v) == SpecToken::Identifier(v) && word_token(w) == SpecToken::Identifier(w)),
{
    lemma_eq_ignore_case_upper(v, w);
}

// ---------------------------------------------------------------------------
// Three-valued logic, negation and the WHERE filter.

/// The expression applying a unary operator to `e`.
pub open spec fn unary(op: UnaryOp, e: SpecExpr, span: Span) -> SpecExpr {
    SpecExpr { kind: SpecExprKind::Unary { op, expr: Box::new(e) }, span }
}

/// AND, OR and NOT follow three-valued logic over TRUE, FALSE and NULL:
/// AND and OR are commutative; FALSE AND x is FALSE and TRUE AND x is x;
/// TRUE OR x is TRUE and FALSE OR x is x; NULL AND NULL and NULL OR NULL are
/// NULL; NOT swaps TRUE and FALSE and keeps NULL.
pub proof fn lemma_three_valued_logic(left: SpecExpr, right: SpecExpr, x: SpecValue, y: SpecValue, span: Span, scope: SpecScope, fl: FloatModel)
    requires
        eval(left, scope, fl) == Ok::<SpecValue, SpecBackendError>(x),
        eval(right, scope, fl) == Ok::<SpecValue, SpecBackendError>(y),
        x is Boolean || x is Null,
        y is Boolean || y is Null,
    ensures
        eval(binary(left, BinaryOp::And, right), scope, fl) == eval(binary(right, BinaryOp::And, left), scope, fl),
        eval(binary(left, BinaryOp::Or, right), scope, fl) == eval(binary(right, BinaryOp::Or, left), scope, fl),
        x == SpecValue::Boolean(false) ==> eval(binary(left, BinaryOp::And, right), scope, fl) == Ok::<SpecValue, SpecBackendError>(x),
        x == SpecValue::Boolean(true) ==> eval(binary(left, BinaryOp::And, right), scope, fl) == Ok::<SpecValue, SpecBackendError>(y),
        x == SpecValue::Boolean(true) ==> eval(binary(left, BinaryOp::Or, right), scope, fl) == Ok::<SpecValue, SpecBackendError>(x),
        x == SpecValue::Boolean(false) ==> eval(binary(left, BinaryOp::Or, right), scope, fl) == Ok::<SpecValue, SpecBackendError>(y),
        x is Null && y is Null ==> eval(binary(left, BinaryOp::And, right), scope, fl) == Ok::<SpecValue, SpecBackendError>(SpecValue::Null),
        x is Null && y is Null ==> eval(binary(left, BinaryOp::Or, right), scope, fl) == Ok::<SpecValue, SpecBackendError>(SpecValue::Null),
        x matches SpecValue::Boolean(b) ==> eval(unary(UnaryOp::Not, left, span), scope, fl) == Ok::<SpecValue, SpecBackendError>(SpecValue::Boolean(!b)),
        x is Null ==> eval(unary(UnaryOp::Not, left, span), scope, fl) == Ok::<SpecValue, SpecBackendError>(SpecValue::Null),
{
}

/// Negating an integer gives its negation, except that the smallest
/// integer has none and gives the negation-overflow error.
pub proof fn lemma_integer_negation(e: SpecExpr, a: i64, span: Span, scope: SpecScope, fl: FloatModel)
    requires
        eval(e, scope, fl) == Ok::<SpecValue, SpecBackendError>(SpecValue::Integer(a)),
    ensures
        a != i64::MIN ==> eval(unary(UnaryOp::Minus, e, span), scope, fl) == Ok::<SpecValue, SpecBackendError>(SpecValue::Integer(-a as i64)),
        a != i64::MIN ==> (eval(unary(UnaryOp::Minus, e, span), scope, fl) matches Ok(SpecValue::Integer(n)) && n + a == 0),
        a == i64::MIN ==> eval(unary(UnaryOp::Minus, e, span), scope, fl) == Err::<SpecValue, SpecBackendError>(
            SpecBackendError::Execution("integer overflow in negation"@),
        ),
        eval(unary(UnaryOp::Plus, e, span), scope, fl) == Ok::<SpecValue, SpecBackendError>(SpecValue::Integer(a)),
{
}

/// A row passes the WHERE clause exactly when the clause evaluates to TRUE
/// on it (FALSE and NULL reject it); with no clause every row passes. A
/// passing row gives its projection, a rejected one gives nothing.
pub proof fn lemma_where_filter(s: SpecSelect, row: Seq<SpecValue>, cols: Seq<SpecColumn>, fl: FloatModel)
    ensures
        ({
            let kept = match spec_project_row(s.columns, row, cols, fl) {
                Ok(p) => Ok(seq![p]),
                Err(e) => Err(e),
            };
            let scope = SpecScope::Row { values: row, columns: cols };
            &&& s.where_clause is None ==> select_row(s, row, cols, fl) == kept
            &&& s.where_clause is Some && eval(s.where_clause->Some_0, scope, fl) == Ok::<SpecValue, SpecBackendError>(SpecValue::Boolean(true))
                ==> select_row(s, row, cols, fl) == kept
            &&& s.where_clause is Some && eval(s.where_clause->Some_0, scope, fl) == Ok::<SpecValue, SpecBackendError>(SpecValue::Boolean(false))
                ==> select_row(s, row, cols, fl) == Ok::<Seq<Seq<SpecValue>>, SpecBackendError>(Seq::empty())
            &&& s.where_clause is Some && eval(s.where_clause->Some_0, scope, fl) == Ok::<SpecValue, SpecBackendError>(SpecValue::Null)
                ==> select_row(s, row, cols, fl) == Ok::<Seq<Seq<SpecValue>>, SpecBackendError>(Seq::empty())
        }),
{
}

/// Whether a row passes a query's WHERE clause: the clause is absent or
/// evaluates to TRUE on the row.
pub open spec fn passes(s: SpecSelect, cols: Seq<SpecColumn>, fl: FloatModel) -> spec_fn(Seq<SpecValue>) -> bool {
    |row: Seq<SpecValue>|
        match s.where_clause {
            None => true,
            Some(w) => eval(w, SpecScope::Row { values: row, columns: cols }, fl) == Ok::<SpecValue, SpecBackendError>(
                SpecValue::Boolean(true),
            ),
        }
}

/// The projection of a row by a query's select list.
pub open spec fn projection(s: SpecSelect, cols: Seq<SpecColumn>, fl: FloatModel) -> spec_fn(Seq<SpecValue>) -> Seq<SpecValue> {
    |row: Seq<SpecValue>| spec_project_row(s.columns, row, cols, fl)->Ok_0
}

/// A scan of a table's rows returns, in table order, the projections of
/// exactly the rows that pass the WHERE clause, provided the clause gives
/// TRUE, FALSE or NULL on every row and every passing row can be projected.
pub proof fn lemma_scan_keeps_passing_rows(s: SpecSelect, rows: Seq<Seq<SpecValue>>, cols: Seq<SpecColumn>, fl: FloatModel)
    requires
        forall|i: int| 0 <= i < rows.len() && s.where_clause is Some ==> {
            let v = eval(s.where_clause->Some_0, SpecScope::Row { values: #[trigger] rows[i], columns: cols }, fl);
            v matches Ok(x) && (x is Boolean || x is Null)
        },
        forall|i: int| 0 <= i < rows.len() && (passes(s, cols, fl))(#[trigger] rows[i]) ==> spec_project_row(s.columns, rows[i], cols, fl) is Ok,
    ensures
        scan_rows(s, rows, cols, rows.len() as int, fl) == Ok::<Seq<Seq<SpecValue>>, SpecBackendError>(
            rows.filter(passes(s, cols, fl)).map_values(projection(s, cols, fl)),
        ),
    decreases rows.len(),
{
    reveal(Seq::filter);
    let n = rows.len() as int;
    if n == 0 {
        assert(rows.filter(passes(s, cols, fl)) =~= Seq::<Seq<SpecValue>>::empty());
        assert(rows.filter(passes(s, cols, fl)).map_values(projection(s, cols, fl)) =~= Seq::<Seq<SpecValue>>::empty());
    } else {
        let front = rows.drop_last();
        assert forall|i: int| 0 <= i < front.len() && s.where_clause is Some implies {
            let v = eval(s.where_clause->Some_0, SpecScope::Row { values: #[trigger] front[i], columns: cols }, fl);
            v matches Ok(x) && (x is Boolean || x is Null)
        } by {
            assert(front[i] == rows[i]);
        };
        assert forall|i: int| 0 <= i < front.len() && (passes(s, cols, fl))(#[trigger] front[i]) implies spec_project_row(
            s.columns,
            front[i],
            cols,
            fl,
        ) is Ok by {
            assert(front[i] == rows[i]);
        };
        lemma_scan_keeps_passing_rows(s, front, cols, fl);
        lemma_scan_prefix(s, rows, cols, n - 1, fl);
        let row = rows[n - 1];
        let kept = front.filter(passes(s, cols, fl));
        assert(rows.last() == row);
        if (passes(s, cols, fl))(row) {
            assert(rows.filter(passes(s, cols, fl)) == kept.push(row));
            assert(kept.push(row).map_values(projection(s, cols, fl)) =~= kept.map_values(projection(s, cols, fl))
                + seq![(projection(s, cols, fl))(row)]);
        } else {
            assert(rows.filter(passes(s, cols, fl)) == kept);
            if s.where_clause is Some {
                let v = eval(s.where_clause->Some_0, SpecScope::Row { values: rows[n - 1], columns: cols }, fl);
                assert(v matches Ok(x) && (x is Boolean || x is Null));
            }
            assert(kept.map_values(projection(s, cols, fl)) + Seq::<Seq<SpecValue>>::empty() =~= kept.map_values(
                projection(s, cols, fl),
            ));
        }
    }
}

/// Scanning the first `n` rows of a table is scanning the table with its
/// rows cut after `n`.
proof fn lemma_scan_prefix(s: SpecSelect, rows: Seq<Seq<SpecValue>>, cols: Seq<SpecColumn>, n: int, fl: FloatModel)
    requires
        0 <= n <= rows.len(),
        n + 1 == rows.len(),
    ensures
        scan_rows(s, rows, cols, n, fl) == scan_rows(s, rows.drop_last(), cols, n, fl),
{
    lemma_scan_same_rows(s, rows, rows.drop_last(), cols, n, fl);
}

proof fn lemma_scan_same_rows(s: SpecSelect, a: Seq<Seq<SpecValue>>, b: Seq<Seq<SpecValue>>, cols: Seq<SpecColumn>, n: int, fl: FloatModel)
    requires
        n <= a.len(),
        n <= b.len(),
        forall|i: int| 0 <= i < n ==> a[i] == b[i],
    ensures
        scan_rows(s, a, cols, n, fl) == scan_rows(s, b, cols, n, fl),
    decreases n,
{
    if n > 0 {
        lemma_scan_same_rows(s, a, b, cols, n - 1, fl);
        assert(a[n - 1] == b[n - 1]);
    }
}

/// A SELECT on a valid database returns the select list's column names and,
/// in table order, the projections of exactly the rows that pass its WHERE
/// clause (whether or not the primary-key index is used), provided the
/// query checks, the clause gives TRUE, FALSE or NULL on every row and every
/// passing row can be projected.
pub proof fn lemma_select_returns_passing_rows(db: SpecDatabase, q: SpecSelect, fl: FloatModel)
    requires
        database_valid(db),
        find_table(db, q.table) is Some,
        ({
            let t = db[find_table(db, q.table)->Some_0];
            &&& check_select(q, t.1.columns, t.0) is Ok
            &&& forall|i: int| 0 <= i < t.1.rows.len() && q.where_clause is Some ==> {
                let v = eval(q.where_clause->Some_0, SpecScope::Row { values: #[trigger] t.1.rows[i], columns: t.1.columns }, fl);
                v matches Ok(x) && (x is Boolean || x is Null)
            }
            &&& forall|i: int| 0 <= i < t.1.rows.len() && (passes(q, t.1.columns, fl))(#[trigger] t.1.rows[i])
                ==> spec_project_row(q.columns, t.1.rows[i], t.1.columns, fl) is Ok
        }),
    ensures
        ({
            let t = db[find_table(db, q.table)->Some_0].1;
            select(db, q, fl) == Ok::<(Seq<Seq<char>>, Seq<Seq<SpecValue>>), SpecBackendError>((
                spec_projection_columns(q.columns, t.columns),
                t.rows.filter(passes(q, t.columns, fl)).map_values(projection(q, t.columns, fl)),
            ))
        }),
{
    let k = find_table(db, q.table)->Some_0;
    lemma_find_table(db, q.table, 0);
    let t = db[k].1;
    assert(table_valid(t));
    lemma_key_lookup_agrees_with_scan(q, t, fl);
    lemma_scan_keeps_passing_rows(q, t.rows, t.columns, fl);
}

} // verus!
