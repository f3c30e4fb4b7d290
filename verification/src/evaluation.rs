use vstd::prelude::*;
use crate::database::{row_view, Row, Table};
use crate::error::{BackendError, SpecBackendError};
use crate::expr::{copy_value, spec_type_name, BinaryOp, Expr, ExprKind, Literal, SpecExpr, SpecExprKind, SpecValue, UnaryOp, Value};
use crate::float::{
    ask, float_is_finite, float_is_zero, float_negate, float_three_way, float_compare, follows, host_ready, is_finite, is_zero, negated,
    lemma_negated_finite, FloatReply, FloatTask, SpecFloatReply, SpecFloatTask,
};
use crate::lexer::FloatModel;
use crate::parser::columns_view;
use crate::statement::{ColumnDefinition, DataType, SpecColumn};
use crate::text::{chars_of, eq_ignore_ascii_case, eq_ignore_case, push_str, string_of};

verus! {

/// The static type of an expression.
#[derive(Debug, Clone, Copy, PartialEq, Eq, Structural)]
pub enum ExpressionType {
    Integer,
    Float,
    String,
    Boolean,
    Null,
}

pub open spec fn type_label(t: ExpressionType) -> Seq<char> {
    match t {
        ExpressionType::Integer => "INTEGER"@,
        ExpressionType::Float => "FLOAT"@,
        ExpressionType::String => "STRING"@,
        ExpressionType::Boolean => "BOOLEAN"@,
        ExpressionType::Null => "NULL"@,
    }
}

pub open spec fn numeric(t: ExpressionType) -> bool {
    t is Integer || t is Float
}

pub open spec fn type_of_column(d: DataType) -> ExpressionType {
    match d {
        DataType::Integer => ExpressionType::Integer,
        DataType::Float => ExpressionType::Float,
        DataType::String => ExpressionType::String,
        DataType::Boolean => ExpressionType::Boolean,
    }
}

pub open spec fn type_of_value(v: SpecValue) -> ExpressionType {
    match v {
        SpecValue::Integer(_) => ExpressionType::Integer,
        SpecValue::Float(_) => ExpressionType::Float,
        SpecValue::String(_) => ExpressionType::String,
        SpecValue::Boolean(_) => ExpressionType::Boolean,
        SpecValue::Null => ExpressionType::Null,
    }
}

impl ExpressionType {
    /// The SQL name of the type.
    pub fn name(self) -> (s: &'static str)
        ensures
            s@ == type_label(self),
    {
        match self {
            ExpressionType::Integer => "INTEGER",
            ExpressionType::Float => "FLOAT",
            ExpressionType::String => "STRING",
            ExpressionType::Boolean => "BOOLEAN",
            ExpressionType::Null => "NULL",
        }
    }

    pub fn is_numeric(self) -> (b: bool)
        ensures
            b == numeric(self),
    {
        match self {
            ExpressionType::Integer | ExpressionType::Float => true,
            _ => false,
        }
    }

    pub fn from_data_type(data_type: DataType) -> (t: ExpressionType)
        ensures
            t == type_of_column(data_type),
    {
        match data_type {
            DataType::Integer => ExpressionType::Integer,
            DataType::Float => ExpressionType::Float,
            DataType::String => ExpressionType::String,
            DataType::Boolean => ExpressionType::Boolean,
        }
    }
}

pub open spec fn unary_name(op: UnaryOp) -> Seq<char> {
    match op {
        UnaryOp::Plus => "Plus"@,
        UnaryOp::Minus => "Minus"@,
        UnaryOp::Not => "Not"@,
    }
}

/// The first column named `name` (without regard to ASCII case) from index `i` on.
pub open spec fn find_column_from(cols: Seq<SpecColumn>, name: Seq<char>, i: int) -> Option<int>
    decreases cols.len() - i,
{
    if i < 0 || i >= cols.len() {
        None
    } else if eq_ignore_case(cols[i].name, name) {
        Some(i)
    } else {
        find_column_from(cols, name, i + 1)
    }
}

pub open spec fn find_column(cols: Seq<SpecColumn>, name: Seq<char>) -> Option<int> {
    find_column_from(cols, name, 0)
}

pub proof fn lemma_find_column(cols: Seq<SpecColumn>, name: Seq<char>, i: int)
    requires
        0 <= i <= cols.len(),
    ensures
        match find_column_from(cols, name, i) {
            Some(k) => i <= k < cols.len() && eq_ignore_case(cols[k].name, name)
                && forall|j: int| i <= j < k ==> !eq_ignore_case(#[trigger] cols[j].name, name),
            None => forall|j: int| i <= j < cols.len() ==> !eq_ignore_case(#[trigger] cols[j].name, name),
        },
    decreases cols.len() - i,
{
    if i < cols.len() {
        lemma_find_column(cols, name, i + 1);
    }
}

/// The type a binary operator gives its operands' types, or why it does not apply.
pub open spec fn binary_type(left: ExpressionType, op: BinaryOp, right: ExpressionType) -> Result<ExpressionType, SpecBackendError> {
    match op {
        BinaryOp::And | BinaryOp::Or => if (left is Boolean || left is Null) && (right is Boolean || right is Null) {
            Ok(ExpressionType::Boolean)
        } else {
            Err(SpecBackendError::InvalidExpression(
                "logical operators require BOOLEAN values, found "@ + type_label(left) + " and "@ + type_label(right),
            ))
        },
        BinaryOp::Add | BinaryOp::Subtract | BinaryOp::Multiply | BinaryOp::Divide | BinaryOp::Modulo => if (numeric(left)
            || left is Null) && (numeric(right) || right is Null) {
            if left is Float || right is Float {
                Ok(ExpressionType::Float)
            } else if left is Null && right is Null {
                Ok(ExpressionType::Null)
            } else {
                Ok(ExpressionType::Integer)
            }
        } else {
            Err(SpecBackendError::InvalidExpression(
                "arithmetic requires numeric values, found "@ + type_label(left) + " and "@ + type_label(right),
            ))
        },
        _ => if left is Null || right is Null || (numeric(left) && numeric(right)) || (left is String && right is String)
            || ((op is Equal || op is NotEqual) && left is Boolean && right is Boolean) {
            Ok(ExpressionType::Boolean)
        } else {
            Err(SpecBackendError::InvalidExpression("cannot compare "@ + type_label(left) + " with "@ + type_label(right)))
        },
    }
}

/// The static type of an expression over a table's columns, or why it is ill-typed.
pub open spec fn infer_type(e: SpecExpr, cols: Seq<SpecColumn>, table_name: Seq<char>) -> Result<ExpressionType, SpecBackendError>
    decreases e,
{
    match e.kind {
        SpecExprKind::Identifier(name) => match find_column(cols, name) {
            Some(k) => Ok(type_of_column(cols[k].data_type)),
            None => Err(SpecBackendError::ColumnNotFound { table: table_name, column: name }),
        },
        SpecExprKind::Literal(v) => Ok(type_of_value(v)),
        SpecExprKind::Unary { op, expr } => match infer_type(*expr, cols, table_name) {
            Err(err) => Err(err),
            Ok(t) => if t is Null {
                Ok(ExpressionType::Null)
            } else if (op is Plus || op is Minus) && numeric(t) {
                Ok(t)
            } else if op is Not && t is Boolean {
                Ok(ExpressionType::Boolean)
            } else {
                Err(SpecBackendError::InvalidExpression("operator "@ + unary_name(op) + " cannot be applied to "@ + type_label(t)))
            },
        },
        SpecExprKind::Binary { left, op, right } => match infer_type(*left, cols, table_name) {
            Err(err) => Err(err),
            Ok(l) => match infer_type(*right, cols, table_name) {
                Err(err) => Err(err),
                Ok(r) => binary_type(l, op, r),
            },
        },
    }
}

/// A WHERE clause must have type BOOLEAN (or NULL).
pub open spec fn where_type_check(e: SpecExpr, cols: Seq<SpecColumn>, table_name: Seq<char>) -> Result<(), SpecBackendError> {
    match infer_type(e, cols, table_name) {
        Err(err) => Err(err),
        Ok(t) => if t is Boolean || t is Null {
            Ok(())
        } else {
            Err(SpecBackendError::InvalidExpression("WHERE expression must produce BOOLEAN, found "@ + type_label(t)))
        },
    }
}

pub open spec fn type_result(r: Result<ExpressionType, BackendError>) -> Result<ExpressionType, SpecBackendError> {
    match r {
        Ok(t) => Ok(t),
        Err(e) => Err(e@),
    }
}

pub open spec fn unit_result(r: Result<(), BackendError>) -> Result<(), SpecBackendError> {
    match r {
        Ok(_) => Ok(()),
        Err(e) => Err(e@),
    }
}

fn unary_text(op: UnaryOp) -> (s: &'static str)
    ensures
        s@ == unary_name(op),
{
    match op {
        UnaryOp::Plus => "Plus",
        UnaryOp::Minus => "Minus",
        UnaryOp::Not => "Not",
    }
}

/// `prefix` + `a` + `middle` + `b`.
fn message4(prefix: &str, a: &str, middle: &str, b: &str) -> (m: String)
    ensures
        m@ == prefix@ + a@ + middle@ + b@,
{
    let mut m = string_of(prefix);
    push_str(&mut m, a);
    push_str(&mut m, middle);
    push_str(&mut m, b);
    m
}

/// The first column named `name`, without regard to ASCII case.
pub fn find_column_index(columns: &Vec<ColumnDefinition>, name: &str) -> (k: Option<usize>)
    ensures
        match k {
            Some(x) => find_column(columns_view(columns@), name@) == Some(x as int) && x < columns.len(),
            None => find_column(columns_view(columns@), name@) is None,
        },
{
    let ghost cols = columns_view(columns@);
    proof {
        lemma_find_column(cols, name@, 0);
    }
    let mut i: usize = 0;
    while i < columns.len()
        invariant
            i <= columns.len(),
            cols == columns_view(columns@),
            find_column_from(cols, name@, 0) == find_column_from(cols, name@, i as int),
        decreases columns.len() - i,
    {
        if eq_ignore_ascii_case(columns[i].name.as_str(), name) {
            return Some(i);
        }
        i = i + 1;
    }
    None
}

/// The type a binary operator gives its operands' types (see [`binary_type`]).
#[verifier::rlimit(30)]
pub fn infer_binary_type(left: ExpressionType, operator: BinaryOp, right: ExpressionType) -> (r: Result<ExpressionType, BackendError>)
    ensures
        type_result(r) == binary_type(left, operator, right),
{
    match operator {
        BinaryOp::And | BinaryOp::Or => {
            let l_ok = match left { ExpressionType::Boolean | ExpressionType::Null => true, _ => false };
            let r_ok = match right { ExpressionType::Boolean | ExpressionType::Null => true, _ => false };
            if l_ok && r_ok {
                Ok(ExpressionType::Boolean)
            } else {
                Err(BackendError::InvalidExpression(message4(
                    "logical operators require BOOLEAN values, found ",
                    left.name(),
                    " and ",
                    right.name(),
                )))
            }
        },
        BinaryOp::Add | BinaryOp::Subtract | BinaryOp::Multiply | BinaryOp::Divide | BinaryOp::Modulo => {
            let l_ok = left.is_numeric() || match left { ExpressionType::Null => true, _ => false };
            let r_ok = right.is_numeric() || match right { ExpressionType::Null => true, _ => false };
            if l_ok && r_ok {
                let any_float = match (left, right) {
                    (ExpressionType::Float, _) | (_, ExpressionType::Float) => true,
                    _ => false,
                };
                let both_null = match (left, right) {
                    (ExpressionType::Null, ExpressionType::Null) => true,
                    _ => false,
                };
                if any_float {
                    Ok(ExpressionType::Float)
                } else if both_null {
                    Ok(ExpressionType::Null)
                } else {
                    Ok(ExpressionType::Integer)
                }
            } else {
                Err(BackendError::InvalidExpression(message4(
                    "arithmetic requires numeric values, found ",
                    left.name(),
                    " and ",
                    right.name(),
                )))
            }
        },
        _ => {
            let either_null = match (left, right) {
                (ExpressionType::Null, _) | (_, ExpressionType::Null) => true,
                _ => false,
            };
            let both_strings = match (left, right) {
                (ExpressionType::String, ExpressionType::String) => true,
                _ => false,
            };
            let equality = match operator {
                BinaryOp::Equal | BinaryOp::NotEqual => true,
                _ => false,
            };
            let both_booleans = match (left, right) {
                (ExpressionType::Boolean, ExpressionType::Boolean) => true,
                _ => false,
            };
            let compatible = either_null || (left.is_numeric() && right.is_numeric()) || both_strings || (equality
                && both_booleans);
            if compatible {
                Ok(ExpressionType::Boolean)
            } else {
                Err(BackendError::InvalidExpression(message4("cannot compare ", left.name(), " with ", right.name())))
            }
        },
    }
}

/// The static type of an expression over a table's columns (see [`infer_type`]).
#[verifier::rlimit(30)]
pub fn infer_expression_type(expression: &Expr, table: &Table, table_name: &str) -> (r: Result<ExpressionType, BackendError>)
    ensures
        type_result(r) == infer_type(expression@, table@.columns, table_name@),
    decreases expression,
{
    match &expression.kind {
        ExprKind::Identifier(name) => match find_column_index(&table.columns, name.as_str()) {
            Some(k) => Ok(ExpressionType::from_data_type(table.columns[k].data_type)),
            None => Err(BackendError::ColumnNotFound { table: string_of(table_name), column: name.clone() }),
        },
        ExprKind::Literal(literal) => Ok(match literal {
            Literal::Integer(_) => ExpressionType::Integer,
            Literal::Float(_) => ExpressionType::Float,
            Literal::String(_) => ExpressionType::String,
            Literal::Boolean(_) => ExpressionType::Boolean,
            Literal::Null => ExpressionType::Null,
        }),
        ExprKind::Unary { op, expr } => {
            let operand = infer_expression_type(expr, table, table_name)?;
            match operand {
                ExpressionType::Null => Ok(ExpressionType::Null),
                _ => {
                    let sign = match op {
                        UnaryOp::Plus | UnaryOp::Minus => true,
                        _ => false,
                    };
                    let not = match op {
                        UnaryOp::Not => true,
                        _ => false,
                    };
                    let boolean = match operand {
                        ExpressionType::Boolean => true,
                        _ => false,
                    };
                    if sign && operand.is_numeric() {
                        Ok(operand)
                    } else if not && boolean {
                        Ok(ExpressionType::Boolean)
                    } else {
                        let mut m = string_of("operator ");
                        push_str(&mut m, unary_text(*op));
                        push_str(&mut m, " cannot be applied to ");
                        push_str(&mut m, operand.name());
                        Err(BackendError::InvalidExpression(m))
                    }
                },
            }
        },
        ExprKind::Binary { left, op, right } => {
            let left = infer_expression_type(left, table, table_name)?;
            let right = infer_expression_type(right, table, table_name)?;
            infer_binary_type(left, *op, right)
        },
    }
}

/// The expression is well-typed over the table.
pub fn validate_expression(expression: &Expr, table: &Table, table_name: &str) -> (r: Result<(), BackendError>)
    ensures
        unit_result(r) == (match infer_type(expression@, table@.columns, table_name@) {
            Ok(_) => Ok(()),
            Err(e) => Err(e),
        }),
{
    match infer_expression_type(expression, table, table_name) {
        Ok(_) => Ok(()),
        Err(e) => Err(e),
    }
}

/// The expression is a well-typed WHERE clause over the table.
pub fn validate_where_expression(expression: &Expr, table: &Table, table_name: &str) -> (r: Result<(), BackendError>)
    ensures
        unit_result(r) == where_type_check(expression@, table@.columns, table_name@),
{
    let expression_type = infer_expression_type(expression, table, table_name)?;
    match expression_type {
        ExpressionType::Boolean | ExpressionType::Null => Ok(()),
        _ => {
            let mut m = string_of("WHERE expression must produce BOOLEAN, found ");
            push_str(&mut m, expression_type.name());
            Err(BackendError::InvalidExpression(m))
        },
    }
}

// ---------------------------------------------------------------------------
// Evaluation.

/// Where identifiers get their values: a row of a table, or nowhere (INSERT values).
pub enum SpecScope {
    Row { values: Seq<SpecValue>, columns: Seq<SpecColumn> },
    Constant,
}

pub open spec fn non_finite_message() -> Seq<char> {
    "floating-point operation produced a non-finite value"@
}

/// A float result, provided it is finite.
pub open spec fn finite_float_result(bits: u64) -> Result<SpecValue, SpecBackendError> {
    if is_finite(bits) {
        Ok(SpecValue::Float(bits))
    } else {
        Err(SpecBackendError::Execution(non_finite_message()))
    }
}

/// The value of an identifier in a scope.
pub open spec fn lookup(scope: SpecScope, name: Seq<char>) -> Result<SpecValue, SpecBackendError> {
    match scope {
        SpecScope::Row { values, columns } => match find_column(columns, name) {
            Some(k) => if k < values.len() {
                Ok(values[k])
            } else {
                Err(SpecBackendError::InvalidSchema("row is missing column '"@ + name + "'"@))
            },
            None => Err(SpecBackendError::InvalidExpression("unknown column '"@ + name + "'"@)),
        },
        SpecScope::Constant => Err(SpecBackendError::InvalidExpression("INSERT value may not reference column '"@ + name + "'"@)),
    }
}

pub open spec fn eval_unary(op: UnaryOp, v: SpecValue) -> Result<SpecValue, SpecBackendError> {
    match (op, v) {
        (_, SpecValue::Null) => Ok(SpecValue::Null),
        (UnaryOp::Plus, SpecValue::Integer(_)) => Ok(v),
        (UnaryOp::Plus, SpecValue::Float(_)) => Ok(v),
        (UnaryOp::Minus, SpecValue::Integer(i)) => if i == i64::MIN {
            Err(SpecBackendError::Execution("integer overflow in negation"@))
        } else {
            Ok(SpecValue::Integer((-i) as i64))
        },
        (UnaryOp::Minus, SpecValue::Float(b)) => finite_float_result(negated(b)),
        (UnaryOp::Not, SpecValue::Boolean(b)) => Ok(SpecValue::Boolean(!b)),
        _ => Err(SpecBackendError::InvalidExpression("operator "@ + unary_name(op) + " cannot be applied to "@ + spec_type_name(v))),
    }
}

/// Three-valued AND / OR.
pub open spec fn eval_logical(l: SpecValue, op: BinaryOp, r: SpecValue) -> Result<SpecValue, SpecBackendError> {
    if op is And && (l == SpecValue::Boolean(false) || r == SpecValue::Boolean(false)) {
        Ok(SpecValue::Boolean(false))
    } else if op is And && l == SpecValue::Boolean(true) && r == SpecValue::Boolean(true) {
        Ok(SpecValue::Boolean(true))
    } else if op is Or && (l == SpecValue::Boolean(true) || r == SpecValue::Boolean(true)) {
        Ok(SpecValue::Boolean(true))
    } else if op is Or && l == SpecValue::Boolean(false) && r == SpecValue::Boolean(false) {
        Ok(SpecValue::Boolean(false))
    } else if (l is Null && r is Boolean) || (l is Boolean && r is Null) || (l is Null && r is Null) {
        Ok(SpecValue::Null)
    } else {
        Err(SpecBackendError::InvalidExpression(
            "logical operators require BOOLEAN values, found "@ + spec_type_name(l) + " and "@ + spec_type_name(r),
        ))
    }
}

/// Lexicographic order of character sequences (by code point): -1, 0 or 1.
pub open spec fn text_compare(a: Seq<char>, b: Seq<char>) -> int
    decreases a.len(),
{
    if a.len() == 0 && b.len() == 0 {
        0
    } else if a.len() == 0 {
        -1
    } else if b.len() == 0 {
        1
    } else if (a[0] as u32) < (b[0] as u32) {
        -1
    } else if (a[0] as u32) > (b[0] as u32) {
        1
    } else {
        text_compare(a.drop_first(), b.drop_first())
    }
}

/// Two texts compare equal exactly when they are the same.
pub proof fn lemma_text_compare_equal(a: Seq<char>, b: Seq<char>)
    ensures
        (text_compare(a, b) == 0) == (a == b),
    decreases a.len(),
{
    if a.len() > 0 && b.len() > 0 && (a[0] as u32) == (b[0] as u32) {
        vstd::utf8::char_u32_cast(a[0], a[0] as u32);
        vstd::utf8::char_u32_cast(b[0], b[0] as u32);
        assert(a[0] == b[0]);
        lemma_text_compare_equal(a.drop_first(), b.drop_first());
        assert(text_compare(a, b) == text_compare(a.drop_first(), b.drop_first()));
        if a.drop_first() == b.drop_first() {
            assert(a =~= seq![a[0]] + a.drop_first());
            assert(b =~= seq![b[0]] + b.drop_first());
        }
        if a == b {
            assert(a.drop_first() =~= b.drop_first());
        }
    } else if a.len() == 0 && b.len() == 0 {
        assert(a =~= b);
    } else if a.len() > 0 && b.len() > 0 {
        if a == b {
            assert(a[0] == b[0]);
        }
    }
}

pub open spec fn int_compare(a: int, b: int) -> int {
    if a < b {
        -1
    } else if a == b {
        0
    } else {
        1
    }
}

/// The float host's conversion of an integer, if it gives a number.
pub open spec fn int_to_float(i: i64, fl: FloatModel) -> Option<u64> {
    match fl(SpecFloatTask::FromInteger(i)) {
        SpecFloatReply::Number(b) => Some(b),
        _ => None,
    }
}

/// The three-way order of two comparable values (`None`: unordered).
pub open spec fn value_order(l: SpecValue, op: BinaryOp, r: SpecValue, fl: FloatModel) -> Option<Option<int>> {
    match (l, r) {
        (SpecValue::Integer(a), SpecValue::Integer(b)) => Some(Some(int_compare(a as int, b as int))),
        (SpecValue::Float(a), SpecValue::Float(b)) => Some(float_compare(a, b)),
        (SpecValue::Integer(a), SpecValue::Float(b)) => Some(
            match int_to_float(a, fl) {
                Some(x) => float_compare(x, b),
                None => None,
            },
        ),
        (SpecValue::Float(a), SpecValue::Integer(b)) => Some(
            match int_to_float(b, fl) {
                Some(y) => float_compare(a, y),
                None => None,
            },
        ),
        (SpecValue::String(a), SpecValue::String(b)) => Some(Some(text_compare(a, b))),
        (SpecValue::Boolean(a), SpecValue::Boolean(b)) => if op is Equal || op is NotEqual {
            Some(Some(int_compare(if a { 1int } else { 0int }, if b { 1int } else { 0int })))
        } else {
            None
        },
        _ => None,
    }
}

/// Whether an ordering satisfies a comparison operator.
pub open spec fn order_satisfies(op: BinaryOp, o: int) -> bool {
    match op {
        BinaryOp::Equal => o == 0,
        BinaryOp::NotEqual => o != 0,
        BinaryOp::LessThan => o == -1,
        BinaryOp::LessThanOrEqual => o != 1,
        BinaryOp::GreaterThan => o == 1,
        _ => o != -1,
    }
}

pub open spec fn eval_comparison(l: SpecValue, op: BinaryOp, r: SpecValue, fl: FloatModel) -> Result<SpecValue, SpecBackendError> {
    if l is Null || r is Null {
        Ok(SpecValue::Null)
    } else {
        match value_order(l, op, r, fl) {
            None => Err(SpecBackendError::InvalidExpression("cannot compare "@ + spec_type_name(l) + " with "@ + spec_type_name(r))),
            Some(None) => Err(SpecBackendError::InvalidExpression("comparison is undefined"@)),
            Some(Some(o)) => Ok(SpecValue::Boolean(order_satisfies(op, o))),
        }
    }
}

/// Integer arithmetic with overflow and division checks (Rust's truncating `/` and `%`).
pub open spec fn int_arithmetic(a: i64, op: BinaryOp, b: i64) -> Result<SpecValue, SpecBackendError> {
    if (op is Divide || op is Modulo) && b == 0 {
        Err(SpecBackendError::Execution("division by zero"@))
    } else {
        let value = match op {
            BinaryOp::Add => a.checked_add(b),
            BinaryOp::Subtract => a.checked_sub(b),
            BinaryOp::Multiply => a.checked_mul(b),
            BinaryOp::Divide => a.checked_div(b),
            _ => a.checked_rem(b),
        };
        match value {
            Some(v) => Ok(SpecValue::Integer(v)),
            None => Err(SpecBackendError::Execution("integer arithmetic overflow"@)),
        }
    }
}

/// Float arithmetic through the float host; division by a zero is an error.
pub open spec fn float_arithmetic(a: u64, op: BinaryOp, b: u64, fl: FloatModel) -> Result<SpecValue, SpecBackendError> {
    if is_zero(b) && (op is Divide || op is Modulo) {
        Err(SpecBackendError::Execution("division by zero"@))
    } else {
        match fl(SpecFloatTask::Arithmetic(op, a, b)) {
            SpecFloatReply::Number(x) => finite_float_result(x),
            _ => Err(SpecBackendError::Execution(non_finite_message())),
        }
    }
}

pub open spec fn eval_arithmetic(l: SpecValue, op: BinaryOp, r: SpecValue, fl: FloatModel) -> Result<SpecValue, SpecBackendError> {
    if l is Null || r is Null {
        Ok(SpecValue::Null)
    } else {
        match (l, r) {
            (SpecValue::Integer(a), SpecValue::Integer(b)) => int_arithmetic(a, op, b),
            (SpecValue::Integer(a), SpecValue::Float(b)) => match int_to_float(a, fl) {
                Some(x) => float_arithmetic(x, op, b, fl),
                None => Err(SpecBackendError::Execution(non_finite_message())),
            },
            (SpecValue::Float(a), SpecValue::Integer(b)) => match int_to_float(b, fl) {
                Some(y) => float_arithmetic(a, op, y, fl),
                None => Err(SpecBackendError::Execution(non_finite_message())),
            },
            (SpecValue::Float(a), SpecValue::Float(b)) => float_arithmetic(a, op, b, fl),
            _ => Err(SpecBackendError::InvalidExpression(
                "arithmetic requires numeric values, found "@ + spec_type_name(l) + " and "@ + spec_type_name(r),
            )),
        }
    }
}

pub open spec fn eval_binary(l: SpecValue, op: BinaryOp, r: SpecValue, fl: FloatModel) -> Result<SpecValue, SpecBackendError> {
    match op {
        BinaryOp::And | BinaryOp::Or => eval_logical(l, op, r),
        BinaryOp::Add | BinaryOp::Subtract | BinaryOp::Multiply | BinaryOp::Divide | BinaryOp::Modulo => eval_arithmetic(l, op, r, fl),
        _ => eval_comparison(l, op, r, fl),
    }
}

/// The value of an expression in a scope (left operand first).
pub open spec fn eval(e: SpecExpr, scope: SpecScope, fl: FloatModel) -> Result<SpecValue, SpecBackendError>
    decreases e,
{
    match e.kind {
        SpecExprKind::Literal(v) => Ok(v),
        SpecExprKind::Identifier(name) => lookup(scope, name),
        SpecExprKind::Unary { op, expr } => match eval(*expr, scope, fl) {
            Ok(v) => eval_unary(op, v),
            Err(err) => Err(err),
        },
        SpecExprKind::Binary { left, op, right } => match eval(*left, scope, fl) {
            Err(err) => Err(err),
            Ok(l) => match eval(*right, scope, fl) {
                Err(err) => Err(err),
                Ok(r) => eval_binary(l, op, r, fl),
            },
        },
    }
}

pub open spec fn value_result(r: Result<Value, BackendError>) -> Result<SpecValue, SpecBackendError> {
    match r {
        Ok(v) => Ok(v@),
        Err(e) => Err(e@),
    }
}

fn finite_float(bits: u64) -> (r: Result<Value, BackendError>)
    ensures
        value_result(r) == finite_float_result(bits),
{
    if float_is_finite(bits) {
        Ok(Value::Float(bits))
    } else {
        Err(BackendError::Execution(string_of("floating-point operation produced a non-finite value")))
    }
}

fn eval_unary_value(operator: UnaryOp, value: Value) -> (r: Result<Value, BackendError>)
    ensures
        value_result(r) == eval_unary(operator, value@),
{
    match (operator, value) {
        (_, Value::Null) => Ok(Value::Null),
        (UnaryOp::Plus, Value::Integer(i)) => Ok(Value::Integer(i)),
        (UnaryOp::Plus, Value::Float(f)) => Ok(Value::Float(f)),
        (UnaryOp::Minus, Value::Integer(i)) => {
            if i == i64::MIN {
                Err(BackendError::Execution(string_of("integer overflow in negation")))
            } else {
                Ok(Value::Integer(-i))
            }
        },
        (UnaryOp::Minus, Value::Float(f)) => finite_float(float_negate(f)),
        (UnaryOp::Not, Value::Boolean(b)) => Ok(Value::Boolean(!b)),
        (operator, value) => {
            let mut m = string_of("operator ");
            push_str(&mut m, unary_text(operator));
            push_str(&mut m, " cannot be applied to ");
            push_str(&mut m, value.sql_type_name());
            Err(BackendError::InvalidExpression(m))
        },
    }
}

#[verifier::rlimit(30)]
fn eval_logical_values(left: Value, operator: BinaryOp, right: Value) -> (r: Result<Value, BackendError>)
    requires
        operator is And || operator is Or,
    ensures
        value_result(r) == eval_logical(left@, operator, right@),
{
    let and = match operator {
        BinaryOp::And => true,
        _ => false,
    };
    let l_false = match left { Value::Boolean(false) => true, _ => false };
    let l_true = match left { Value::Boolean(true) => true, _ => false };
    let r_false = match right { Value::Boolean(false) => true, _ => false };
    let r_true = match right { Value::Boolean(true) => true, _ => false };
    let l_null = match left { Value::Null => true, _ => false };
    let r_null = match right { Value::Null => true, _ => false };
    let l_bool = l_false || l_true;
    let r_bool = r_false || r_true;
    if and && (l_false || r_false) {
        Ok(Value::Boolean(false))
    } else if and && l_true && r_true {
        Ok(Value::Boolean(true))
    } else if !and && (l_true || r_true) {
        Ok(Value::Boolean(true))
    } else if !and && l_false && r_false {
        Ok(Value::Boolean(false))
    } else if (l_null && r_bool) || (l_bool && r_null) || (l_null && r_null) {
        Ok(Value::Null)
    } else {
        Err(BackendError::InvalidExpression(message4(
            "logical operators require BOOLEAN values, found ",
            left.sql_type_name(),
            " and ",
            right.sql_type_name(),
        )))
    }
}

/// Lexicographic order of two strings by code point.
#[verifier::rlimit(30)]
fn compare_text(a: &String, b: &String) -> (o: i8)
    ensures
        o as int == text_compare(a@, b@),
{
    let x = chars_of(a.as_str());
    let y = chars_of(b.as_str());
    let mut i: usize = 0;
    assert(a@.skip(0) =~= a@);
    assert(b@.skip(0) =~= b@);
    while i < x.len() && i < y.len()
        invariant
            x@ == a@,
            y@ == b@,
            i <= x.len(),
            i <= y.len(),
            text_compare(a@, b@) == text_compare(a@.skip(i as int), b@.skip(i as int)),
        decreases x.len() - i,
    {
        let cx: u32 = x[i] as u32;
        let cy: u32 = y[i] as u32;
        assert(a@.skip(i as int)[0] == x@[i as int]);
        assert(b@.skip(i as int)[0] == y@[i as int]);
        if cx < cy {
            return -1;
        } else if cx > cy {
            return 1;
        }
        assert(a@.skip(i as int).drop_first() =~= a@.skip(i + 1));
        assert(b@.skip(i as int).drop_first() =~= b@.skip(i + 1));
        i = i + 1;
    }
    if i == x.len() && i == y.len() {
        0
    } else if i == x.len() {
        -1
    } else {
        1
    }
}

fn int_order(a: i64, b: i64) -> (o: i8)
    ensures
        o as int == int_compare(a as int, b as int),
{
    if a < b {
        -1
    } else if a == b {
        0
    } else {
        1
    }
}

/// The float host's conversion of an integer.
fn host_int_to_float<F: Fn(FloatTask) -> FloatReply>(i: i64, host: &F) -> (b: Option<u64>)
    requires
        host_ready(host),
    ensures
        forall|m: FloatModel| follows(host, m) ==> b == int_to_float(i, m),
{
    match ask(host, FloatTask::FromInteger(i)) {
        FloatReply::Number(b) => Some(b),
        _ => None,
    }
}

fn order_result(operator: BinaryOp, o: i8) -> (b: bool)
    ensures
        b == order_satisfies(operator, o as int),
{
    match operator {
        BinaryOp::Equal => o == 0,
        BinaryOp::NotEqual => o != 0,
        BinaryOp::LessThan => o == -1,
        BinaryOp::LessThanOrEqual => o != 1,
        BinaryOp::GreaterThan => o == 1,
        _ => o != -1,
    }
}

#[verifier::rlimit(30)]
fn eval_comparison_values<F: Fn(FloatTask) -> FloatReply>(left: Value, operator: BinaryOp, right: Value, host: &F) -> (r: Result<Value, BackendError>)
    requires
        host_ready(host),
    ensures
        forall|m: FloatModel| follows(host, m) ==> value_result(r) == eval_comparison(left@, operator, right@, m),
{
    let l_null = match left { Value::Null => true, _ => false };
    let r_null = match right { Value::Null => true, _ => false };
    if l_null || r_null {
        return Ok(Value::Null);
    }
    let order: Option<i8> = match (&left, &right) {
        (Value::Integer(a), Value::Integer(b)) => Some(int_order(*a, *b)),
        (Value::Float(a), Value::Float(b)) => float_three_way(*a, *b),
        (Value::Integer(a), Value::Float(b)) => match host_int_to_float(*a, host) {
            Some(x) => float_three_way(x, *b),
            None => None,
        },
        (Value::Float(a), Value::Integer(b)) => match host_int_to_float(*b, host) {
            Some(y) => float_three_way(*a, y),
            None => None,
        },
        (Value::String(a), Value::String(b)) => Some(compare_text(a, b)),
        (Value::Boolean(a), Value::Boolean(b)) => {
            let equality = match operator {
                BinaryOp::Equal | BinaryOp::NotEqual => true,
                _ => false,
            };
            if equality {
                Some(int_order(if *a { 1 } else { 0 }, if *b { 1 } else { 0 }))
            } else {
                return Err(BackendError::InvalidExpression(message4("cannot compare ", left.sql_type_name(), " with ", right.sql_type_name())));
            }
        },
        _ => {
            return Err(BackendError::InvalidExpression(message4("cannot compare ", left.sql_type_name(), " with ", right.sql_type_name())));
        },
    };
    match order {
        Some(o) => Ok(Value::Boolean(order_result(operator, o))),
        None => Err(BackendError::InvalidExpression(string_of("comparison is undefined"))),
    }
}

fn eval_integer_arithmetic(a: i64, operator: BinaryOp, b: i64) -> (r: Result<Value, BackendError>)
    requires
        operator is Add || operator is Subtract || operator is Multiply || operator is Divide || operator is Modulo,
    ensures
        value_result(r) == int_arithmetic(a, operator, b),
{
    let division = match operator {
        BinaryOp::Divide | BinaryOp::Modulo => true,
        _ => false,
    };
    if division && b == 0 {
        return Err(BackendError::Execution(string_of("division by zero")));
    }
    let value = match operator {
        BinaryOp::Add => a.checked_add(b),
        BinaryOp::Subtract => a.checked_sub(b),
        BinaryOp::Multiply => a.checked_mul(b),
        BinaryOp::Divide => a.checked_div(b),
        _ => a.checked_rem(b),
    };
    match value {
        Some(v) => Ok(Value::Integer(v)),
        None => Err(BackendError::Execution(string_of("integer arithmetic overflow"))),
    }
}

fn eval_float_arithmetic<F: Fn(FloatTask) -> FloatReply>(a: u64, operator: BinaryOp, b: u64, host: &F) -> (r: Result<Value, BackendError>)
    requires
        host_ready(host),
    ensures
        forall|m: FloatModel| follows(host, m) ==> value_result(r) == float_arithmetic(a, operator, b, m),
{
    let division = match operator {
        BinaryOp::Divide | BinaryOp::Modulo => true,
        _ => false,
    };
    if float_is_zero(b) && division {
        return Err(BackendError::Execution(string_of("division by zero")));
    }
    match ask(host, FloatTask::Arithmetic(operator, a, b)) {
        FloatReply::Number(x) => finite_float(x),
        _ => Err(BackendError::Execution(string_of("floating-point operation produced a non-finite value"))),
    }
}

#[verifier::rlimit(30)]
fn eval_arithmetic_values<F: Fn(FloatTask) -> FloatReply>(left: Value, operator: BinaryOp, right: Value, host: &F) -> (r: Result<Value, BackendError>)
    requires
        host_ready(host),
        operator is Add || operator is Subtract || operator is Multiply || operator is Divide || operator is Modulo,
    ensures
        forall|m: FloatModel| follows(host, m) ==> value_result(r) == eval_arithmetic(left@, operator, right@, m),
{
    let l_null = match left { Value::Null => true, _ => false };
    let r_null = match right { Value::Null => true, _ => false };
    if l_null || r_null {
        return Ok(Value::Null);
    }
    match (&left, &right) {
        (Value::Integer(a), Value::Integer(b)) => eval_integer_arithmetic(*a, operator, *b),
        (Value::Integer(a), Value::Float(b)) => match host_int_to_float(*a, host) {
            Some(x) => eval_float_arithmetic(x, operator, *b, host),
            None => Err(BackendError::Execution(string_of("floating-point operation produced a non-finite value"))),
        },
        (Value::Float(a), Value::Integer(b)) => match host_int_to_float(*b, host) {
            Some(y) => eval_float_arithmetic(*a, operator, y, host),
            None => Err(BackendError::Execution(string_of("floating-point operation produced a non-finite value"))),
        },
        (Value::Float(a), Value::Float(b)) => eval_float_arithmetic(*a, operator, *b, host),
        _ => Err(BackendError::InvalidExpression(message4(
            "arithmetic requires numeric values, found ",
            left.sql_type_name(),
            " and ",
            right.sql_type_name(),
        ))),
    }
}

fn eval_binary_values<F: Fn(FloatTask) -> FloatReply>(left: Value, operator: BinaryOp, right: Value, host: &F) -> (r: Result<Value, BackendError>)
    requires
        host_ready(host),
    ensures
        forall|m: FloatModel| follows(host, m) ==> value_result(r) == eval_binary(left@, operator, right@, m),
{
    match operator {
        BinaryOp::And | BinaryOp::Or => eval_logical_values(left, operator, right),
        BinaryOp::Add | BinaryOp::Subtract | BinaryOp::Multiply | BinaryOp::Divide | BinaryOp::Modulo => eval_arithmetic_values(left, operator, right, host),
        _ => eval_comparison_values(left, operator, right, host),
    }
}

pub open spec fn scope_of(row: Option<Seq<Value>>, columns: Seq<ColumnDefinition>) -> SpecScope {
    match row {
        Some(r) => SpecScope::Row { values: row_view(r), columns: columns_view(columns) },
        None => SpecScope::Constant,
    }
}

pub open spec fn opt_row(row: Option<&Row>) -> Option<Seq<Value>> {
    match row {
        Some(r) => Some(r@),
        None => None,
    }
}

#[verifier::rlimit(30)]
fn lookup_value(name: &String, row: Option<&Row>, columns: &Vec<ColumnDefinition>) -> (r: Result<Value, BackendError>)
    ensures
        value_result(r) == lookup(scope_of(opt_row(row), columns@), name@),
{
    match row {
        Some(values) => match find_column_index(columns, name.as_str()) {
            Some(index) => {
                if index < values.len() {
                    Ok(copy_value(&values[index]))
                } else {
                    let mut m = string_of("row is missing column '");
                    push_str(&mut m, name.as_str());
                    push_str(&mut m, "'");
                    Err(BackendError::InvalidSchema(m))
                }
            },
            None => {
                let mut m = string_of("unknown column '");
                push_str(&mut m, name.as_str());
                push_str(&mut m, "'");
                Err(BackendError::InvalidExpression(m))
            },
        },
        None => {
            let mut m = string_of("INSERT value may not reference column '");
            push_str(&mut m, name.as_str());
            push_str(&mut m, "'");
            Err(BackendError::InvalidExpression(m))
        },
    }
}

fn literal_value(literal: &Literal) -> (v: Value)
    ensures
        v@ == literal@,
{
    match literal {
        Literal::Integer(value) => Value::Integer(*value),
        Literal::Float(value) => Value::Float(*value),
        Literal::String(value) => Value::String(value.clone()),
        Literal::Boolean(value) => Value::Boolean(*value),
        Literal::Null => Value::Null,
    }
}

fn eval_expr<F: Fn(FloatTask) -> FloatReply>(expression: &Expr, row: Option<&Row>, columns: &Vec<ColumnDefinition>, host: &F) -> (r: Result<Value, BackendError>)
    requires
        host_ready(host),
    ensures
        forall|m: FloatModel| follows(host, m) ==> value_result(r) == eval(expression@, scope_of(opt_row(row), columns@), m),
    decreases expression,
{
    match &expression.kind {
        ExprKind::Literal(literal) => Ok(literal_value(literal)),
        ExprKind::Identifier(name) => lookup_value(name, row, columns),
        ExprKind::Unary { op, expr } => {
            let value = eval_expr(expr, row, columns, host)?;
            eval_unary_value(*op, value)
        },
        ExprKind::Binary { left, op, right } => {
            let left = eval_expr(left, row, columns, host)?;
            let right = eval_expr(right, row, columns, host)?;
            eval_binary_values(left, *op, right, host)
        },
    }
}

/// The value of an expression on a row of a table.
pub fn eval_on_row<F: Fn(FloatTask) -> FloatReply>(expression: &Expr, row: &Row, table: &Table, host: &F) -> (r: Result<Value, BackendError>)
    requires
        host_ready(host),
    ensures
        forall|m: FloatModel| follows(host, m) ==> value_result(r) == eval(
            expression@,
            SpecScope::Row { values: row_view(row@), columns: table@.columns },
            m,
        ),
{
    eval_expr(expression, Some(row), &table.columns, host)
}

/// The value of an expression that may not name columns (an INSERT value).
pub fn eval_const<F: Fn(FloatTask) -> FloatReply>(expression: &Expr, host: &F) -> (r: Result<Value, BackendError>)
    requires
        host_ready(host),
    ensures
        forall|m: FloatModel| follows(host, m) ==> value_result(r) == eval(expression@, SpecScope::Constant, m),
{
    let no_columns: Vec<ColumnDefinition> = Vec::new();
    eval_expr(expression, None, &no_columns, host)
}

} // verus!
