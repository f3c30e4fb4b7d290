use vstd::prelude::*;
use crate::span::Span;

verus! {

/// An expression node in the SQL AST.
#[derive(Debug, PartialEq)]
pub struct Expr {
    pub kind: ExprKind,
    pub span: Span,
}

#[derive(Debug, PartialEq)]
#[allow(inconsistent_fields)]
pub enum ExprKind {
    /// Column or table identifier.
    Identifier(String),
    /// Literal value.
    Literal(Literal),
    /// Unary operation.
    Unary { op: UnaryOp, expr: Box<Expr> },
    /// Binary operation.
    Binary { left: Box<Expr>, op: BinaryOp, right: Box<Expr> },
}

/// A literal; `Float` holds an IEEE-754 binary64 bit pattern.
#[derive(Debug, Clone, PartialEq)]
pub enum Literal {
    Integer(i64),
    Float(u64),
    String(String),
    Boolean(bool),
    Null,
}

#[derive(Debug, Clone, Copy, PartialEq, Eq, Structural)]
pub enum UnaryOp {
    Plus,
    Minus,
    Not,
}

#[derive(Debug, Clone, Copy, PartialEq, Eq, Structural)]
pub enum BinaryOp {
    Add,
    Subtract,
    Multiply,
    Divide,
    Modulo,
    Equal,
    NotEqual,
    LessThan,
    LessThanOrEqual,
    GreaterThan,
    GreaterThanOrEqual,
    And,
    Or,
}

/// A stored or computed value; `Float` holds an IEEE-754 binary64 bit pattern.
#[derive(Debug, Clone, PartialEq)]
pub enum Value {
    Integer(i64),
    Float(u64),
    String(String),
    Boolean(bool),
    Null,
}

/// The mathematical value of an [`Expr`].
pub struct SpecExpr {
    pub kind: SpecExprKind,
    pub span: Span,
}

#[allow(inconsistent_fields)]
pub enum SpecExprKind {
    Identifier(Seq<char>),
    Literal(SpecValue),
    Unary { op: UnaryOp, expr: Box<SpecExpr> },
    Binary { left: Box<SpecExpr>, op: BinaryOp, right: Box<SpecExpr> },
}

/// The mathematical value of a [`Value`] (and of a [`Literal`]).
pub enum SpecValue {
    Integer(i64),
    Float(u64),
    String(Seq<char>),
    Boolean(bool),
    Null,
}

impl View for Value {
    type V = SpecValue;

    open spec fn view(&self) -> SpecValue {
        match self {
            Value::Integer(v) => SpecValue::Integer(*v),
            Value::Float(v) => SpecValue::Float(*v),
            Value::String(s) => SpecValue::String(s@),
            Value::Boolean(b) => SpecValue::Boolean(*b),
            Value::Null => SpecValue::Null,
        }
    }
}

impl View for Literal {
    type V = SpecValue;

    open spec fn view(&self) -> SpecValue {
        match self {
            Literal::Integer(v) => SpecValue::Integer(*v),
            Literal::Float(v) => SpecValue::Float(*v),
            Literal::String(s) => SpecValue::String(s@),
            Literal::Boolean(b) => SpecValue::Boolean(*b),
            Literal::Null => SpecValue::Null,
        }
    }
}

pub open spec fn expr_view(e: Expr) -> SpecExpr
    decreases e,
{
    SpecExpr {
        kind: match e.kind {
            ExprKind::Identifier(s) => SpecExprKind::Identifier(s@),
            ExprKind::Literal(l) => SpecExprKind::Literal(l@),
            ExprKind::Unary { op, expr } => SpecExprKind::Unary { op, expr: Box::new(expr_view(*expr)) },
            ExprKind::Binary { left, op, right } => SpecExprKind::Binary {
                left: Box::new(expr_view(*left)),
                op,
                right: Box::new(expr_view(*right)),
            },
        },
        span: e.span,
    }
}

impl View for Expr {
    type V = SpecExpr;

    open spec fn view(&self) -> SpecExpr {
        expr_view(*self)
    }
}

/// The SQL name of a value's type.
pub open spec fn spec_type_name(v: SpecValue) -> Seq<char> {
    match v {
        SpecValue::Integer(_) => "INTEGER"@,
        SpecValue::Float(_) => "FLOAT"@,
        SpecValue::String(_) => "STRING"@,
        SpecValue::Boolean(_) => "BOOLEAN"@,
        SpecValue::Null => "NULL"@,
    }
}

impl Expr {
    pub fn new(kind: ExprKind, span: Span) -> (e: Expr)
        ensures
            e.kind == kind,
            e.span == span,
    {
        Expr { kind, span }
    }

    pub fn identifier(name: String, span: Span) -> (e: Expr)
        ensures
            e.kind == ExprKind::Identifier(name),
            e.span == span,
    {
        Expr::new(ExprKind::Identifier(name), span)
    }

    pub fn integer(value: i64, span: Span) -> (e: Expr)
        ensures
            e.kind == ExprKind::Literal(Literal::Integer(value)),
            e.span == span,
    {
        Expr::new(ExprKind::Literal(Literal::Integer(value)), span)
    }

    pub fn string(value: String, span: Span) -> (e: Expr)
        ensures
            e.kind == ExprKind::Literal(Literal::String(value)),
            e.span == span,
    {
        Expr::new(ExprKind::Literal(Literal::String(value)), span)
    }

    pub fn boolean(value: bool, span: Span) -> (e: Expr)
        ensures
            e.kind == ExprKind::Literal(Literal::Boolean(value)),
            e.span == span,
    {
        Expr::new(ExprKind::Literal(Literal::Boolean(value)), span)
    }
}

impl Value {
    /// The SQL name of this value's type.
    pub fn sql_type_name(&self) -> (name: &'static str)
        ensures
            name@ == spec_type_name(self@),
    {
        match self {
            Value::Integer(_) => "INTEGER",
            Value::Float(_) => "FLOAT",
            Value::String(_) => "STRING",
            Value::Boolean(_) => "BOOLEAN",
            Value::Null => "NULL",
        }
    }
}

/// A copy of `v` with the same contents.
pub fn copy_value(v: &Value) -> (c: Value)
    ensures
        c == *v,
        c@ == v@,
{
    match v {
        Value::Integer(i) => Value::Integer(*i),
        Value::Float(f) => Value::Float(*f),
        Value::String(s) => Value::String(s.clone()),
        Value::Boolean(b) => Value::Boolean(*b),
        Value::Null => Value::Null,
    }
}

} // verus!
