use vstd::prelude::*;
use crate::expr::{BinaryOp, Expr, ExprKind, Literal, SpecExpr, SpecExprKind, SpecValue, UnaryOp};
use crate::float::{ask, follows, host_ready, FloatReply, FloatTask, SpecFloatReply, SpecFloatTask};
use crate::lexer::FloatModel;
use crate::span::Span;
use crate::statement::{
    ColumnDefinition, CreateTableStatement, DataType, InsertStatement, SelectItem, SelectStatement,
    SpecColumn, SpecCreateTable, SpecInsert, SpecSelect, SpecSelectItem, SpecStatement,
    SpecStatementKind, Statement, StatementKind,
};
use crate::lexer::tokens_view;
use crate::text::{chars_of, eq_ignore_ascii_case, upper_equals, eq_ignore_case, int_text, push_i64_text, push_quoted, push_str, quoted, string_of, upper_seq};
use crate::token::{Keyword, SpannedToken, SpecSpanned, SpecToken, Token};

verus! {

/// A parsing failure.
#[derive(Debug, Clone, PartialEq, Eq)]
pub enum ParseError {
    UnexpectedToken { expected: String, found: String, span: Span },
    UnexpectedEof,
    Message { message: String, span: Span },
}

pub enum SpecParseError {
    UnexpectedToken { expected: Seq<char>, found: Seq<char>, span: Span },
    UnexpectedEof,
    Message { message: Seq<char>, span: Span },
}

impl View for ParseError {
    type V = SpecParseError;

    open spec fn view(&self) -> SpecParseError {
        match self {
            ParseError::UnexpectedToken { expected, found, span } => SpecParseError::UnexpectedToken {
                expected: expected@,
                found: found@,
                span: *span,
            },
            ParseError::UnexpectedEof => SpecParseError::UnexpectedEof,
            ParseError::Message { message, span } => SpecParseError::Message { message: message@, span: *span },
        }
    }
}

// ---------------------------------------------------------------------------
// Debug texts of tokens, as they appear in error messages.

pub open spec fn keyword_name(k: Keyword) -> Seq<char> {
    match k {
        Keyword::Select => "Select"@,
        Keyword::From => "From"@,
        Keyword::Where => "Where"@,
        Keyword::Insert => "Insert"@,
        Keyword::Into => "Into"@,
        Keyword::Values => "Values"@,
        Keyword::Create => "Create"@,
        Keyword::Table => "Table"@,
        Keyword::As => "As"@,
        Keyword::Primary => "Primary"@,
        Keyword::Key => "Key"@,
    }
}

/// The `Debug` text of a float, from the float host (empty if it gives no text).
pub open spec fn float_debug(bits: u64, fl: FloatModel) -> Seq<char> {
    match fl(SpecFloatTask::DebugText(bits)) {
        SpecFloatReply::Text(t) => t,
        _ => Seq::empty(),
    }
}

pub open spec fn bool_text(b: bool) -> Seq<char> {
    if b {
        "true"@
    } else {
        "false"@
    }
}

/// The `Debug` text of a token.
pub open spec fn token_debug(t: SpecToken, fl: FloatModel) -> Seq<char> {
    match t {
        SpecToken::Keyword(k) => "Keyword("@ + keyword_name(k) + ")"@,
        SpecToken::Identifier(s) => "Identifier("@ + quoted(s) + ")"@,
        SpecToken::Integer(i) => "Integer("@ + int_text(i as int) + ")"@,
        SpecToken::Float(b) => "Float("@ + float_debug(b, fl) + ")"@,
        SpecToken::String(s) => "String("@ + quoted(s) + ")"@,
        SpecToken::Boolean(b) => "Boolean("@ + bool_text(b) + ")"@,
        SpecToken::Null => "Null"@,
        SpecToken::Comma => "Comma"@,
        SpecToken::Semicolon => "Semicolon"@,
        SpecToken::LParen => "LParen"@,
        SpecToken::RParen => "RParen"@,
        SpecToken::Plus => "Plus"@,
        SpecToken::Minus => "Minus"@,
        SpecToken::Star => "Star"@,
        SpecToken::Slash => "Slash"@,
        SpecToken::Percent => "Percent"@,
        SpecToken::Equal => "Equal"@,
        SpecToken::NotEqual => "NotEqual"@,
        SpecToken::LessThan => "LessThan"@,
        SpecToken::LessThanOrEqual => "LessThanOrEqual"@,
        SpecToken::GreaterThan => "GreaterThan"@,
        SpecToken::GreaterThanOrEqual => "GreaterThanOrEqual"@,
        SpecToken::And => "And"@,
        SpecToken::Or => "Or"@,
        SpecToken::Not => "Not"@,
        SpecToken::Eof => "Eof"@,
    }
}

// ---------------------------------------------------------------------------
// The grammar, as functions on the token sequence and a position in it.

pub type Tokens = Seq<SpecSpanned>;

/// A token sequence the parser accepts: non-empty and ending with `Eof`.
pub open spec fn well_formed_tokens(ts: Tokens) -> bool {
    ts.len() > 0 && ts.last().token is Eof
}

pub open spec fn tok(ts: Tokens, p: int) -> SpecToken {
    ts[p].token
}

/// The position after consuming the token at `p` (the last token is never passed).
pub open spec fn adv(ts: Tokens, p: int) -> int {
    if p + 1 < ts.len() {
        p + 1
    } else {
        p
    }
}

/// The span of the token before `p` (of the first token when `p` is 0).
pub open spec fn prev_span(ts: Tokens, p: int) -> Span {
    ts[if p >= 1 { p - 1 } else { 0 }].span
}

/// The error for an unexpected token at `p`.
pub open spec fn unexpected(ts: Tokens, p: int, expected: Seq<char>, fl: FloatModel) -> SpecParseError {
    if tok(ts, p) is Eof {
        SpecParseError::UnexpectedEof
    } else {
        SpecParseError::UnexpectedToken { expected, found: token_debug(tok(ts, p), fl), span: ts[p].span }
    }
}

pub type PResult<T> = Result<(T, int), SpecParseError>;

pub open spec fn binary(left: SpecExpr, op: BinaryOp, right: SpecExpr) -> SpecExpr {
    SpecExpr {
        kind: SpecExprKind::Binary { left: Box::new(left), op, right: Box::new(right) },
        span: left.span.spec_merge(right.span),
    }
}

pub open spec fn comparison_op(t: SpecToken) -> Option<BinaryOp> {
    match t {
        SpecToken::Equal => Some(BinaryOp::Equal),
        SpecToken::NotEqual => Some(BinaryOp::NotEqual),
        SpecToken::GreaterThan => Some(BinaryOp::GreaterThan),
        SpecToken::LessThan => Some(BinaryOp::LessThan),
        SpecToken::GreaterThanOrEqual => Some(BinaryOp::GreaterThanOrEqual),
        SpecToken::LessThanOrEqual => Some(BinaryOp::LessThanOrEqual),
        _ => None,
    }
}

pub open spec fn additive_op(t: SpecToken) -> Option<BinaryOp> {
    match t {
        SpecToken::Plus => Some(BinaryOp::Add),
        SpecToken::Minus => Some(BinaryOp::Subtract),
        _ => None,
    }
}

pub open spec fn multiplicative_op(t: SpecToken) -> Option<BinaryOp> {
    match t {
        SpecToken::Star => Some(BinaryOp::Multiply),
        SpecToken::Slash => Some(BinaryOp::Divide),
        SpecToken::Percent => Some(BinaryOp::Modulo),
        _ => None,
    }
}

pub open spec fn unary_op(t: SpecToken) -> Option<UnaryOp> {
    match t {
        SpecToken::Plus => Some(UnaryOp::Plus),
        SpecToken::Minus => Some(UnaryOp::Minus),
        SpecToken::Not => Some(UnaryOp::Not),
        _ => None,
    }
}

/// Literal tokens as literal values.
pub open spec fn literal_value(t: SpecToken) -> Option<SpecValue> {
    match t {
        SpecToken::Integer(v) => Some(SpecValue::Integer(v)),
        SpecToken::Float(v) => Some(SpecValue::Float(v)),
        SpecToken::String(s) => Some(SpecValue::String(s)),
        SpecToken::Boolean(b) => Some(SpecValue::Boolean(b)),
        SpecToken::Null => Some(SpecValue::Null),
        _ => None,
    }
}

/// expression := or
pub open spec fn parse_expr(ts: Tokens, p: int, fl: FloatModel) -> PResult<SpecExpr>
    decreases ts.len() - p, 11int,
{
    parse_or(ts, p, fl)
}

/// or := and ("OR" and)*
pub open spec fn parse_or(ts: Tokens, p: int, fl: FloatModel) -> PResult<SpecExpr>
    decreases ts.len() - p, 10int,
{
    match parse_and(ts, p, fl) {
        Ok((left, q)) => if p <= q <= ts.len() {
            or_rest(ts, q, left, fl)
        } else {
            Ok((left, q))
        },
        Err(e) => Err(e),
    }
}

pub open spec fn or_rest(ts: Tokens, q: int, left: SpecExpr, fl: FloatModel) -> PResult<SpecExpr>
    decreases ts.len() - q, 9int,
{
    if 0 <= q < ts.len() && tok(ts, q) is Or {
        match parse_and(ts, adv(ts, q), fl) {
            Ok((right, q2)) => if q < q2 <= ts.len() {
                or_rest(ts, q2, binary(left, BinaryOp::Or, right), fl)
            } else {
                Ok((binary(left, BinaryOp::Or, right), q2))
            },
            Err(e) => Err(e),
        }
    } else {
        Ok((left, q))
    }
}

/// and := comparison ("AND" comparison)*
pub open spec fn parse_and(ts: Tokens, p: int, fl: FloatModel) -> PResult<SpecExpr>
    decreases ts.len() - p, 8int,
{
    match parse_comparison(ts, p, fl) {
        Ok((left, q)) => if p <= q <= ts.len() {
            and_rest(ts, q, left, fl)
        } else {
            Ok((left, q))
        },
        Err(e) => Err(e),
    }
}

pub open spec fn and_rest(ts: Tokens, q: int, left: SpecExpr, fl: FloatModel) -> PResult<SpecExpr>
    decreases ts.len() - q, 7int,
{
    if 0 <= q < ts.len() && tok(ts, q) is And {
        match parse_comparison(ts, adv(ts, q), fl) {
            Ok((right, q2)) => if q < q2 <= ts.len() {
                and_rest(ts, q2, binary(left, BinaryOp::And, right), fl)
            } else {
                Ok((binary(left, BinaryOp::And, right), q2))
            },
            Err(e) => Err(e),
        }
    } else {
        Ok((left, q))
    }
}

/// comparison := additive [comparison-operator additive]
pub open spec fn parse_comparison(ts: Tokens, p: int, fl: FloatModel) -> PResult<SpecExpr>
    decreases ts.len() - p, 6int,
{
    match parse_additive(ts, p, fl) {
        Ok((left, q)) => if q >= p && 0 <= q < ts.len() && comparison_op(tok(ts, q)) is Some {
            match parse_additive(ts, adv(ts, q), fl) {
                Ok((right, q2)) => Ok((binary(left, comparison_op(tok(ts, q))->0, right), q2)),
                Err(e) => Err(e),
            }
        } else {
            Ok((left, q))
        },
        Err(e) => Err(e),
    }
}

/// additive := multiplicative (("+" | "-") multiplicative)*
pub open spec fn parse_additive(ts: Tokens, p: int, fl: FloatModel) -> PResult<SpecExpr>
    decreases ts.len() - p, 5int,
{
    match parse_multiplicative(ts, p, fl) {
        Ok((left, q)) => if p <= q <= ts.len() {
            additive_rest(ts, q, left, fl)
        } else {
            Ok((left, q))
        },
        Err(e) => Err(e),
    }
}

pub open spec fn additive_rest(ts: Tokens, q: int, left: SpecExpr, fl: FloatModel) -> PResult<SpecExpr>
    decreases ts.len() - q, 4int,
{
    if 0 <= q < ts.len() && additive_op(tok(ts, q)) is Some {
        let op = additive_op(tok(ts, q))->0;
        match parse_multiplicative(ts, adv(ts, q), fl) {
            Ok((right, q2)) => if q < q2 <= ts.len() {
                additive_rest(ts, q2, binary(left, op, right), fl)
            } else {
                Ok((binary(left, op, right), q2))
            },
            Err(e) => Err(e),
        }
    } else {
        Ok((left, q))
    }
}

/// multiplicative := unary (("*" | "/" | "%") unary)*
pub open spec fn parse_multiplicative(ts: Tokens, p: int, fl: FloatModel) -> PResult<SpecExpr>
    decreases ts.len() - p, 3int,
{
    match parse_unary(ts, p, fl) {
        Ok((left, q)) => if p <= q <= ts.len() {
            multiplicative_rest(ts, q, left, fl)
        } else {
            Ok((left, q))
        },
        Err(e) => Err(e),
    }
}

pub open spec fn multiplicative_rest(ts: Tokens, q: int, left: SpecExpr, fl: FloatModel) -> PResult<SpecExpr>
    decreases ts.len() - q, 2int,
{
    if 0 <= q < ts.len() && multiplicative_op(tok(ts, q)) is Some {
        let op = multiplicative_op(tok(ts, q))->0;
        match parse_unary(ts, adv(ts, q), fl) {
            Ok((right, q2)) => if q < q2 <= ts.len() {
                multiplicative_rest(ts, q2, binary(left, op, right), fl)
            } else {
                Ok((binary(left, op, right), q2))
            },
            Err(e) => Err(e),
        }
    } else {
        Ok((left, q))
    }
}

/// unary := ("+" | "-" | "NOT") unary | primary
pub open spec fn parse_unary(ts: Tokens, p: int, fl: FloatModel) -> PResult<SpecExpr>
    decreases ts.len() - p, 1int,
{
    if 0 <= p < ts.len() && unary_op(tok(ts, p)) is Some {
        if p + 1 < ts.len() {
            match parse_unary(ts, p + 1, fl) {
                Ok((e, q)) => Ok((
                    SpecExpr {
                        kind: SpecExprKind::Unary { op: unary_op(tok(ts, p))->0, expr: Box::new(e) },
                        span: ts[p].span.spec_merge(e.span),
                    },
                    q,
                )),
                Err(err) => Err(err),
            }
        } else {
            Err(SpecParseError::UnexpectedEof)
        }
    } else {
        parse_primary(ts, p, fl)
    }
}

/// primary := identifier | literal | "(" expression ")"
pub open spec fn parse_primary(ts: Tokens, p: int, fl: FloatModel) -> PResult<SpecExpr>
    decreases ts.len() - p, 0int,
{
    if p < 0 || p >= ts.len() {
        Err(SpecParseError::UnexpectedEof)
    } else {
        match tok(ts, p) {
            SpecToken::Identifier(name) => Ok((
                SpecExpr { kind: SpecExprKind::Identifier(name), span: ts[p].span },
                adv(ts, p),
            )),
            SpecToken::LParen => if p + 1 < ts.len() {
                match parse_expr(ts, p + 1, fl) {
                    Ok((inner, q)) => if 0 <= q < ts.len() && tok(ts, q) is RParen {
                        let q2 = adv(ts, q);
                        Ok((SpecExpr { kind: inner.kind, span: ts[p].span.spec_merge(prev_span(ts, q2)) }, q2))
                    } else {
                        Err(unexpected(ts, q, "RParen"@, fl))
                    },
                    Err(e) => Err(e),
                }
            } else {
                Err(SpecParseError::UnexpectedEof)
            },
            t => match literal_value(t) {
                Some(v) => Ok((SpecExpr { kind: SpecExprKind::Literal(v), span: ts[p].span }, adv(ts, p))),
                None => Err(unexpected(ts, p, "expression"@, fl)),
            },
        }
    }
}

/// identifier
pub open spec fn parse_ident(ts: Tokens, p: int, fl: FloatModel) -> Result<(Seq<char>, Span, int), SpecParseError> {
    match tok(ts, p) {
        SpecToken::Identifier(name) => Ok((name, ts[p].span, adv(ts, p))),
        _ => Err(unexpected(ts, p, "identifier"@, fl)),
    }
}

pub open spec fn expect_keyword(ts: Tokens, p: int, k: Keyword, fl: FloatModel) -> Result<int, SpecParseError> {
    if tok(ts, p) == SpecToken::Keyword(k) {
        Ok(adv(ts, p))
    } else {
        Err(unexpected(ts, p, keyword_name(k), fl))
    }
}

/// The data type named (without regard to ASCII case) by a word.
pub open spec fn data_type_of(name: Seq<char>) -> Option<DataType> {
    let u = upper_seq(name);
    if u == "INTEGER"@ || u == "INT"@ {
        Some(DataType::Integer)
    } else if u == "FLOAT"@ || u == "DOUBLE"@ {
        Some(DataType::Float)
    } else if u == "BOOLEAN"@ || u == "BOOL"@ {
        Some(DataType::Boolean)
    } else if u == "STRING"@ || u == "TEXT"@ || u == "VARCHAR"@ {
        Some(DataType::String)
    } else {
        None
    }
}

pub open spec fn parse_data_type(ts: Tokens, p: int, fl: FloatModel) -> PResult<DataType> {
    match tok(ts, p) {
        SpecToken::Identifier(name) => match data_type_of(name) {
            Some(d) => Ok((d, adv(ts, p))),
            None => Err(SpecParseError::Message { message: "unknown data type '"@ + name + "'"@, span: ts[p].span }),
        },
        _ => Err(unexpected(ts, p, "data type"@, fl)),
    }
}

/// Column constraints: any sequence of `PRIMARY KEY` and `NOT NULL`.
/// Gives the column's nullability and primary-key flag, whether the table
/// now has a primary key, and the position after the constraints.
pub open spec fn parse_constraints(
    ts: Tokens,
    q: int,
    nullable: bool,
    primary_key: bool,
    not_null_seen: bool,
    primary_key_seen: bool,
    fl: FloatModel,
) -> Result<(bool, bool, bool, int), SpecParseError>
    decreases ts.len() - q,
{
    if 0 <= q < ts.len() && tok(ts, q) == SpecToken::Keyword(Keyword::Primary) {
        if primary_key || primary_key_seen {
            Err(SpecParseError::Message { message: "a table may have only one primary key"@, span: ts[q].span })
        } else {
            let q1 = adv(ts, q);
            if tok(ts, q1) == SpecToken::Keyword(Keyword::Key) {
                let q2 = adv(ts, q1);
                if q < q2 <= ts.len() {
                    parse_constraints(ts, q2, false, true, not_null_seen, true, fl)
                } else {
                    Ok((false, true, true, q2))
                }
            } else {
                Err(unexpected(ts, q1, "Key"@, fl))
            }
        }
    } else if 0 <= q < ts.len() && tok(ts, q) is Not {
        if not_null_seen {
            Err(SpecParseError::Message { message: "duplicate NOT NULL constraint"@, span: ts[q].span })
        } else {
            let q1 = adv(ts, q);
            if tok(ts, q1) is Null {
                let q2 = adv(ts, q1);
                if q < q2 <= ts.len() {
                    parse_constraints(ts, q2, false, primary_key, true, primary_key_seen, fl)
                } else {
                    Ok((false, primary_key, primary_key_seen, q2))
                }
            } else {
                Err(unexpected(ts, q1, "Null"@, fl))
            }
        }
    } else {
        Ok((nullable, primary_key, primary_key_seen, q))
    }
}

/// Some column of `columns` has `name`, without regard to ASCII case.
pub open spec fn has_column_named(columns: Seq<SpecColumn>, name: Seq<char>) -> bool {
    exists|k: int| 0 <= k < columns.len() && eq_ignore_case(#[trigger] columns[k].name, name)
}

/// column-definition ("," column-definition)* ")"
pub open spec fn parse_column_items(
    ts: Tokens,
    p: int,
    acc: Seq<SpecColumn>,
    primary_key_seen: bool,
    fl: FloatModel,
) -> PResult<Seq<SpecColumn>>
    decreases ts.len() - p,
{
    match parse_ident(ts, p, fl) {
        Err(e) => Err(e),
        Ok((name, name_span, q)) => if has_column_named(acc, name) {
            Err(SpecParseError::Message { message: "duplicate column '"@ + name + "'"@, span: name_span })
        } else {
            match parse_data_type(ts, q, fl) {
                Err(e) => Err(e),
                Ok((data_type, q1)) => match parse_constraints(ts, q1, true, false, false, primary_key_seen, fl) {
                    Err(e) => Err(e),
                    Ok((nullable, primary_key, seen, q2)) => if primary_key && data_type == DataType::Float {
                        Err(SpecParseError::Message { message: "FLOAT primary keys are not supported"@, span: name_span })
                    } else {
                        let columns = acc.push(SpecColumn { name, data_type, nullable, primary_key });
                        match tok(ts, q2) {
                            SpecToken::Comma => if p < adv(ts, q2) <= ts.len() {
                                parse_column_items(ts, adv(ts, q2), columns, seen, fl)
                            } else {
                                Ok((columns, adv(ts, q2)))
                            },
                            SpecToken::RParen => Ok((columns, adv(ts, q2))),
                            _ => Err(unexpected(ts, q2, "',' or ')'"@, fl)),
                        }
                    },
                },
            }
        },
    }
}

/// "(" column-definition ("," column-definition)* ")"
pub open spec fn parse_column_definitions(ts: Tokens, p: int, fl: FloatModel) -> PResult<Seq<SpecColumn>> {
    if tok(ts, p) is LParen {
        parse_column_items(ts, adv(ts, p), Seq::empty(), false, fl)
    } else {
        Err(unexpected(ts, p, "LParen"@, fl))
    }
}

/// identifier ("," identifier)* ")"
pub open spec fn parse_ident_items(ts: Tokens, p: int, acc: Seq<Seq<char>>, fl: FloatModel) -> PResult<Seq<Seq<char>>>
    decreases ts.len() - p,
{
    match parse_ident(ts, p, fl) {
        Err(e) => Err(e),
        Ok((name, _, q)) => match tok(ts, q) {
            SpecToken::Comma => if p < adv(ts, q) <= ts.len() {
                parse_ident_items(ts, adv(ts, q), acc.push(name), fl)
            } else {
                Ok((acc.push(name), adv(ts, q)))
            },
            SpecToken::RParen => Ok((acc.push(name), adv(ts, q))),
            _ => Err(unexpected(ts, q, "',' or ')'"@, fl)),
        },
    }
}

pub open spec fn parse_identifier_list(ts: Tokens, p: int, fl: FloatModel) -> PResult<Seq<Seq<char>>> {
    if tok(ts, p) is LParen {
        parse_ident_items(ts, adv(ts, p), Seq::empty(), fl)
    } else {
        Err(unexpected(ts, p, "LParen"@, fl))
    }
}

/// expression ("," expression)* ")"
pub open spec fn parse_expr_items(ts: Tokens, p: int, acc: Seq<SpecExpr>, fl: FloatModel) -> PResult<Seq<SpecExpr>>
    decreases ts.len() - p,
{
    match parse_expr(ts, p, fl) {
        Err(e) => Err(e),
        Ok((e, q)) => match tok(ts, q) {
            SpecToken::Comma => if p < adv(ts, q) <= ts.len() {
                parse_expr_items(ts, adv(ts, q), acc.push(e), fl)
            } else {
                Ok((acc.push(e), adv(ts, q)))
            },
            SpecToken::RParen => Ok((acc.push(e), adv(ts, q))),
            _ => Err(unexpected(ts, q, "',' or ')'"@, fl)),
        },
    }
}

pub open spec fn parse_expression_list(ts: Tokens, p: int, fl: FloatModel) -> PResult<Seq<SpecExpr>> {
    if tok(ts, p) is LParen {
        parse_expr_items(ts, adv(ts, p), Seq::empty(), fl)
    } else {
        Err(unexpected(ts, p, "LParen"@, fl))
    }
}

/// "*" | expression ["AS" identifier]
pub open spec fn parse_select_item(ts: Tokens, p: int, fl: FloatModel) -> PResult<SpecSelectItem> {
    if tok(ts, p) is Star {
        Ok((SpecSelectItem::Wildcard, adv(ts, p)))
    } else {
        match parse_expr(ts, p, fl) {
            Err(e) => Err(e),
            Ok((e, q)) => if tok(ts, q) == SpecToken::Keyword(Keyword::As) {
                match parse_ident(ts, adv(ts, q), fl) {
                    Ok((alias, _, q2)) => Ok((SpecSelectItem::Expression { expr: e, alias: Some(alias) }, q2)),
                    Err(err) => Err(err),
                }
            } else {
                Ok((SpecSelectItem::Expression { expr: e, alias: None }, q))
            },
        }
    }
}

/// select-item ("," select-item)*, up to FROM
pub open spec fn parse_select_columns(ts: Tokens, p: int, acc: Seq<SpecSelectItem>, fl: FloatModel) -> PResult<Seq<SpecSelectItem>>
    decreases ts.len() - p,
{
    match parse_select_item(ts, p, fl) {
        Err(e) => Err(e),
        Ok((item, q)) => match tok(ts, q) {
            SpecToken::Comma => if p < adv(ts, q) <= ts.len() {
                parse_select_columns(ts, adv(ts, q), acc.push(item), fl)
            } else {
                Ok((acc.push(item), adv(ts, q)))
            },
            SpecToken::Keyword(Keyword::From) => Ok((acc.push(item), q)),
            _ => Err(unexpected(ts, q, "',' or FROM"@, fl)),
        },
    }
}

/// "SELECT" select-columns "FROM" identifier ["WHERE" expression]
pub open spec fn parse_select(ts: Tokens, p: int, fl: FloatModel) -> PResult<SpecStatement> {
    let start = ts[p].span;
    match expect_keyword(ts, p, Keyword::Select, fl) {
        Err(e) => Err(e),
        Ok(p1) => match parse_select_columns(ts, p1, Seq::empty(), fl) {
            Err(e) => Err(e),
            Ok((columns, p2)) => match expect_keyword(ts, p2, Keyword::From, fl) {
                Err(e) => Err(e),
                Ok(p3) => match parse_ident(ts, p3, fl) {
                    Err(e) => Err(e),
                    Ok((table, _, p4)) => {
                        let where_part: PResult<Option<SpecExpr>> = if tok(ts, p4) == SpecToken::Keyword(Keyword::Where) {
                            match parse_expr(ts, adv(ts, p4), fl) {
                                Ok((e, p5)) => Ok((Some(e), p5)),
                                Err(e) => Err(e),
                            }
                        } else {
                            Ok((None, p4))
                        };
                        match where_part {
                            Err(e) => Err(e),
                            Ok((where_clause, p5)) => Ok((
                                SpecStatement {
                                    kind: SpecStatementKind::Select(SpecSelect { columns, table, where_clause }),
                                    span: start.spec_merge(prev_span(ts, p5)),
                                },
                                p5,
                            )),
                        }
                    },
                },
            },
        },
    }
}

/// "INSERT" "INTO" identifier ["(" identifier-list ")"] "VALUES" "(" expression-list ")"
pub open spec fn parse_insert(ts: Tokens, p: int, fl: FloatModel) -> PResult<SpecStatement> {
    let start = ts[p].span;
    match expect_keyword(ts, p, Keyword::Insert, fl) {
        Err(e) => Err(e),
        Ok(p1) => match expect_keyword(ts, p1, Keyword::Into, fl) {
            Err(e) => Err(e),
            Ok(p2) => match parse_ident(ts, p2, fl) {
                Err(e) => Err(e),
                Ok((table, _, p3)) => {
                    let column_part = if tok(ts, p3) is LParen {
                        parse_identifier_list(ts, p3, fl)
                    } else {
                        Ok((Seq::empty(), p3))
                    };
                    match column_part {
                        Err(e) => Err(e),
                        Ok((columns, p4)) => match expect_keyword(ts, p4, Keyword::Values, fl) {
                            Err(e) => Err(e),
                            Ok(p5) => match parse_expression_list(ts, p5, fl) {
                                Err(e) => Err(e),
                                Ok((values, p6)) => Ok((
                                    SpecStatement {
                                        kind: SpecStatementKind::Insert(SpecInsert { table, columns, values }),
                                        span: start.spec_merge(prev_span(ts, p6)),
                                    },
                                    p6,
                                )),
                            },
                        },
                    }
                },
            },
        },
    }
}

/// "CREATE" "TABLE" identifier "(" column-definitions ")"
pub open spec fn parse_create_table(ts: Tokens, p: int, fl: FloatModel) -> PResult<SpecStatement> {
    let start = ts[p].span;
    match expect_keyword(ts, p, Keyword::Create, fl) {
        Err(e) => Err(e),
        Ok(p1) => match expect_keyword(ts, p1, Keyword::Table, fl) {
            Err(e) => Err(e),
            Ok(p2) => match parse_ident(ts, p2, fl) {
                Err(e) => Err(e),
                Ok((name, _, p3)) => match parse_column_definitions(ts, p3, fl) {
                    Err(e) => Err(e),
                    Ok((columns, p4)) => Ok((
                        SpecStatement {
                            kind: SpecStatementKind::CreateTable(SpecCreateTable { name, columns }),
                            span: start.spec_merge(prev_span(ts, p4)),
                        },
                        p4,
                    )),
                },
            },
        },
    }
}

/// statement [";"] end-of-input
pub open spec fn parse_statement(ts: Tokens, p: int, fl: FloatModel) -> PResult<SpecStatement> {
    let r = match tok(ts, p) {
        SpecToken::Keyword(Keyword::Select) => parse_select(ts, p, fl),
        SpecToken::Keyword(Keyword::Insert) => parse_insert(ts, p, fl),
        SpecToken::Keyword(Keyword::Create) => parse_create_table(ts, p, fl),
        SpecToken::Eof => Err(SpecParseError::UnexpectedEof),
        _ => Err(unexpected(ts, p, "statement"@, fl)),
    };
    match r {
        Err(e) => Err(e),
        Ok((statement, q)) => {
            let q1 = if tok(ts, q) is Semicolon {
                adv(ts, q)
            } else {
                q
            };
            if tok(ts, q1) is Eof {
                Ok((statement, adv(ts, q1)))
            } else {
                Err(unexpected(ts, q1, "Eof"@, fl))
            }
        },
    }
}

// ---------------------------------------------------------------------------
// The parser.

/// `r` (read back through `view`) is what the grammar function gave, and
/// `pos` the position it stopped at.
pub open spec fn outcome<T, V>(r: Result<T, ParseError>, pos: int, s: PResult<V>, view: spec_fn(T) -> V) -> bool {
    match (r, s) {
        (Ok(x), Ok((v, q))) => view(x) == v && pos == q,
        (Err(e), Err(se)) => e@ == se,
        _ => false,
    }
}

fn keyword_text(k: Keyword) -> (s: &'static str)
    ensures
        s@ == keyword_name(k),
{
    match k {
        Keyword::Select => "Select",
        Keyword::From => "From",
        Keyword::Where => "Where",
        Keyword::Insert => "Insert",
        Keyword::Into => "Into",
        Keyword::Values => "Values",
        Keyword::Create => "Create",
        Keyword::Table => "Table",
        Keyword::As => "As",
        Keyword::Primary => "Primary",
        Keyword::Key => "Key",
    }
}

fn simple_token_text(t: &Token) -> (s: &'static str)
    requires
        !(t is Keyword || t is Identifier || t is Integer || t is Float || t is String || t is Boolean),
    ensures
        s@ == token_debug(t@, |x: SpecFloatTask| SpecFloatReply::Invalid),
{
    match t {
        Token::Null => "Null",
        Token::Comma => "Comma",
        Token::Semicolon => "Semicolon",
        Token::LParen => "LParen",
        Token::RParen => "RParen",
        Token::Plus => "Plus",
        Token::Minus => "Minus",
        Token::Star => "Star",
        Token::Slash => "Slash",
        Token::Percent => "Percent",
        Token::Equal => "Equal",
        Token::NotEqual => "NotEqual",
        Token::LessThan => "LessThan",
        Token::LessThanOrEqual => "LessThanOrEqual",
        Token::GreaterThan => "GreaterThan",
        Token::GreaterThanOrEqual => "GreaterThanOrEqual",
        Token::And => "And",
        Token::Or => "Or",
        Token::Not => "Not",
        _ => "Eof",
    }
}

/// The `Debug` text of a token.
pub fn token_debug_text<F: Fn(FloatTask) -> FloatReply>(t: &Token, host: &F) -> (s: String)
    requires
        host_ready(host),
    ensures
        forall|m: FloatModel| follows(host, m) ==> s@ == token_debug(t@, m),
{
    let mut s = String::new();
    match t {
        Token::Keyword(k) => {
            push_str(&mut s, "Keyword(");
            push_str(&mut s, keyword_text(*k));
            push_str(&mut s, ")");
        },
        Token::Identifier(name) => {
            push_str(&mut s, "Identifier(");
            push_quoted(&mut s, name.as_str());
            push_str(&mut s, ")");
        },
        Token::Integer(i) => {
            push_str(&mut s, "Integer(");
            push_i64_text(&mut s, *i);
            push_str(&mut s, ")");
        },
        Token::Float(bits) => {
            push_str(&mut s, "Float(");
            let reply = ask(host, FloatTask::DebugText(*bits));
            match reply {
                FloatReply::Text(text) => push_str(&mut s, text.as_str()),
                _ => {},
            }
            push_str(&mut s, ")");
        },
        Token::String(value) => {
            push_str(&mut s, "String(");
            push_quoted(&mut s, value.as_str());
            push_str(&mut s, ")");
        },
        Token::Boolean(b) => {
            push_str(&mut s, "Boolean(");
            push_str(&mut s, if *b { "true" } else { "false" });
            push_str(&mut s, ")");
        },
        _ => {
            push_str(&mut s, simple_token_text(t));
        },
    }
    proof {
        assert forall|m: FloatModel| follows(host, m) implies s@ == token_debug(t@, m) by {
            assert(Seq::<char>::empty() + token_debug(t@, m) =~= token_debug(t@, m));
        };
    }
    s
}

/// Token equality by contents.
fn same_token(a: &Token, b: &Token) -> (eq: bool)
    ensures
        eq == (a@ == b@),
{
    match (a, b) {
        (Token::Keyword(x), Token::Keyword(y)) => *x == *y,
        (Token::Identifier(x), Token::Identifier(y)) => *x == *y,
        (Token::Integer(x), Token::Integer(y)) => *x == *y,
        (Token::Float(x), Token::Float(y)) => *x == *y,
        (Token::String(x), Token::String(y)) => *x == *y,
        (Token::Boolean(x), Token::Boolean(y)) => *x == *y,
        (Token::Null, Token::Null) => true,
        (Token::Comma, Token::Comma) => true,
        (Token::Semicolon, Token::Semicolon) => true,
        (Token::LParen, Token::LParen) => true,
        (Token::RParen, Token::RParen) => true,
        (Token::Plus, Token::Plus) => true,
        (Token::Minus, Token::Minus) => true,
        (Token::Star, Token::Star) => true,
        (Token::Slash, Token::Slash) => true,
        (Token::Percent, Token::Percent) => true,
        (Token::Equal, Token::Equal) => true,
        (Token::NotEqual, Token::NotEqual) => true,
        (Token::LessThan, Token::LessThan) => true,
        (Token::LessThanOrEqual, Token::LessThanOrEqual) => true,
        (Token::GreaterThan, Token::GreaterThan) => true,
        (Token::GreaterThanOrEqual, Token::GreaterThanOrEqual) => true,
        (Token::And, Token::And) => true,
        (Token::Or, Token::Or) => true,
        (Token::Not, Token::Not) => true,
        (Token::Eof, Token::Eof) => true,
        _ => false,
    }
}

/// The binary expression `left op right`, spanning both operands.
fn binary_expr(left: Expr, op: BinaryOp, right: Expr) -> (e: Expr)
    ensures
        e@ == binary(left@, op, right@),
{
    let span = left.span.merge(right.span);
    Expr::new(ExprKind::Binary { left: Box::new(left), op, right: Box::new(right) }, span)
}

/// A recursive-descent parser over a token sequence that ends with `Eof`.
pub struct Parser {
    tokens: Vec<SpannedToken>,
    position: usize,
}

impl Parser {
    /// The tokens being parsed.
    pub closed spec fn tokens_seq(&self) -> Tokens {
        tokens_view(self.tokens@)
    }

    /// The index of the next token.
    pub closed spec fn pos(&self) -> int {
        self.position as int
    }

    pub closed spec fn wf(&self) -> bool {
        &&& well_formed_tokens(self.tokens_seq())
        &&& self.position < self.tokens.len()
    }

    /// A parser at the first token. An `Eof` token (with an empty span at the
    /// end of the last token, or at 0) is added unless the last token is already `Eof`.
    pub fn new(tokens: Vec<SpannedToken>) -> (parser: Parser)
        ensures
            parser.wf(),
            parser.pos() == 0,
            parser.tokens_seq() == (if well_formed_tokens(tokens_view(tokens@)) {
                tokens_view(tokens@)
            } else {
                let end = if tokens.len() > 0 { tokens@.last().span.end } else { 0 };
                tokens_view(tokens@).push(SpecSpanned { token: SpecToken::Eof, span: Span { start: end, end } })
            }),
    {
        let mut tokens = tokens;
        let ends_with_eof = tokens.len() > 0 && match tokens[tokens.len() - 1].token {
            Token::Eof => true,
            _ => false,
        };
        if !ends_with_eof {
            let end = if tokens.len() > 0 { tokens[tokens.len() - 1].span.end } else { 0 };
            let ghost before = tokens@;
            tokens.push(SpannedToken::new(Token::Eof, Span::new(end, end)));
            assert(tokens_view(tokens@) =~= tokens_view(before).push(SpecSpanned { token: SpecToken::Eof, span: Span { start: end, end } }));
        }
        Parser { tokens, position: 0 }
    }

    fn current(&self) -> (t: &SpannedToken)
        requires
            self.wf(),
        ensures
            t@ == self.tokens_seq()[self.pos()],
    {
        &self.tokens[self.position]
    }

    fn previous_span(&self) -> (span: Span)
        requires
            self.wf(),
        ensures
            span == prev_span(self.tokens_seq(), self.pos()),
    {
        let index = if self.position >= 1 { self.position - 1 } else { 0 };
        self.tokens[index].span
    }

    fn advance(&mut self)
        requires
            old(self).wf(),
        ensures
            final(self).wf(),
            final(self).tokens_seq() == old(self).tokens_seq(),
            final(self).pos() == adv(old(self).tokens_seq(), old(self).pos()),
    {
        if self.position + 1 < self.tokens.len() {
            self.position = self.position + 1;
        }
    }

    /// The error for an unexpected current token.
    fn unexpected<F: Fn(FloatTask) -> FloatReply>(&self, expected: String, host: &F) -> (e: ParseError)
        requires
            self.wf(),
            host_ready(host),
        ensures
            forall|m: FloatModel| follows(host, m) ==> e@ == unexpected(self.tokens_seq(), self.pos(), expected@, m),
    {
        let current = self.current();
        match current.token {
            Token::Eof => ParseError::UnexpectedEof,
            _ => ParseError::UnexpectedToken {
                expected,
                found: token_debug_text(&current.token, host),
                span: current.span,
            },
        }
    }

    fn expect_keyword<F: Fn(FloatTask) -> FloatReply>(&mut self, keyword: Keyword, host: &F) -> (r: Result<(), ParseError>)
        requires
            old(self).wf(),
            host_ready(host),
        ensures
            final(self).wf(),
            final(self).tokens_seq() == old(self).tokens_seq(),
            old(self).pos() <= final(self).pos(),
            forall|m: FloatModel| follows(host, m) ==> match (r, expect_keyword(old(self).tokens_seq(), old(self).pos(), keyword, m)) {
                (Ok(_), Ok(q)) => final(self).pos() == q,
                (Err(e), Err(se)) => e@ == se,
                _ => false,
            },
    {
        let is_keyword = match self.current().token {
            Token::Keyword(k) => k == keyword,
            _ => false,
        };
        if is_keyword {
            self.advance();
            Ok(())
        } else {
            Err(self.unexpected(string_of(keyword_text(keyword)), host))
        }
    }

    fn expect_token<F: Fn(FloatTask) -> FloatReply>(&mut self, token: Token, host: &F) -> (r: Result<(), ParseError>)
        requires
            old(self).wf(),
            host_ready(host),
        ensures
            final(self).wf(),
            final(self).tokens_seq() == old(self).tokens_seq(),
            old(self).pos() <= final(self).pos(),
            forall|m: FloatModel| follows(host, m) ==> match r {
                Ok(_) => tok(old(self).tokens_seq(), old(self).pos()) == token@ && final(self).pos() == adv(old(self).tokens_seq(), old(self).pos()),
                Err(e) => tok(old(self).tokens_seq(), old(self).pos()) != token@
                    && e@ == unexpected(old(self).tokens_seq(), old(self).pos(), token_debug(token@, m), m),
            },
    {
        if same_token(&self.current().token, &token) {
            self.advance();
            Ok(())
        } else {
            let name = token_debug_text(&token, host);
            Err(self.unexpected(name, host))
        }
    }
}

impl Parser {
    fn current_is_or(&self) -> (b: bool)
        requires
            self.wf(),
        ensures
            b == (tok(self.tokens_seq(), self.pos()) is Or),
    {
        match self.current().token {
            Token::Or => true,
            _ => false,
        }
    }

    fn current_is_and(&self) -> (b: bool)
        requires
            self.wf(),
        ensures
            b == (tok(self.tokens_seq(), self.pos()) is And),
    {
        match self.current().token {
            Token::And => true,
            _ => false,
        }
    }

    fn current_additive(&self) -> (op: Option<BinaryOp>)
        requires
            self.wf(),
        ensures
            op == additive_op(tok(self.tokens_seq(), self.pos())),
    {
        match self.current().token {
            Token::Plus => Some(BinaryOp::Add),
            Token::Minus => Some(BinaryOp::Subtract),
            _ => None,
        }
    }

    fn current_multiplicative(&self) -> (op: Option<BinaryOp>)
        requires
            self.wf(),
        ensures
            op == multiplicative_op(tok(self.tokens_seq(), self.pos())),
    {
        match self.current().token {
            Token::Star => Some(BinaryOp::Multiply),
            Token::Slash => Some(BinaryOp::Divide),
            Token::Percent => Some(BinaryOp::Modulo),
            _ => None,
        }
    }
}

impl Parser {
    #[verifier::rlimit(80)]
    fn parse_expression<F: Fn(FloatTask) -> FloatReply>(&mut self, host: &F) -> (r: Result<Expr, ParseError>)
        requires
            old(self).wf(),
            host_ready(host),
        ensures
            final(self).wf(),
            final(self).tokens_seq() == old(self).tokens_seq(),
            old(self).pos() <= final(self).pos(),
            forall|m: FloatModel| follows(host, m) ==> outcome(r, final(self).pos(), parse_expr(old(self).tokens_seq(), old(self).pos(), m), |e: Expr| e@),
        decreases old(self).tokens@.len() - old(self).position, 11int,
    {
        self.parse_or(host)
    }

    #[verifier::rlimit(80)]
    fn parse_or<F: Fn(FloatTask) -> FloatReply>(&mut self, host: &F) -> (r: Result<Expr, ParseError>)
        requires
            old(self).wf(),
            host_ready(host),
        ensures
            final(self).wf(),
            final(self).tokens_seq() == old(self).tokens_seq(),
            old(self).pos() <= final(self).pos(),
            forall|m: FloatModel| follows(host, m) ==> outcome(r, final(self).pos(), parse_or(old(self).tokens_seq(), old(self).pos(), m), |e: Expr| e@),
        decreases old(self).tokens@.len() - old(self).position, 10int,
    {
        let ghost ts = self.tokens_seq();
        let ghost p0 = self.pos();
        let mut left = self.parse_and(host)?;
        while self.current_is_or()
            invariant
                self.wf(),
                self.tokens_seq() == ts,
                ts == old(self).tokens_seq(),
                p0 == old(self).pos(),
                self.tokens@.len() == old(self).tokens@.len(),
                p0 <= self.pos(),
                host_ready(host),
                forall|m: FloatModel| follows(host, m) ==> parse_or(ts, p0, m) == or_rest(ts, self.pos(), left@, m),
            decreases self.tokens@.len() - self.position,
        {
            let ghost q = self.pos();
            let op = BinaryOp::Or;
            self.advance();
            let right = self.parse_and(host)?;
            proof {
                assert(q < self.pos());
            }
            left = binary_expr(left, op, right);
        }
        Ok(left)
    }

    #[verifier::rlimit(80)]
    fn parse_and<F: Fn(FloatTask) -> FloatReply>(&mut self, host: &F) -> (r: Result<Expr, ParseError>)
        requires
            old(self).wf(),
            host_ready(host),
        ensures
            final(self).wf(),
            final(self).tokens_seq() == old(self).tokens_seq(),
            old(self).pos() <= final(self).pos(),
            forall|m: FloatModel| follows(host, m) ==> outcome(r, final(self).pos(), parse_and(old(self).tokens_seq(), old(self).pos(), m), |e: Expr| e@),
        decreases old(self).tokens@.len() - old(self).position, 8int,
    {
        let ghost ts = self.tokens_seq();
        let ghost p0 = self.pos();
        let mut left = self.parse_comparison(host)?;
        while self.current_is_and()
            invariant
                self.wf(),
                self.tokens_seq() == ts,
                ts == old(self).tokens_seq(),
                p0 == old(self).pos(),
                self.tokens@.len() == old(self).tokens@.len(),
                p0 <= self.pos(),
                host_ready(host),
                forall|m: FloatModel| follows(host, m) ==> parse_and(ts, p0, m) == and_rest(ts, self.pos(), left@, m),
            decreases self.tokens@.len() - self.position,
        {
            let ghost q = self.pos();
            let op = BinaryOp::And;
            self.advance();
            let right = self.parse_comparison(host)?;
            proof {
                assert(q < self.pos());
            }
            left = binary_expr(left, op, right);
        }
        Ok(left)
    }

    #[verifier::rlimit(80)]
    fn parse_additive<F: Fn(FloatTask) -> FloatReply>(&mut self, host: &F) -> (r: Result<Expr, ParseError>)
        requires
            old(self).wf(),
            host_ready(host),
        ensures
            final(self).wf(),
            final(self).tokens_seq() == old(self).tokens_seq(),
            old(self).pos() <= final(self).pos(),
            forall|m: FloatModel| follows(host, m) ==> outcome(r, final(self).pos(), parse_additive(old(self).tokens_seq(), old(self).pos(), m), |e: Expr| e@),
        decreases old(self).tokens@.len() - old(self).position, 5int,
    {
        let ghost ts = self.tokens_seq();
        let ghost p0 = self.pos();
        let mut left = self.parse_multiplicative(host)?;
        while self.current_additive().is_some()
            invariant
                self.wf(),
                self.tokens_seq() == ts,
                ts == old(self).tokens_seq(),
                p0 == old(self).pos(),
                self.tokens@.len() == old(self).tokens@.len(),
                p0 <= self.pos(),
                host_ready(host),
                forall|m: FloatModel| follows(host, m) ==> parse_additive(ts, p0, m) == additive_rest(ts, self.pos(), left@, m),
            decreases self.tokens@.len() - self.position,
        {
            let ghost q = self.pos();
            let op = self.current_additive().unwrap();
            self.advance();
            let right = self.parse_multiplicative(host)?;
            proof {
                assert(q < self.pos());
            }
            left = binary_expr(left, op, right);
        }
        Ok(left)
    }

    #[verifier::rlimit(80)]
    fn parse_multiplicative<F: Fn(FloatTask) -> FloatReply>(&mut self, host: &F) -> (r: Result<Expr, ParseError>)
        requires
            old(self).wf(),
            host_ready(host),
        ensures
            final(self).wf(),
            final(self).tokens_seq() == old(self).tokens_seq(),
            old(self).pos() <= final(self).pos(),
            forall|m: FloatModel| follows(host, m) ==> outcome(r, final(self).pos(), parse_multiplicative(old(self).tokens_seq(), old(self).pos(), m), |e: Expr| e@),
        decreases old(self).tokens@.len() - old(self).position, 3int,
    {
        let ghost ts = self.tokens_seq();
        let ghost p0 = self.pos();
        let mut left = self.parse_unary(host)?;
        while self.current_multiplicative().is_some()
            invariant
                self.wf(),
                self.tokens_seq() == ts,
                ts == old(self).tokens_seq(),
                p0 == old(self).pos(),
                self.tokens@.len() == old(self).tokens@.len(),
                p0 <= self.pos(),
                host_ready(host),
                forall|m: FloatModel| follows(host, m) ==> parse_multiplicative(ts, p0, m) == multiplicative_rest(ts, self.pos(), left@, m),
            decreases self.tokens@.len() - self.position,
        {
            let ghost q = self.pos();
            let op = self.current_multiplicative().unwrap();
            self.advance();
            let right = self.parse_unary(host)?;
            proof {
                assert(q < self.pos());
            }
            left = binary_expr(left, op, right);
        }
        Ok(left)
    }

    #[verifier::rlimit(80)]
    fn parse_comparison<F: Fn(FloatTask) -> FloatReply>(&mut self, host: &F) -> (r: Result<Expr, ParseError>)
        requires
            old(self).wf(),
            host_ready(host),
        ensures
            final(self).wf(),
            final(self).tokens_seq() == old(self).tokens_seq(),
            old(self).pos() <= final(self).pos(),
            forall|m: FloatModel| follows(host, m) ==> outcome(r, final(self).pos(), parse_comparison(old(self).tokens_seq(), old(self).pos(), m), |e: Expr| e@),
        decreases old(self).tokens@.len() - old(self).position, 6int,
    {
        let left = self.parse_additive(host)?;
        let operator = match self.current().token {
            Token::Equal => Some(BinaryOp::Equal),
            Token::NotEqual => Some(BinaryOp::NotEqual),
            Token::GreaterThan => Some(BinaryOp::GreaterThan),
            Token::LessThan => Some(BinaryOp::LessThan),
            Token::GreaterThanOrEqual => Some(BinaryOp::GreaterThanOrEqual),
            Token::LessThanOrEqual => Some(BinaryOp::LessThanOrEqual),
            _ => None,
        };
        match operator {
            Some(op) => {
                self.advance();
                let right = self.parse_additive(host)?;
                Ok(binary_expr(left, op, right))
            },
            None => Ok(left),
        }
    }

    #[verifier::rlimit(80)]
    fn parse_unary<F: Fn(FloatTask) -> FloatReply>(&mut self, host: &F) -> (r: Result<Expr, ParseError>)
        requires
            old(self).wf(),
            host_ready(host),
        ensures
            final(self).wf(),
            final(self).tokens_seq() == old(self).tokens_seq(),
            old(self).pos() <= final(self).pos(),
            forall|m: FloatModel| follows(host, m) ==> outcome(r, final(self).pos(), parse_unary(old(self).tokens_seq(), old(self).pos(), m), |e: Expr| e@),
        decreases old(self).tokens@.len() - old(self).position, 1int,
    {
        let current = self.current();
        let start = current.span;
        let operator = match current.token {
            Token::Plus => UnaryOp::Plus,
            Token::Minus => UnaryOp::Minus,
            Token::Not => UnaryOp::Not,
            _ => {
                return self.parse_primary(host);
            },
        };
        self.advance();
        let expression = self.parse_unary(host)?;
        let span = start.merge(expression.span);
        Ok(Expr::new(ExprKind::Unary { op: operator, expr: Box::new(expression) }, span))
    }

    #[verifier::rlimit(80)]
    fn parse_primary<F: Fn(FloatTask) -> FloatReply>(&mut self, host: &F) -> (r: Result<Expr, ParseError>)
        requires
            old(self).wf(),
            host_ready(host),
        ensures
            final(self).wf(),
            final(self).tokens_seq() == old(self).tokens_seq(),
            old(self).pos() <= final(self).pos(),
            forall|m: FloatModel| follows(host, m) ==> outcome(r, final(self).pos(), parse_primary(old(self).tokens_seq(), old(self).pos(), m), |e: Expr| e@),
        decreases old(self).tokens@.len() - old(self).position, 0int,
    {
        let current = self.current();
        let span = current.span;
        let expression = match &current.token {
            Token::Identifier(name) => Expr::identifier(name.clone(), span),
            Token::Integer(value) => Expr::integer(*value, span),
            Token::Float(value) => Expr::new(ExprKind::Literal(Literal::Float(*value)), span),
            Token::String(value) => Expr::string(value.clone(), span),
            Token::Boolean(value) => Expr::boolean(*value, span),
            Token::Null => Expr::new(ExprKind::Literal(Literal::Null), span),
            Token::LParen => {
                self.advance();
                let inner = self.parse_expression(host)?;
                self.expect_token(Token::RParen, host)?;
                let merged = span.merge(self.previous_span());
                return Ok(Expr::new(inner.kind, merged));
            },
            _ => {
                return Err(self.unexpected(string_of("expression"), host));
            },
        };
        self.advance();
        Ok(expression)
    }

}

pub open spec fn items_view(v: Seq<SelectItem>) -> Seq<SpecSelectItem> {
    v.map_values(|c: SelectItem| c@)
}

pub open spec fn names_view(v: Seq<String>) -> Seq<Seq<char>> {
    v.map_values(|c: String| c@)
}

pub open spec fn exprs_view(v: Seq<Expr>) -> Seq<SpecExpr> {
    v.map_values(|c: Expr| c@)
}

pub open spec fn columns_view(v: Seq<ColumnDefinition>) -> Seq<SpecColumn> {
    v.map_values(|c: ColumnDefinition| c@)
}

fn data_type_named(name: &String) -> (d: Option<DataType>)
    ensures
        d == data_type_of(name@),
{
    let word = chars_of(name.as_str());
    if upper_equals(&word, "INTEGER") || upper_equals(&word, "INT") {
        Some(DataType::Integer)
    } else if upper_equals(&word, "FLOAT") || upper_equals(&word, "DOUBLE") {
        Some(DataType::Float)
    } else if upper_equals(&word, "BOOLEAN") || upper_equals(&word, "BOOL") {
        Some(DataType::Boolean)
    } else if upper_equals(&word, "STRING") || upper_equals(&word, "TEXT") || upper_equals(&word, "VARCHAR") {
        Some(DataType::String)
    } else {
        None
    }
}

/// `'name'` wrapped into a message: `prefix` + name + `'`.
fn quoted_message(prefix: &str, name: &String) -> (m: String)
    ensures
        m@ == prefix@ + name@ + "'"@,
{
    let mut m = string_of(prefix);
    push_str(&mut m, name.as_str());
    push_str(&mut m, "'");
    m
}

impl Parser {
    #[verifier::rlimit(80)]
    fn parse_identifier_with_span<F: Fn(FloatTask) -> FloatReply>(&mut self, host: &F) -> (r: Result<(String, Span), ParseError>)
        requires
            old(self).wf(),
            host_ready(host),
        ensures
            final(self).wf(),
            final(self).tokens_seq() == old(self).tokens_seq(),
            old(self).pos() <= final(self).pos(),
            forall|m: FloatModel| follows(host, m) ==> match (r, parse_ident(old(self).tokens_seq(), old(self).pos(), m)) {
                (Ok((name, span)), Ok((sname, sspan, q))) => name@ == sname && span == sspan && final(self).pos() == q,
                (Err(e), Err(se)) => e@ == se,
                _ => false,
            },
    {
        let current = self.current();
        match &current.token {
            Token::Identifier(name) => {
                let name = name.clone();
                let span = current.span;
                self.advance();
                Ok((name, span))
            },
            _ => Err(self.unexpected(string_of("identifier"), host)),
        }
    }

    #[verifier::rlimit(80)]
    fn parse_identifier<F: Fn(FloatTask) -> FloatReply>(&mut self, host: &F) -> (r: Result<String, ParseError>)
        requires
            old(self).wf(),
            host_ready(host),
        ensures
            final(self).wf(),
            final(self).tokens_seq() == old(self).tokens_seq(),
            old(self).pos() <= final(self).pos(),
            forall|m: FloatModel| follows(host, m) ==> match (r, parse_ident(old(self).tokens_seq(), old(self).pos(), m)) {
                (Ok(name), Ok((sname, sspan, q))) => name@ == sname && final(self).pos() == q,
                (Err(e), Err(se)) => e@ == se,
                _ => false,
            },
    {
        match self.parse_identifier_with_span(host) {
            Ok((name, _)) => Ok(name),
            Err(e) => Err(e),
        }
    }

    #[verifier::rlimit(100)]
    #[verifier::spinoff_prover]
    fn parse_ident_items<F: Fn(FloatTask) -> FloatReply>(&mut self, acc: Vec<String>, host: &F) -> (r: Result<Vec<String>, ParseError>)
        requires
            old(self).wf(),
            host_ready(host),
        ensures
            final(self).wf(),
            final(self).tokens_seq() == old(self).tokens_seq(),
            old(self).pos() <= final(self).pos(),
            forall|m: FloatModel| follows(host, m) ==> outcome(r, final(self).pos(), parse_ident_items(old(self).tokens_seq(), old(self).pos(), names_view(acc@), m), |v: Vec<String>| names_view(v@)),
        decreases old(self).tokens@.len() - old(self).position,
    {
        let ghost ts = self.tokens_seq();
        let ghost p = self.pos();
        let mut acc = acc;
        let ghost before = acc@;
        let name = self.parse_identifier(host)?;
        acc.push(name);
        assert(names_view(acc@) =~= names_view(before).push(name@));
        match self.current().token {
            Token::Comma => {
                self.advance();
                self.parse_ident_items(acc, host)
            },
            Token::RParen => {
                self.advance();
                Ok(acc)
            },
            _ => Err(self.unexpected(string_of("',' or ')'"), host)),
        }
    }

    #[verifier::rlimit(80)]
    fn parse_identifier_list<F: Fn(FloatTask) -> FloatReply>(&mut self, host: &F) -> (r: Result<Vec<String>, ParseError>)
        requires
            old(self).wf(),
            host_ready(host),
        ensures
            final(self).wf(),
            final(self).tokens_seq() == old(self).tokens_seq(),
            old(self).pos() <= final(self).pos(),
            forall|m: FloatModel| follows(host, m) ==> outcome(r, final(self).pos(), parse_identifier_list(old(self).tokens_seq(), old(self).pos(), m), |v: Vec<String>| names_view(v@)),
    {
        self.expect_token(Token::LParen, host)?;
        let acc: Vec<String> = Vec::new();
        assert(names_view(acc@) =~= Seq::<Seq<char>>::empty());
        self.parse_ident_items(acc, host)
    }

    #[verifier::rlimit(100)]
    #[verifier::spinoff_prover]
    fn parse_expr_items<F: Fn(FloatTask) -> FloatReply>(&mut self, acc: Vec<Expr>, host: &F) -> (r: Result<Vec<Expr>, ParseError>)
        requires
            old(self).wf(),
            host_ready(host),
        ensures
            final(self).wf(),
            final(self).tokens_seq() == old(self).tokens_seq(),
            old(self).pos() <= final(self).pos(),
            forall|m: FloatModel| follows(host, m) ==> outcome(r, final(self).pos(), parse_expr_items(old(self).tokens_seq(), old(self).pos(), exprs_view(acc@), m), |v: Vec<Expr>| exprs_view(v@)),
        decreases old(self).tokens@.len() - old(self).position,
    {
        let mut acc = acc;
        let ghost before = acc@;
        let e = self.parse_expression(host)?;
        let ghost ev = e@;
        acc.push(e);
        assert(exprs_view(acc@) =~= exprs_view(before).push(ev));
        match self.current().token {
            Token::Comma => {
                self.advance();
                self.parse_expr_items(acc, host)
            },
            Token::RParen => {
                self.advance();
                Ok(acc)
            },
            _ => Err(self.unexpected(string_of("',' or ')'"), host)),
        }
    }

    #[verifier::rlimit(80)]
    fn parse_expression_list<F: Fn(FloatTask) -> FloatReply>(&mut self, host: &F) -> (r: Result<Vec<Expr>, ParseError>)
        requires
            old(self).wf(),
            host_ready(host),
        ensures
            final(self).wf(),
            final(self).tokens_seq() == old(self).tokens_seq(),
            old(self).pos() <= final(self).pos(),
            forall|m: FloatModel| follows(host, m) ==> outcome(r, final(self).pos(), parse_expression_list(old(self).tokens_seq(), old(self).pos(), m), |v: Vec<Expr>| exprs_view(v@)),
    {
        self.expect_token(Token::LParen, host)?;
        let acc: Vec<Expr> = Vec::new();
        assert(exprs_view(acc@) =~= Seq::<SpecExpr>::empty());
        self.parse_expr_items(acc, host)
    }

    #[verifier::rlimit(80)]
    fn parse_select_item<F: Fn(FloatTask) -> FloatReply>(&mut self, host: &F) -> (r: Result<SelectItem, ParseError>)
        requires
            old(self).wf(),
            host_ready(host),
        ensures
            final(self).wf(),
            final(self).tokens_seq() == old(self).tokens_seq(),
            old(self).pos() <= final(self).pos(),
            forall|m: FloatModel| follows(host, m) ==> outcome(r, final(self).pos(), parse_select_item(old(self).tokens_seq(), old(self).pos(), m), |v: SelectItem| v@),
    {
        match self.current().token {
            Token::Star => {
                self.advance();
                return Ok(SelectItem::Wildcard);
            },
            _ => {},
        }
        let expr = self.parse_expression(host)?;
        let is_as = match self.current().token {
            Token::Keyword(Keyword::As) => true,
            _ => false,
        };
        let alias = if is_as {
            self.advance();
            Some(self.parse_identifier(host)?)
        } else {
            None
        };
        Ok(SelectItem::Expression { expr, alias })
    }

    #[verifier::rlimit(100)]
    #[verifier::spinoff_prover]
    fn parse_select_columns<F: Fn(FloatTask) -> FloatReply>(&mut self, acc: Vec<SelectItem>, host: &F) -> (r: Result<Vec<SelectItem>, ParseError>)
        requires
            old(self).wf(),
            host_ready(host),
        ensures
            final(self).wf(),
            final(self).tokens_seq() == old(self).tokens_seq(),
            old(self).pos() <= final(self).pos(),
            forall|m: FloatModel| follows(host, m) ==> outcome(r, final(self).pos(), parse_select_columns(old(self).tokens_seq(), old(self).pos(), items_view(acc@), m), |v: Vec<SelectItem>| items_view(v@)),
        decreases old(self).tokens@.len() - old(self).position,
    {
        let mut acc = acc;
        let ghost before = acc@;
        let item = self.parse_select_item(host)?;
        let ghost iv = item@;
        acc.push(item);
        assert(items_view(acc@) =~= items_view(before).push(iv));
        match self.current().token {
            Token::Comma => {
                self.advance();
                self.parse_select_columns(acc, host)
            },
            Token::Keyword(Keyword::From) => Ok(acc),
            _ => Err(self.unexpected(string_of("',' or FROM"), host)),
        }
    }
}

impl Parser {
    #[verifier::rlimit(80)]
    fn parse_data_type<F: Fn(FloatTask) -> FloatReply>(&mut self, host: &F) -> (r: Result<DataType, ParseError>)
        requires
            old(self).wf(),
            host_ready(host),
        ensures
            final(self).wf(),
            final(self).tokens_seq() == old(self).tokens_seq(),
            old(self).pos() <= final(self).pos(),
            forall|m: FloatModel| follows(host, m) ==> outcome(r, final(self).pos(), parse_data_type(old(self).tokens_seq(), old(self).pos(), m), |d: DataType| d),
    {
        let current = self.current();
        let span = current.span;
        let data_type = match &current.token {
            Token::Identifier(name) => match data_type_named(name) {
                Some(d) => d,
                None => {
                    return Err(ParseError::Message { message: quoted_message("unknown data type '", name), span });
                },
            },
            _ => {
                return Err(self.unexpected(string_of("data type"), host));
            },
        };
        self.advance();
        Ok(data_type)
    }

    #[verifier::rlimit(80)]
    fn parse_constraints<F: Fn(FloatTask) -> FloatReply>(
        &mut self,
        nullable: bool,
        primary_key: bool,
        not_null_seen: bool,
        primary_key_seen: bool,
        host: &F,
    ) -> (r: Result<(bool, bool, bool), ParseError>)
        requires
            old(self).wf(),
            host_ready(host),
        ensures
            final(self).wf(),
            final(self).tokens_seq() == old(self).tokens_seq(),
            old(self).pos() <= final(self).pos(),
            forall|m: FloatModel| follows(host, m) ==> match (r, parse_constraints(old(self).tokens_seq(), old(self).pos(), nullable, primary_key, not_null_seen, primary_key_seen, m)) {
                (Ok((a, b, c)), Ok((sa, sb, sc, q))) => a == sa && b == sb && c == sc && final(self).pos() == q,
                (Err(e), Err(se)) => e@ == se,
                _ => false,
            },
        decreases old(self).tokens@.len() - old(self).position,
    {
        let current = self.current();
        let constraint_span = current.span;
        match current.token {
            Token::Keyword(Keyword::Primary) => {
                if primary_key || primary_key_seen {
                    return Err(ParseError::Message {
                        message: string_of("a table may have only one primary key"),
                        span: constraint_span,
                    });
                }
                self.advance();
                self.expect_keyword(Keyword::Key, host)?;
                self.parse_constraints(false, true, not_null_seen, true, host)
            },
            Token::Not => {
                if not_null_seen {
                    return Err(ParseError::Message { message: string_of("duplicate NOT NULL constraint"), span: constraint_span });
                }
                self.advance();
                self.expect_token(Token::Null, host)?;
                self.parse_constraints(false, primary_key, true, primary_key_seen, host)
            },
            _ => Ok((nullable, primary_key, primary_key_seen)),
        }
    }

    fn has_column_named(columns: &Vec<ColumnDefinition>, name: &String) -> (found: bool)
        ensures
            found == has_column_named(columns_view(columns@), name@),
    {
        let mut i: usize = 0;
        while i < columns.len()
            invariant
                i <= columns.len(),
                forall|k: int| 0 <= k < i ==> !eq_ignore_case(#[trigger] columns@[k].name@, name@),
            decreases columns.len() - i,
        {
            if eq_ignore_ascii_case(columns[i].name.as_str(), name.as_str()) {
                assert(eq_ignore_case(columns_view(columns@)[i as int].name, name@));
                return true;
            }
            i = i + 1;
        }
        false
    }

    #[verifier::rlimit(100)]
    #[verifier::spinoff_prover]
    fn parse_column_items<F: Fn(FloatTask) -> FloatReply>(&mut self, acc: Vec<ColumnDefinition>, primary_key_seen: bool, host: &F) -> (r: Result<Vec<ColumnDefinition>, ParseError>)
        requires
            old(self).wf(),
            host_ready(host),
        ensures
            final(self).wf(),
            final(self).tokens_seq() == old(self).tokens_seq(),
            old(self).pos() <= final(self).pos(),
            forall|m: FloatModel| follows(host, m) ==> outcome(r, final(self).pos(), parse_column_items(old(self).tokens_seq(), old(self).pos(), columns_view(acc@), primary_key_seen, m), |v: Vec<ColumnDefinition>| columns_view(v@)),
        decreases old(self).tokens@.len() - old(self).position,
    {
        let mut acc = acc;
        let (name, name_span) = self.parse_identifier_with_span(host)?;
        if Self::has_column_named(&acc, &name) {
            return Err(ParseError::Message { message: quoted_message("duplicate column '", &name), span: name_span });
        }
        let data_type = self.parse_data_type(host)?;
        let (nullable, primary_key, seen) = self.parse_constraints(true, false, false, primary_key_seen, host)?;
        match data_type {
            DataType::Float => {
                if primary_key {
                    return Err(ParseError::Message { message: string_of("FLOAT primary keys are not supported"), span: name_span });
                }
            },
            _ => {},
        }
        let ghost before = acc@;
        let column = ColumnDefinition { name, data_type, nullable, primary_key };
        let ghost cv = column@;
        acc.push(column);
        assert(columns_view(acc@) =~= columns_view(before).push(cv));
        match self.current().token {
            Token::Comma => {
                self.advance();
                self.parse_column_items(acc, seen, host)
            },
            Token::RParen => {
                self.advance();
                Ok(acc)
            },
            _ => Err(self.unexpected(string_of("',' or ')'"), host)),
        }
    }

    #[verifier::rlimit(80)]
    fn parse_column_definitions<F: Fn(FloatTask) -> FloatReply>(&mut self, host: &F) -> (r: Result<Vec<ColumnDefinition>, ParseError>)
        requires
            old(self).wf(),
            host_ready(host),
        ensures
            final(self).wf(),
            final(self).tokens_seq() == old(self).tokens_seq(),
            old(self).pos() <= final(self).pos(),
            forall|m: FloatModel| follows(host, m) ==> outcome(r, final(self).pos(), parse_column_definitions(old(self).tokens_seq(), old(self).pos(), m), |v: Vec<ColumnDefinition>| columns_view(v@)),
    {
        self.expect_token(Token::LParen, host)?;
        let acc: Vec<ColumnDefinition> = Vec::new();
        assert(columns_view(acc@) =~= Seq::<SpecColumn>::empty());
        self.parse_column_items(acc, false, host)
    }
}

impl Parser {
    #[verifier::rlimit(100)]
    #[verifier::spinoff_prover]
    fn parse_select<F: Fn(FloatTask) -> FloatReply>(&mut self, host: &F) -> (r: Result<Statement, ParseError>)
        requires
            old(self).wf(),
            host_ready(host),
        ensures
            final(self).wf(),
            final(self).tokens_seq() == old(self).tokens_seq(),
            old(self).pos() <= final(self).pos(),
            forall|m: FloatModel| follows(host, m) ==> outcome(r, final(self).pos(), parse_select(old(self).tokens_seq(), old(self).pos(), m), |v: Statement| v@),
    {
        let start = self.current().span;
        self.expect_keyword(Keyword::Select, host)?;
        let empty: Vec<SelectItem> = Vec::new();
        assert(items_view(empty@) =~= Seq::<SpecSelectItem>::empty());
        let columns = self.parse_select_columns(empty, host)?;
        self.expect_keyword(Keyword::From, host)?;
        let table = self.parse_identifier(host)?;
        let is_where = match self.current().token {
            Token::Keyword(Keyword::Where) => true,
            _ => false,
        };
        let where_clause = if is_where {
            self.advance();
            Some(self.parse_expression(host)?)
        } else {
            None
        };
        let span = start.merge(self.previous_span());
        let statement = Statement::new(StatementKind::Select(SelectStatement { columns, table, where_clause }), span);
        Ok(statement)
    }

    #[verifier::rlimit(100)]
    #[verifier::spinoff_prover]
    fn parse_insert<F: Fn(FloatTask) -> FloatReply>(&mut self, host: &F) -> (r: Result<Statement, ParseError>)
        requires
            old(self).wf(),
            host_ready(host),
        ensures
            final(self).wf(),
            final(self).tokens_seq() == old(self).tokens_seq(),
            old(self).pos() <= final(self).pos(),
            forall|m: FloatModel| follows(host, m) ==> outcome(r, final(self).pos(), parse_insert(old(self).tokens_seq(), old(self).pos(), m), |v: Statement| v@),
    {
        let start = self.current().span;
        self.expect_keyword(Keyword::Insert, host)?;
        self.expect_keyword(Keyword::Into, host)?;
        let table = self.parse_identifier(host)?;
        let is_list = match self.current().token {
            Token::LParen => true,
            _ => false,
        };
        let columns = if is_list {
            self.parse_identifier_list(host)?
        } else {
            let none: Vec<String> = Vec::new();
            assert(names_view(none@) =~= Seq::<Seq<char>>::empty());
            none
        };
        self.expect_keyword(Keyword::Values, host)?;
        let values = self.parse_expression_list(host)?;
        let span = start.merge(self.previous_span());
        Ok(Statement::new(StatementKind::Insert(InsertStatement { table, columns, values }), span))
    }

    #[verifier::rlimit(80)]
    fn parse_create_table<F: Fn(FloatTask) -> FloatReply>(&mut self, host: &F) -> (r: Result<Statement, ParseError>)
        requires
            old(self).wf(),
            host_ready(host),
        ensures
            final(self).wf(),
            final(self).tokens_seq() == old(self).tokens_seq(),
            old(self).pos() <= final(self).pos(),
            forall|m: FloatModel| follows(host, m) ==> outcome(r, final(self).pos(), parse_create_table(old(self).tokens_seq(), old(self).pos(), m), |v: Statement| v@),
    {
        let start = self.current().span;
        self.expect_keyword(Keyword::Create, host)?;
        self.expect_keyword(Keyword::Table, host)?;
        let name = self.parse_identifier(host)?;
        let columns = self.parse_column_definitions(host)?;
        let span = start.merge(self.previous_span());
        Ok(Statement::new(StatementKind::CreateTable(CreateTableStatement { name, columns }), span))
    }

    /// Parses one statement, an optional `;`, and the end of input.
    #[verifier::rlimit(80)]
    pub fn parse<F: Fn(FloatTask) -> FloatReply>(&mut self, host: &F) -> (r: Result<Statement, ParseError>)
        requires
            old(self).wf(),
            host_ready(host),
        ensures
            final(self).wf(),
            final(self).tokens_seq() == old(self).tokens_seq(),
            old(self).pos() <= final(self).pos(),
            forall|m: FloatModel| follows(host, m) ==> outcome(r, final(self).pos(), parse_statement(old(self).tokens_seq(), old(self).pos(), m), |v: Statement| v@),
    {
        let statement = match self.current().token {
            Token::Keyword(Keyword::Select) => self.parse_select(host)?,
            Token::Keyword(Keyword::Insert) => self.parse_insert(host)?,
            Token::Keyword(Keyword::Create) => self.parse_create_table(host)?,
            Token::Eof => {
                return Err(ParseError::UnexpectedEof);
            },
            _ => {
                return Err(self.unexpected(string_of("statement"), host));
            },
        };
        let is_semicolon = match self.current().token {
            Token::Semicolon => true,
            _ => false,
        };
        if is_semicolon {
            self.advance();
        }
        self.expect_token(Token::Eof, host)?;
        Ok(statement)
    }
}

} // verus!
