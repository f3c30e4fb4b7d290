//! The texts that errors, values and results are shown as.

use vstd::prelude::*;
use crate::error::{BackendError, SpecBackendError};
use crate::executor::{ExecutionResult, QueryResult};
use crate::expr::{SpecValue, Value};
use crate::database::{row_view, rows_view, Row};
use crate::float::{ask, follows, host_ready, FloatReply, FloatTask, SpecFloatReply, SpecFloatTask};
use crate::lexer::{FloatModel, LexError, SpecLexError};
use crate::parser::{ParseError, SpecParseError};
use crate::span::Span;
use crate::statement::spec_data_type_name;
use crate::text::{int_text, nat_text, push_char, push_i64_text, push_str, push_u64_text, string_of};

verus! {

// ---------------------------------------------------------------------------
// Errors.

/// ` at bytes <start>..<end>`.
pub open spec fn span_text(span: Span) -> Seq<char> {
    " at bytes "@ + nat_text(span.start as nat) + ".."@ + nat_text(span.end as nat)
}

pub open spec fn lex_error_text(e: SpecLexError) -> Seq<char> {
    match e {
        SpecLexError::UnexpectedCharacter { character, position } => "unexpected character '"@ + seq![character]
            + "' at byte "@ + nat_text(position as nat),
        SpecLexError::UnterminatedString { start } => "unterminated string starting at byte "@ + nat_text(start as nat),
        SpecLexError::InvalidNumber { value, span } => "invalid numeric literal '"@ + value + "'"@ + span_text(span),
    }
}

pub open spec fn parse_error_text(e: SpecParseError) -> Seq<char> {
    match e {
        SpecParseError::UnexpectedToken { expected, found, span } => "expected "@ + expected + ", found "@ + found
            + span_text(span),
        SpecParseError::UnexpectedEof => "unexpected end of input"@,
        SpecParseError::Message { message, span } => message + span_text(span),
    }
}

pub open spec fn backend_error_text(e: SpecBackendError) -> Seq<char> {
    match e {
        SpecBackendError::Lex(x) => "lexer error: "@ + lex_error_text(x),
        SpecBackendError::Parse(x) => "parser error: "@ + parse_error_text(x),
        SpecBackendError::TableAlreadyExists(t) => "table '"@ + t + "' already exists"@,
        SpecBackendError::TableNotFound(t) => "table '"@ + t + "' does not exist"@,
        SpecBackendError::ColumnNotFound { table, column } => "column '"@ + column + "' does not exist in table '"@ + table
            + "'"@,
        SpecBackendError::DuplicateColumn(c) => "column '"@ + c + "' appears more than once"@,
        SpecBackendError::ValueCountMismatch { expected, actual } => "expected "@ + nat_text(expected as nat)
            + " values, received "@ + nat_text(actual as nat),
        SpecBackendError::TypeMismatch { column, expected, found } => "column '"@ + column + "' expects "@
            + spec_data_type_name(expected) + ", received "@ + found,
        SpecBackendError::NullConstraintViolation(c) => "column '"@ + c + "' may not be NULL"@,
        SpecBackendError::InvalidExpression(m) => m,
        SpecBackendError::InvalidSchema(m) => m,
        SpecBackendError::InvalidPrimaryKey(m) => m,
        SpecBackendError::DuplicatePrimaryKey(v) => "duplicate primary key "@ + v,
        SpecBackendError::Execution(m) => m,
        SpecBackendError::IoError(m) => m,
        SpecBackendError::SerializationError(m) => m,
    }
}

fn push_usize_text(s: &mut String, n: usize)
    ensures
        final(s)@ == old(s)@ + nat_text(n as nat),
{
    push_u64_text(s, n as u64);
}

fn push_span_text(s: &mut String, span: Span)
    ensures
        final(s)@ == old(s)@ + span_text(span),
{
    let ghost start = s@;
    push_str(s, " at bytes ");
    push_usize_text(s, span.start);
    push_str(s, "..");
    push_usize_text(s, span.end);
    assert(s@ =~= start + span_text(span));
}

impl LexError {
    /// The text this error is shown as.
    pub fn message(&self) -> (text: String)
        ensures
            text@ == lex_error_text(self@),
    {
        let mut s = String::new();
        match self {
            LexError::UnexpectedCharacter { character, position } => {
                push_str(&mut s, "unexpected character '");
                push_char(&mut s, *character);
                push_str(&mut s, "' at byte ");
                push_usize_text(&mut s, *position);
            },
            LexError::UnterminatedString { start } => {
                push_str(&mut s, "unterminated string starting at byte ");
                push_usize_text(&mut s, *start);
            },
            LexError::InvalidNumber { value, span } => {
                push_str(&mut s, "invalid numeric literal '");
                push_str(&mut s, value.as_str());
                push_str(&mut s, "'");
                push_span_text(&mut s, *span);
            },
        }
        assert(s@ =~= lex_error_text(self@));
        s
    }
}

impl ParseError {
    /// The text this error is shown as.
    pub fn message(&self) -> (text: String)
        ensures
            text@ == parse_error_text(self@),
    {
        let mut s = String::new();
        match self {
            ParseError::UnexpectedToken { expected, found, span } => {
                push_str(&mut s, "expected ");
                push_str(&mut s, expected.as_str());
                push_str(&mut s, ", found ");
                push_str(&mut s, found.as_str());
                push_span_text(&mut s, *span);
            },
            ParseError::UnexpectedEof => {
                push_str(&mut s, "unexpected end of input");
            },
            ParseError::Message { message, span } => {
                push_str(&mut s, message.as_str());
                push_span_text(&mut s, *span);
            },
        }
        assert(s@ =~= parse_error_text(self@));
        s
    }
}

impl BackendError {
    /// The text this error is shown as.
    #[verifier::rlimit(30)]
    pub fn message(&self) -> (text: String)
        ensures
            text@ == backend_error_text(self@),
    {
        let mut s = String::new();
        match self {
            BackendError::Lex(e) => {
                push_str(&mut s, "lexer error: ");
                let m = e.message();
                push_str(&mut s, m.as_str());
            },
            BackendError::Parse(e) => {
                push_str(&mut s, "parser error: ");
                let m = e.message();
                push_str(&mut s, m.as_str());
            },
            BackendError::TableAlreadyExists(t) => {
                push_str(&mut s, "table '");
                push_str(&mut s, t.as_str());
                push_str(&mut s, "' already exists");
            },
            BackendError::TableNotFound(t) => {
                push_str(&mut s, "table '");
                push_str(&mut s, t.as_str());
                push_str(&mut s, "' does not exist");
            },
            BackendError::ColumnNotFound { table, column } => {
                push_str(&mut s, "column '");
                push_str(&mut s, column.as_str());
                push_str(&mut s, "' does not exist in table '");
                push_str(&mut s, table.as_str());
                push_str(&mut s, "'");
            },
            BackendError::DuplicateColumn(c) => {
                push_str(&mut s, "column '");
                push_str(&mut s, c.as_str());
                push_str(&mut s, "' appears more than once");
            },
            BackendError::ValueCountMismatch { expected, actual } => {
                push_str(&mut s, "expected ");
                push_usize_text(&mut s, *expected);
                push_str(&mut s, " values, received ");
                push_usize_text(&mut s, *actual);
            },
            BackendError::TypeMismatch { column, expected, found } => {
                push_str(&mut s, "column '");
                push_str(&mut s, column.as_str());
                push_str(&mut s, "' expects ");
                push_str(&mut s, expected.name());
                push_str(&mut s, ", received ");
                push_str(&mut s, found);
            },
            BackendError::NullConstraintViolation(c) => {
                push_str(&mut s, "column '");
                push_str(&mut s, c.as_str());
                push_str(&mut s, "' may not be NULL");
            },
            BackendError::DuplicatePrimaryKey(v) => {
                push_str(&mut s, "duplicate primary key ");
                push_str(&mut s, v.as_str());
            },
            BackendError::InvalidExpression(m) => {
                push_str(&mut s, m.as_str());
            },
            BackendError::InvalidSchema(m) => {
                push_str(&mut s, m.as_str());
            },
            BackendError::InvalidPrimaryKey(m) => {
                push_str(&mut s, m.as_str());
            },
            BackendError::Execution(m) => {
                push_str(&mut s, m.as_str());
            },
            BackendError::IoError(m) => {
                push_str(&mut s, m.as_str());
            },
            BackendError::SerializationError(m) => {
                push_str(&mut s, m.as_str());
            },
        }
        assert(s@ =~= backend_error_text(self@));
        s
    }
}

// ---------------------------------------------------------------------------
// Values and results.

/// The float host's display text of a number (empty if it gives no text).
pub open spec fn float_text(bits: u64, fl: FloatModel) -> Seq<char> {
    match fl(SpecFloatTask::DisplayText(bits)) {
        SpecFloatReply::Text(t) => t,
        _ => Seq::empty(),
    }
}

/// The text a value is shown as: numbers in decimal, strings as they are,
/// `true`/`false`, and `NULL`.
pub open spec fn value_text(v: SpecValue, fl: FloatModel) -> Seq<char> {
    match v {
        SpecValue::Integer(i) => int_text(i as int),
        SpecValue::Float(b) => float_text(b, fl),
        SpecValue::String(s) => s,
        SpecValue::Boolean(b) => if b {
            "true"@
        } else {
            "false"@
        },
        SpecValue::Null => "NULL"@,
    }
}

impl Value {
    /// The text this value is shown as (see [`value_text`]).
    pub fn display_text<F: Fn(FloatTask) -> FloatReply>(&self, host: &F) -> (text: String)
        requires
            host_ready(host),
        ensures
            forall|m: FloatModel| follows(host, m) ==> text@ == value_text(self@, m),
    {
        match self {
            Value::Integer(i) => {
                let mut s = String::new();
                push_i64_text(&mut s, *i);
                assert(s@ =~= int_text(*i as int));
                s
            },
            Value::Float(bits) => match ask(host, FloatTask::DisplayText(*bits)) {
                FloatReply::Text(t) => t,
                _ => String::new(),
            },
            Value::String(s) => s.clone(),
            Value::Boolean(b) => string_of(if *b { "true" } else { "false" }),
            Value::Null => string_of("NULL"),
        }
    }
}

/// Texts joined with a separator between each two.
pub open spec fn joined(parts: Seq<Seq<char>>, separator: Seq<char>) -> Seq<char>
    decreases parts.len(),
{
    if parts.len() == 0 {
        Seq::empty()
    } else if parts.len() == 1 {
        parts[0]
    } else {
        joined(parts.drop_last(), separator) + separator + parts.last()
    }
}

/// The line that shows a row: its values' texts joined by ` | `.
pub open spec fn row_line(row: Seq<SpecValue>, fl: FloatModel) -> Seq<char> {
    joined(row.map_values(|v: SpecValue| value_text(v, fl)), " | "@)
}

/// The lines that show a result.
pub open spec fn result_text(r: crate::executor::SpecResult, fl: FloatModel) -> Seq<Seq<char>> {
    match r {
        crate::executor::SpecResult::TableCreated(t) => seq!["Created table "@ + t],
        crate::executor::SpecResult::RowsInserted(n) => seq!["Inserted "@ + nat_text(n as nat) + " row(s)"@],
        crate::executor::SpecResult::Query(columns, rows) => seq![joined(columns, " | "@)] + rows.map_values(
            |row: Seq<SpecValue>| row_line(row, fl),
        ) + seq![nat_text(rows.len()) + " row(s)"@],
    }
}

pub open spec fn lines_view(lines: Seq<String>) -> Seq<Seq<char>> {
    lines.map_values(|l: String| l@)
}

/// Joins the parts with `separator` between each two.
#[verifier::rlimit(30)]
fn join(parts: &Vec<String>, separator: &str) -> (text: String)
    ensures
        text@ == joined(lines_view(parts@), separator@),
{
    let ghost views = lines_view(parts@);
    let mut s = String::new();
    let mut i: usize = 0;
    while i < parts.len()
        invariant
            i <= parts.len(),
            views == lines_view(parts@),
            s@ == joined(views.take(i as int), separator@),
        decreases parts.len() - i,
    {
        assert(views.take(i + 1).drop_last() =~= views.take(i as int));
        assert(views[i as int] == parts@[i as int]@);
        if i > 0 {
            push_str(&mut s, separator);
        }
        push_str(&mut s, parts[i].as_str());
        proof {
            if i == 0 {
                assert(s@ =~= views[0]);
            }
        }
        i = i + 1;
    }
    assert(views.take(parts.len() as int) =~= views);
    s
}

/// The line that shows a row (see [`row_line`]).
#[verifier::rlimit(30)]
fn row_text<F: Fn(FloatTask) -> FloatReply>(row: &Row, host: &F) -> (text: String)
    requires
        host_ready(host),
    ensures
        forall|m: FloatModel| follows(host, m) ==> text@ == row_line(row_view(row@), m),
{
    let mut parts: Vec<String> = Vec::new();
    let mut i: usize = 0;
    while i < row.len()
        invariant
            i <= row.len(),
            parts.len() == i,
            host_ready(host),
            forall|m: FloatModel| follows(host, m) ==> lines_view(parts@) == row_view(row@).take(i as int).map_values(
                |v: SpecValue| value_text(v, m),
            ),
        decreases row.len() - i,
    {
        let t = row[i].display_text(host);
        let ghost before = parts@;
        parts.push(t);
        proof {
            assert forall|m: FloatModel| follows(host, m) implies lines_view(parts@) == row_view(row@).take(i + 1).map_values(
                |v: SpecValue| value_text(v, m),
            ) by {
                assert(lines_view(parts@) =~= lines_view(before).push(t@));
                assert(row_view(row@).take(i + 1) =~= row_view(row@).take(i as int).push(row@[i as int]@));
                assert(row_view(row@).take(i + 1).map_values(|v: SpecValue| value_text(v, m)) =~= row_view(row@).take(
                    i as int,
                ).map_values(|v: SpecValue| value_text(v, m)).push(value_text(row@[i as int]@, m)));
            };
        }
        i = i + 1;
    }
    assert(row_view(row@).take(row.len() as int) =~= row_view(row@));
    join(&parts, " | ")
}

/// The lines that show a query's result: the header, one line per row, and the row count.
#[verifier::rlimit(30)]
fn query_lines<F: Fn(FloatTask) -> FloatReply>(query: &QueryResult, host: &F) -> (lines: Vec<String>)
    requires
        host_ready(host),
    ensures
        forall|m: FloatModel| follows(host, m) ==> lines_view(lines@) == seq![joined(lines_view(query.columns@), " | "@)]
            + rows_view(query.rows@).map_values(|row: Seq<SpecValue>| row_line(row, m)) + seq![
            nat_text(query.rows.len() as nat) + " row(s)"@,
        ],
{
    let mut lines: Vec<String> = Vec::new();
    let header = join(&query.columns, " | ");
    lines.push(header);
    let ghost rows = rows_view(query.rows@);
    let mut r: usize = 0;
    while r < query.rows.len()
        invariant
            r <= query.rows.len(),
            lines.len() == r + 1,
            rows == rows_view(query.rows@),
            host_ready(host),
            lines_view(lines@)[0] == header@,
            forall|m: FloatModel| follows(host, m) ==> lines_view(lines@).drop_first() == rows.take(r as int).map_values(
                |row: Seq<SpecValue>| row_line(row, m),
            ),
        decreases query.rows.len() - r,
    {
        let line = row_text(&query.rows[r], host);
        let ghost before = lines@;
        lines.push(line);
        proof {
            lemma_lines_step(lines_view(before), line@, rows, r as int, host);
        }
        r = r + 1;
    }
    let mut tail = String::new();
    push_usize_text(&mut tail, query.rows.len());
    push_str(&mut tail, " row(s)");
    let ghost before = lines@;
    lines.push(tail);
    proof {
        assert(rows.take(query.rows.len() as int) =~= rows);
        assert(lines_view(lines@) =~= lines_view(before).push(tail@));
        assert(lines_view(before) =~= seq![header@] + lines_view(before).drop_first());
    }
    lines
}

#[verifier::rlimit(30)]
proof fn lemma_lines_step<F: Fn(FloatTask) -> FloatReply>(
    before: Seq<Seq<char>>,
    line: Seq<char>,
    rows: Seq<Seq<SpecValue>>,
    r: int,
    host: &F,
)
    requires
        0 <= r < rows.len(),
        before.len() == r + 1,
        forall|m: FloatModel| follows(host, m) ==> before.drop_first() == rows.take(r).map_values(
            |row: Seq<SpecValue>| row_line(row, m),
        ),
        forall|m: FloatModel| follows(host, m) ==> line == row_line(rows[r], m),
    ensures
        forall|m: FloatModel| follows(host, m) ==> before.push(line).drop_first() == rows.take(r + 1).map_values(
            |row: Seq<SpecValue>| row_line(row, m),
        ),
{
    assert forall|m: FloatModel| follows(host, m) implies before.push(line).drop_first() == rows.take(r + 1).map_values(
        |row: Seq<SpecValue>| row_line(row, m),
    ) by {
        assert(before.push(line).drop_first() =~= before.drop_first().push(line));
        assert(rows.take(r + 1) =~= rows.take(r).push(rows[r]));
        assert(rows.take(r + 1).map_values(|row: Seq<SpecValue>| row_line(row, m)) =~= rows.take(r).map_values(
            |row: Seq<SpecValue>| row_line(row, m),
        ).push(row_line(rows[r], m)));
    };
}

/// The lines that show a result (see [`result_text`]).
#[verifier::rlimit(30)]
pub fn result_lines<F: Fn(FloatTask) -> FloatReply>(result: &ExecutionResult, host: &F) -> (lines: Vec<String>)
    requires
        host_ready(host),
    ensures
        forall|m: FloatModel| follows(host, m) ==> lines_view(lines@) == result_text(result@, m),
{
    let mut lines: Vec<String> = Vec::new();
    match result {
        ExecutionResult::TableCreated { table } => {
            let mut s = string_of("Created table ");
            push_str(&mut s, table.as_str());
            lines.push(s);
            assert(lines_view(lines@) =~= seq![s@]);
        },
        ExecutionResult::RowsInserted { count } => {
            let mut s = string_of("Inserted ");
            push_usize_text(&mut s, *count);
            push_str(&mut s, " row(s)");
            lines.push(s);
            assert(lines_view(lines@) =~= seq![s@]);
        },
        ExecutionResult::Query(query) => {
            lines = query_lines(query, host);
        },
    }
    lines
}

} // verus!
