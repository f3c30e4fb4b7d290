use vstd::prelude::*;
use crate::expr::{Expr, SpecExpr};
use crate::span::Span;

verus! {

/// A complete SQL statement.
#[derive(Debug, PartialEq)]
pub struct Statement {
    pub kind: StatementKind,
    pub span: Span,
}

#[derive(Debug, PartialEq)]
pub enum StatementKind {
    Select(SelectStatement),
    Insert(InsertStatement),
    CreateTable(CreateTableStatement),
}

/// SELECT ... FROM ... [WHERE ...]
#[derive(Debug, PartialEq)]
pub struct SelectStatement {
    pub columns: Vec<SelectItem>,
    pub table: String,
    pub where_clause: Option<Expr>,
}

/// A column in the SELECT list.
#[derive(Debug, PartialEq)]
pub enum SelectItem {
    Wildcard,
    Expression { expr: Expr, alias: Option<String> },
}

/// INSERT INTO table (...) VALUES (...)
#[derive(Debug, PartialEq)]
pub struct InsertStatement {
    pub table: String,
    pub columns: Vec<String>,
    pub values: Vec<Expr>,
}

/// CREATE TABLE ...
#[derive(Debug, Clone, PartialEq)]
pub struct CreateTableStatement {
    pub name: String,
    pub columns: Vec<ColumnDefinition>,
}

#[derive(Debug, Clone, PartialEq)]
pub struct ColumnDefinition {
    pub name: String,
    pub data_type: DataType,
    pub nullable: bool,
    pub primary_key: bool,
}

#[derive(Debug, Clone, Copy, PartialEq, Eq, Structural)]
pub enum DataType {
    Integer,
    Float,
    Boolean,
    String,
}

pub struct SpecStatement {
    pub kind: SpecStatementKind,
    pub span: Span,
}

pub enum SpecStatementKind {
    Select(SpecSelect),
    Insert(SpecInsert),
    CreateTable(SpecCreateTable),
}

pub struct SpecSelect {
    pub columns: Seq<SpecSelectItem>,
    pub table: Seq<char>,
    pub where_clause: Option<SpecExpr>,
}

pub enum SpecSelectItem {
    Wildcard,
    Expression { expr: SpecExpr, alias: Option<Seq<char>> },
}

pub struct SpecInsert {
    pub table: Seq<char>,
    pub columns: Seq<Seq<char>>,
    pub values: Seq<SpecExpr>,
}

pub struct SpecCreateTable {
    pub name: Seq<char>,
    pub columns: Seq<SpecColumn>,
}

pub struct SpecColumn {
    pub name: Seq<char>,
    pub data_type: DataType,
    pub nullable: bool,
    pub primary_key: bool,
}

pub open spec fn opt_string_view(s: Option<String>) -> Option<Seq<char>> {
    match s {
        Some(t) => Some(t@),
        None => None,
    }
}

pub open spec fn opt_expr_view(e: Option<Expr>) -> Option<SpecExpr> {
    match e {
        Some(x) => Some(x@),
        None => None,
    }
}

impl View for SelectItem {
    type V = SpecSelectItem;

    open spec fn view(&self) -> SpecSelectItem {
        match self {
            SelectItem::Wildcard => SpecSelectItem::Wildcard,
            SelectItem::Expression { expr, alias } => SpecSelectItem::Expression {
                expr: expr@,
                alias: opt_string_view(*alias),
            },
        }
    }
}

impl View for ColumnDefinition {
    type V = SpecColumn;

    open spec fn view(&self) -> SpecColumn {
        SpecColumn {
            name: self.name@,
            data_type: self.data_type,
            nullable: self.nullable,
            primary_key: self.primary_key,
        }
    }
}

impl View for SelectStatement {
    type V = SpecSelect;

    open spec fn view(&self) -> SpecSelect {
        SpecSelect {
            columns: self.columns@.map_values(|c: SelectItem| c@),
            table: self.table@,
            where_clause: opt_expr_view(self.where_clause),
        }
    }
}

impl View for InsertStatement {
    type V = SpecInsert;

    open spec fn view(&self) -> SpecInsert {
        SpecInsert {
            table: self.table@,
            columns: self.columns@.map_values(|c: String| c@),
            values: self.values@.map_values(|e: Expr| e@),
        }
    }
}

impl View for CreateTableStatement {
    type V = SpecCreateTable;

    open spec fn view(&self) -> SpecCreateTable {
        SpecCreateTable { name: self.name@, columns: self.columns@.map_values(|c: ColumnDefinition| c@) }
    }
}

impl View for Statement {
    type V = SpecStatement;

    open spec fn view(&self) -> SpecStatement {
        SpecStatement {
            kind: match self.kind {
                StatementKind::Select(s) => SpecStatementKind::Select(s@),
                StatementKind::Insert(s) => SpecStatementKind::Insert(s@),
                StatementKind::CreateTable(s) => SpecStatementKind::CreateTable(s@),
            },
            span: self.span,
        }
    }
}

/// The SQL name of a column type.
pub open spec fn spec_data_type_name(t: DataType) -> Seq<char> {
    match t {
        DataType::Integer => "INTEGER"@,
        DataType::Float => "FLOAT"@,
        DataType::Boolean => "BOOLEAN"@,
        DataType::String => "STRING"@,
    }
}

impl DataType {
    /// The SQL name of this column type (what the type displays as).
    pub fn name(&self) -> (name: &'static str)
        ensures
            name@ == spec_data_type_name(*self),
    {
        match self {
            DataType::Integer => "INTEGER",
            DataType::Float => "FLOAT",
            DataType::Boolean => "BOOLEAN",
            DataType::String => "STRING",
        }
    }
}

impl Statement {
    pub fn new(kind: StatementKind, span: Span) -> (s: Statement)
        ensures
            s.kind == kind,
            s.span == span,
    {
        Statement { kind, span }
    }
}

} // verus!
