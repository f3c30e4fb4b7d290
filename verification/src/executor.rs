use vstd::prelude::*;
use crate::database::{
    copy_row, copy_table, key_debug, key_of, normalize_columns, primary_key_index, row_view, rows_view,
    stored_value_error, database_valid, row_fits, database_error, normalize_database, table_error, table_valid, Database, PrimaryKeyValue, Row, SpecDatabase, SpecKey, SpecTable, Table,
};
use crate::error::{BackendError, SpecBackendError};
use crate::evaluation::{
    eval, eval_const, eval_on_row, find_column, find_column_index, infer_type, int_to_float, non_finite_message,
    validate_expression, validate_where_expression, value_result, where_type_check, SpecScope,
};
use crate::expr::{copy_value, spec_type_name, BinaryOp, Expr, ExprKind, SpecExpr, SpecExprKind, SpecValue, Value};
use crate::float::{ask, follows, host_ready, FloatReply, FloatTask, SpecFloatReply, SpecFloatTask};
use crate::lexer::{fits_in_memory, spec_tokenize, FloatModel, Lexer};
use crate::parser::{columns_view, parse_statement, well_formed_tokens, Parser};
use crate::span::Span;
use crate::token::{SpecSpanned, SpecToken};
use crate::statement::{
    ColumnDefinition, CreateTableStatement, DataType, InsertStatement, SelectItem, SelectStatement, SpecColumn,
    SpecCreateTable, SpecInsert, SpecSelect, SpecSelectItem, SpecStatement, SpecStatementKind, Statement,
    StatementKind, opt_expr_view,
};
use crate::text::{eq_ignore_ascii_case, eq_ignore_case, nat_text, push_str, push_u64_text, string_of};

verus! {

// ---------------------------------------------------------------------------
// Statement semantics.

/// The first table named `name` (without regard to ASCII case) from entry `i` on.
pub open spec fn find_table_from(db: SpecDatabase, name: Seq<char>, i: int) -> Option<int>
    decreases db.len() - i,
{
    if i < 0 || i >= db.len() {
        None
    } else if eq_ignore_case(db[i].0, name) {
        Some(i)
    } else {
        find_table_from(db, name, i + 1)
    }
}

pub open spec fn find_table(db: SpecDatabase, name: Seq<char>) -> Option<int> {
    find_table_from(db, name, 0)
}

pub proof fn lemma_find_table(db: SpecDatabase, name: Seq<char>, i: int)
    requires
        0 <= i <= db.len(),
    ensures
        match find_table_from(db, name, i) {
            Some(k) => i <= k < db.len() && eq_ignore_case(db[k].0, name)
                && forall|j: int| i <= j < k ==> !eq_ignore_case(#[trigger] db[j].0, name),
            None => forall|j: int| i <= j < db.len() ==> !eq_ignore_case(#[trigger] db[j].0, name),
        },
    decreases db.len() - i,
{
    if i < db.len() {
        lemma_find_table(db, name, i + 1);
    }
}

/// CREATE TABLE: a new empty table at the end, unless the name is taken or
/// the schema is invalid.
pub open spec fn create_table(db: SpecDatabase, s: SpecCreateTable) -> Result<SpecDatabase, SpecBackendError> {
    if find_table(db, s.name) is Some {
        Err(SpecBackendError::TableAlreadyExists(s.name))
    } else {
        match table_error(SpecTable { columns: s.columns, rows: Seq::empty() }) {
            Some(m) => Err(SpecBackendError::InvalidSchema(m)),
            None => Ok(db.push((s.name, SpecTable { columns: normalize_columns(s.columns), rows: Seq::empty() }))),
        }
    }
}

/// The value must fit the column: NULL only in a nullable non-key column,
/// otherwise the column's type.
pub open spec fn check_value(c: SpecColumn, v: SpecValue) -> Result<(), SpecBackendError> {
    if v is Null {
        if c.nullable && !c.primary_key {
            Ok(())
        } else {
            Err(SpecBackendError::NullConstraintViolation(c.name))
        }
    } else if crate::database::type_matches(c.data_type, v) {
        Ok(())
    } else {
        Err(SpecBackendError::TypeMismatch { column: c.name, expected: c.data_type, found: spec_type_name(v) })
    }
}

/// An INTEGER value stored in a FLOAT column is converted; any other value
/// must fit the column.
pub open spec fn coerce(c: SpecColumn, v: SpecValue, fl: FloatModel) -> Result<SpecValue, SpecBackendError> {
    match (c.data_type, v) {
        (DataType::Float, SpecValue::Integer(i)) => match int_to_float(i, fl) {
            Some(b) => Ok(SpecValue::Float(b)),
            None => Err(SpecBackendError::Execution(non_finite_message())),
        },
        _ => match check_value(c, v) {
            Ok(_) => Ok(v),
            Err(e) => Err(e),
        },
    }
}

/// The columns an INSERT names, resolved from position `i` on (`seen`: those
/// resolved so far).
pub open spec fn resolve_columns(
    cols: Seq<SpecColumn>,
    table_name: Seq<char>,
    requested: Seq<Seq<char>>,
    i: int,
    seen: Seq<int>,
) -> Result<Seq<int>, SpecBackendError>
    decreases requested.len() - i,
{
    if i < 0 || i >= requested.len() {
        Ok(seen)
    } else {
        match find_column(cols, requested[i]) {
            None => Err(SpecBackendError::ColumnNotFound { table: table_name, column: requested[i] }),
            Some(k) => if seen.contains(k) {
                Err(SpecBackendError::DuplicateColumn(requested[i]))
            } else {
                resolve_columns(cols, table_name, requested, i + 1, seen.push(k))
            },
        }
    }
}

/// The column each VALUES entry goes to.
pub open spec fn column_targets(cols: Seq<SpecColumn>, table_name: Seq<char>, s: SpecInsert) -> Result<Seq<int>, SpecBackendError> {
    if s.columns.len() == 0 {
        if s.values.len() != cols.len() {
            Err(SpecBackendError::ValueCountMismatch { expected: cols.len() as usize, actual: s.values.len() as usize })
        } else {
            Ok(Seq::new(cols.len(), |i: int| i))
        }
    } else if s.values.len() != s.columns.len() {
        Err(SpecBackendError::ValueCountMismatch { expected: s.columns.len() as usize, actual: s.values.len() as usize })
    } else {
        resolve_columns(cols, table_name, s.columns, 0, Seq::empty())
    }
}

/// Stores VALUES entries `j..` into `row` at their target columns.
pub open spec fn fill_row(
    cols: Seq<SpecColumn>,
    values: Seq<SpecExpr>,
    targets: Seq<int>,
    j: int,
    row: Seq<SpecValue>,
    fl: FloatModel,
) -> Result<Seq<SpecValue>, SpecBackendError>
    decreases values.len() - j,
{
    if j < 0 || j >= values.len() {
        Ok(row)
    } else {
        match eval(values[j], SpecScope::Constant, fl) {
            Err(e) => Err(e),
            Ok(v) => match coerce(cols[targets[j]], v, fl) {
                Err(e) => Err(e),
                Ok(c) => fill_row(cols, values, targets, j + 1, row.update(targets[j], c), fl),
            },
        }
    }
}

/// The first value from column `c` on that does not fit.
pub open spec fn check_row_from(cols: Seq<SpecColumn>, row: Seq<SpecValue>, c: int) -> Result<(), SpecBackendError>
    decreases cols.len() - c,
{
    if c < 0 || c >= cols.len() {
        Ok(())
    } else {
        match check_value(cols[c], row[c]) {
            Err(e) => Err(e),
            Ok(_) => check_row_from(cols, row, c + 1),
        }
    }
}

/// The row an INSERT builds: NULL where no value is given, each value
/// evaluated and fitted to its column, then every column checked.
pub open spec fn spec_build_row(t: SpecTable, table_name: Seq<char>, s: SpecInsert, fl: FloatModel) -> Result<Seq<SpecValue>, SpecBackendError> {
    match column_targets(t.columns, table_name, s) {
        Err(e) => Err(e),
        Ok(targets) => checked_row(t.columns, fill_row(t.columns, s.values, targets, 0, Seq::new(t.columns.len(), |i: int| SpecValue::Null), fl)),
    }
}

/// Some row of `rows` has key `key` in column `k`.
pub open spec fn key_present(rows: Seq<Seq<SpecValue>>, k: int, key: SpecKey) -> bool {
    exists|r: int| 0 <= r < rows.len() && key_of(#[trigger] rows[r][k]) == Some(key)
}

/// Appends a row, refusing a missing, unusable or repeated primary key.
pub open spec fn spec_insert_row(t: SpecTable, row: Seq<SpecValue>) -> Result<SpecTable, SpecBackendError> {
    match primary_key_index(t.columns) {
        None => Ok(SpecTable { columns: t.columns, rows: t.rows.push(row) }),
        Some(k) => if k >= row.len() {
            Err(SpecBackendError::InvalidPrimaryKey("primary key column is outside the row"@))
        } else {
            match key_of(row[k]) {
                None => Err(SpecBackendError::InvalidPrimaryKey("unsupported primary key value"@)),
                Some(key) => if key_present(t.rows, k, key) {
                    Err(SpecBackendError::DuplicatePrimaryKey(key_debug(key)))
                } else {
                    Ok(SpecTable { columns: t.columns, rows: t.rows.push(row) })
                },
            }
        },
    }
}

/// INSERT: the table with the new row, or why the row is refused.
pub open spec fn insert(db: SpecDatabase, s: SpecInsert, fl: FloatModel) -> Result<SpecDatabase, SpecBackendError> {
    match find_table(db, s.table) {
        None => Err(SpecBackendError::TableNotFound(s.table)),
        Some(k) => match spec_build_row(db[k].1, db[k].0, s, fl) {
            Err(e) => Err(e),
            Ok(row) => match spec_insert_row(db[k].1, row) {
                Err(e) => Err(e),
                Ok(t) => Ok(db.update(k, (db[k].0, t))),
            },
        },
    }
}

/// Every SELECT-list expression, then the WHERE clause, is well-typed.
pub open spec fn check_items(items: Seq<SpecSelectItem>, cols: Seq<SpecColumn>, table_name: Seq<char>, i: int) -> Result<(), SpecBackendError>
    decreases items.len() - i,
{
    if i < 0 || i >= items.len() {
        Ok(())
    } else {
        match items[i] {
            SpecSelectItem::Expression { expr, alias } => match infer_type(expr, cols, table_name) {
                Err(e) => Err(e),
                Ok(_) => check_items(items, cols, table_name, i + 1),
            },
            SpecSelectItem::Wildcard => check_items(items, cols, table_name, i + 1),
        }
    }
}

pub open spec fn check_select(s: SpecSelect, cols: Seq<SpecColumn>, table_name: Seq<char>) -> Result<(), SpecBackendError> {
    match check_items(s.columns, cols, table_name, 0) {
        Err(e) => Err(e),
        Ok(_) => match s.where_clause {
            Some(w) => where_type_check(w, cols, table_name),
            None => Ok(()),
        },
    }
}

/// The label of an unaliased SELECT expression.
pub open spec fn spec_expression_label(e: SpecExpr) -> Seq<char> {
    match e.kind {
        SpecExprKind::Identifier(name) => name,
        _ => "expression"@,
    }
}

/// The result's column names: every column for `*`, else the alias or label.
pub open spec fn spec_projection_columns(items: Seq<SpecSelectItem>, cols: Seq<SpecColumn>) -> Seq<Seq<char>>
    decreases items.len(),
{
    if items.len() == 0 {
        Seq::empty()
    } else {
        spec_projection_columns(items.drop_last(), cols) + match items.last() {
            SpecSelectItem::Wildcard => cols.map_values(|c: SpecColumn| c.name),
            SpecSelectItem::Expression { expr, alias } => seq![
                match alias {
                    Some(a) => a,
                    None => spec_expression_label(expr),
                },
            ],
        }
    }
}

/// The projected values of a row: all of them for `*`, else each expression's value.
pub open spec fn spec_project_row(items: Seq<SpecSelectItem>, row: Seq<SpecValue>, cols: Seq<SpecColumn>, fl: FloatModel) -> Result<
    Seq<SpecValue>,
    SpecBackendError,
>
    decreases items.len(),
{
    if items.len() == 0 {
        Ok(Seq::empty())
    } else {
        match spec_project_row(items.drop_last(), row, cols, fl) {
            Err(e) => Err(e),
            Ok(front) => match items.last() {
                SpecSelectItem::Wildcard => Ok(front + row),
                SpecSelectItem::Expression { expr, alias } => match eval(expr, SpecScope::Row { values: row, columns: cols }, fl) {
                    Err(e) => Err(e),
                    Ok(v) => Ok(front.push(v)),
                },
            },
        }
    }
}

/// Whether a row passes the WHERE clause (NULL does not pass).
pub open spec fn spec_row_matches(row: Seq<SpecValue>, cols: Seq<SpecColumn>, where_clause: Option<SpecExpr>, fl: FloatModel) -> Result<
    bool,
    SpecBackendError,
> {
    match where_clause {
        None => Ok(true),
        Some(w) => match eval(w, SpecScope::Row { values: row, columns: cols }, fl) {
            Err(e) => Err(e),
            Ok(SpecValue::Boolean(b)) => Ok(b),
            Ok(SpecValue::Null) => Ok(false),
            Ok(v) => Err(SpecBackendError::InvalidExpression("WHERE expression must produce BOOLEAN, found "@ + spec_type_name(v))),
        },
    }
}

/// The projection of one row if it passes the WHERE clause.
pub open spec fn select_row(s: SpecSelect, row: Seq<SpecValue>, cols: Seq<SpecColumn>, fl: FloatModel) -> Result<
    Seq<Seq<SpecValue>>,
    SpecBackendError,
> {
    match spec_row_matches(row, cols, s.where_clause, fl) {
        Err(e) => Err(e),
        Ok(false) => Ok(Seq::empty()),
        Ok(true) => match spec_project_row(s.columns, row, cols, fl) {
            Err(e) => Err(e),
            Ok(p) => Ok(seq![p]),
        },
    }
}

/// The projections of the rows `rows[..n]` that pass, in order (the first error wins).
pub open spec fn scan_rows(s: SpecSelect, rows: Seq<Seq<SpecValue>>, cols: Seq<SpecColumn>, n: int, fl: FloatModel) -> Result<
    Seq<Seq<SpecValue>>,
    SpecBackendError,
>
    decreases n,
{
    if n <= 0 {
        Ok(Seq::empty())
    } else {
        match scan_rows(s, rows, cols, n - 1, fl) {
            Err(e) => Err(e),
            Ok(front) => match select_row(s, rows[n - 1], cols, fl) {
                Err(e) => Err(e),
                Ok(p) => Ok(front + p),
            },
        }
    }
}

/// The row of `rows` whose key in column `k` is `key`, if any.
pub open spec fn row_with_key(rows: Seq<Seq<SpecValue>>, k: int, key: SpecKey) -> Option<int> {
    if key_present(rows, k, key) {
        Some(choose|r: int| 0 <= r < rows.len() && key_of(#[trigger] rows[r][k]) == Some(key))
    } else {
        None
    }
}

/// A WHERE clause of the form `column = literal` (either way round): the
/// column's name and the literal expression.
pub open spec fn equality_with_literal(w: Option<SpecExpr>) -> Option<(Seq<char>, SpecExpr)> {
    match w {
        Some(e) => match e.kind {
            SpecExprKind::Binary { left, op, right } => if op is Equal {
                match ((*left).kind, (*right).kind) {
                    (SpecExprKind::Identifier(name), SpecExprKind::Literal(_)) => Some((name, *right)),
                    (SpecExprKind::Literal(_), SpecExprKind::Identifier(name)) => Some((name, *left)),
                    _ => None,
                }
            } else {
                None
            },
            _ => None,
        },
        None => None,
    }
}

/// The primary-key lookup: it applies when the WHERE clause compares the
/// key column with a literal of exactly the key's type; the candidate is the
/// row holding that key.
pub open spec fn spec_primary_key_lookup(t: SpecTable, w: Option<SpecExpr>, fl: FloatModel) -> Result<Option<Option<int>>, SpecBackendError> {
    match equality_with_literal(w) {
        None => Ok(None),
        Some((name, constant)) => match primary_key_index(t.columns) {
            None => Ok(None),
            Some(k) => if !eq_ignore_case(t.columns[k].name, name) {
                Ok(None)
            } else {
                match eval(constant, SpecScope::Constant, fl) {
                    Err(e) => Err(e),
                    Ok(v) => if !(t.columns[k].data_type != DataType::Float && crate::database::type_matches(t.columns[k].data_type, v)) {
                        Ok(None)
                    } else {
                        match key_of(v) {
                            None => Err(SpecBackendError::InvalidPrimaryKey("unsupported primary key value"@)),
                            Some(key) => Ok(Some(row_with_key(t.rows, k, key))),
                        }
                    }
                }
            },
        },
    }
}

/// The rows a SELECT returns from a table.
pub open spec fn select_rows(s: SpecSelect, t: SpecTable, fl: FloatModel) -> Result<Seq<Seq<SpecValue>>, SpecBackendError> {
    match spec_primary_key_lookup(t, s.where_clause, fl) {
        Err(e) => Err(e),
        Ok(Some(Some(r))) => select_row(s, t.rows[r], t.columns, fl),
        Ok(Some(None)) => Ok(Seq::empty()),
        Ok(None) => scan_rows(s, t.rows, t.columns, t.rows.len() as int, fl),
    }
}

/// SELECT: the result's column names and rows.
pub open spec fn select(db: SpecDatabase, s: SpecSelect, fl: FloatModel) -> Result<(Seq<Seq<char>>, Seq<Seq<SpecValue>>), SpecBackendError> {
    match find_table(db, s.table) {
        None => Err(SpecBackendError::TableNotFound(s.table)),
        Some(k) => match check_select(s, db[k].1.columns, db[k].0) {
            Err(e) => Err(e),
            Ok(_) => match select_rows(s, db[k].1, fl) {
                Err(e) => Err(e),
                Ok(rows) => Ok((spec_projection_columns(s.columns, db[k].1.columns), rows)),
            },
        },
    }
}

/// The generated value of a column for a seed ordinal.
pub open spec fn spec_seed_value(d: DataType, ordinal: usize, fl: FloatModel) -> Result<SpecValue, SpecBackendError> {
    if ordinal > i64::MAX {
        Err(SpecBackendError::Execution("seed value exceeds INTEGER range"@))
    } else {
        match d {
            DataType::Integer => Ok(SpecValue::Integer(ordinal as i64)),
            DataType::Float => match int_to_float(ordinal as i64, fl) {
                Some(b) => Ok(SpecValue::Float(b)),
                None => Err(SpecBackendError::Execution(non_finite_message())),
            },
            DataType::Boolean => Ok(SpecValue::Boolean(ordinal % 2 == 0)),
            DataType::String => Ok(SpecValue::String("value"@ + nat_text(ordinal as nat))),
        }
    }
}

/// The generated values of the columns `cols[..n]` for a seed ordinal.
pub open spec fn seed_values(cols: Seq<SpecColumn>, n: int, ordinal: usize, fl: FloatModel) -> Result<Seq<SpecValue>, SpecBackendError>
    decreases n,
{
    if n <= 0 {
        Ok(Seq::empty())
    } else {
        match seed_values(cols, n - 1, ordinal, fl) {
            Err(e) => Err(e),
            Ok(front) => match spec_seed_value(cols[n - 1].data_type, ordinal, fl) {
                Err(e) => Err(e),
                Ok(v) => Ok(front.push(v)),
            },
        }
    }
}

/// The row's primary key is usable and not yet taken.
pub open spec fn seed_row_available(t: SpecTable, row: Seq<SpecValue>) -> bool {
    match primary_key_index(t.columns) {
        None => true,
        Some(k) => match key_of(row[k]) {
            Some(key) => !key_present(t.rows, k, key),
            None => false,
        },
    }
}

/// The next generated row, trying ordinals from `ordinal` on with `attempts` tries left.
pub open spec fn seed_row_from(t: SpecTable, ordinal: usize, attempts: nat, fl: FloatModel) -> Result<Seq<SpecValue>, SpecBackendError>
    decreases attempts,
{
    if attempts == 0 {
        Err(SpecBackendError::InvalidPrimaryKey("no unused BOOLEAN primary key remains"@))
    } else {
        match seed_values(t.columns, t.columns.len() as int, ordinal, fl) {
            Err(e) => Err(e),
            Ok(row) => if seed_row_available(t, row) {
                Ok(row)
            } else if ordinal == usize::MAX {
                Err(SpecBackendError::Execution("seed counter overflow"@))
            } else {
                seed_row_from(t, (ordinal + 1) as usize, (attempts - 1) as nat, fl)
            },
        }
    }
}

/// How many ordinals the seeder tries: two for a BOOLEAN key, else up to `usize::MAX`.
pub open spec fn seed_attempts(t: SpecTable) -> nat {
    match primary_key_index(t.columns) {
        Some(k) => if t.columns[k].data_type == DataType::Boolean {
            2
        } else {
            usize::MAX as nat
        },
        None => usize::MAX as nat,
    }
}

/// The next generated row, starting from the row count as ordinal.
pub open spec fn spec_next_seed_row(t: SpecTable, fl: FloatModel) -> Result<Seq<SpecValue>, SpecBackendError> {
    seed_row_from(t, t.rows.len() as usize, seed_attempts(t), fl)
}

/// The table after `n` generated rows.
pub open spec fn seed_rows(t: SpecTable, n: nat, fl: FloatModel) -> Result<SpecTable, SpecBackendError>
    decreases n,
{
    if n == 0 {
        Ok(t)
    } else {
        match seed_rows(t, (n - 1) as nat, fl) {
            Err(e) => Err(e),
            Ok(t1) => match spec_next_seed_row(t1, fl) {
                Err(e) => Err(e),
                Ok(row) => spec_insert_row(t1, row),
            },
        }
    }
}

/// `.seed`: the database with `count` generated rows added to a table
/// (`None`: nothing to change, when `count` is 0).
pub open spec fn spec_seed(db: SpecDatabase, name: Seq<char>, count: usize, fl: FloatModel) -> Result<Option<SpecDatabase>, SpecBackendError> {
    match find_table(db, name) {
        None => Err(SpecBackendError::TableNotFound(name)),
        Some(k) => if count == 0 {
            Ok(None)
        } else {
            match seed_rows(db[k].1, count as nat, fl) {
                Err(e) => Err(e),
                Ok(t) => Ok(Some(db.update(k, (db[k].0, t)))),
            }
        },
    }
}

/// What a statement gives back.
pub enum SpecResult {
    TableCreated(Seq<char>),
    RowsInserted(usize),
    Query(Seq<Seq<char>>, Seq<Seq<SpecValue>>),
}

/// A statement's result and, for a statement that changes the database, the
/// database it leads to.
pub open spec fn execute_statement(db: SpecDatabase, s: SpecStatement, fl: FloatModel) -> Result<(SpecResult, Option<SpecDatabase>), SpecBackendError> {
    match s.kind {
        SpecStatementKind::CreateTable(c) => match create_table(db, c) {
            Err(e) => Err(e),
            Ok(d) => Ok((SpecResult::TableCreated(c.name), Some(d))),
        },
        SpecStatementKind::Insert(i) => match insert(db, i, fl) {
            Err(e) => Err(e),
            Ok(d) => Ok((SpecResult::RowsInserted(1), Some(d))),
        },
        SpecStatementKind::Select(q) => match select(db, q, fl) {
            Err(e) => Err(e),
            Ok((columns, rows)) => Ok((SpecResult::Query(columns, rows), None)),
        },
    }
}

// ---------------------------------------------------------------------------
// Results.

/// The rows a SELECT returns, with the names of its columns.
#[derive(Debug, Clone, PartialEq)]
pub struct QueryResult {
    pub columns: Vec<String>,
    pub rows: Vec<Row>,
}

#[derive(Debug, Clone, PartialEq)]
pub enum ExecutionResult {
    TableCreated { table: String },
    RowsInserted { count: usize },
    Query(QueryResult),
}

impl View for ExecutionResult {
    type V = SpecResult;

    open spec fn view(&self) -> SpecResult {
        match self {
            ExecutionResult::TableCreated { table } => SpecResult::TableCreated(table@),
            ExecutionResult::RowsInserted { count } => SpecResult::RowsInserted(*count),
            ExecutionResult::Query(q) => SpecResult::Query(q.columns@.map_values(|c: String| c@), rows_view(q.rows@)),
        }
    }
}

/// A database produced by a statement, waiting to be stored and committed.
/// It is always valid.
pub struct Snapshot {
    database: Database,
}

impl Snapshot {
    #[verifier::type_invariant]
    spec fn valid(self) -> bool {
        self.database.wf()
    }

    /// The database to store.
    pub fn database(&self) -> (d: &Database)
        ensures
            d@ == self@,
            d.wf(),
    {
        proof {
            use_type_invariant(self);
        }
        &self.database
    }
}

impl View for Snapshot {
    type V = SpecDatabase;

    closed spec fn view(&self) -> SpecDatabase {
        self.database@
    }
}

/// A statement's result, and the database to store when the statement changes it.
pub struct Outcome {
    pub result: ExecutionResult,
    pub changed: Option<Snapshot>,
}

pub open spec fn opt_db_view(d: Option<Snapshot>) -> Option<SpecDatabase> {
    match d {
        Some(x) => Some(x@),
        None => None,
    }
}

pub open spec fn outcome_view(r: Result<Outcome, BackendError>) -> Result<(SpecResult, Option<SpecDatabase>), SpecBackendError> {
    match r {
        Ok(o) => Ok((o.result@, opt_db_view(o.changed))),
        Err(e) => Err(e@),
    }
}

/// A copy of a database.
pub fn copy_database(db: &Database) -> (c: Database)
    requires
        db.wf(),
    ensures
        c@ == db@,
        c.wf(),
{
    let mut tables: Vec<(String, Table)> = Vec::new();
    let mut i: usize = 0;
    while i < db.tables.len()
        invariant
            i <= db.tables.len(),
            db.wf(),
            tables.len() == i,
            tables@.map_values(|e: (String, Table)| (e.0@, e.1@)) == db@.take(i as int),
            forall|x: int| 0 <= x < i ==> (#[trigger] tables@[x]).1.wf(),
        decreases db.tables.len() - i,
    {
        let ghost before = tables@;
        assert(db.tables@[i as int].1.wf());
        let entry = (db.tables[i].0.clone(), copy_table(&db.tables[i].1));
        tables.push(entry);
        assert(tables@.map_values(|e: (String, Table)| (e.0@, e.1@)) =~= before.map_values(|e: (String, Table)| (e.0@, e.1@)).push((db.tables@[i as int].0@, db.tables@[i as int].1@)));
        assert(db@.take(i + 1) =~= db@.take(i as int).push(db@[i as int]));
        i = i + 1;
    }
    assert(db@.take(db.tables.len() as int) =~= db@);
    let c = Database { tables };
    assert(c@ == db@);
    c
}

/// The position of the table named `requested`, without regard to ASCII case.
pub fn find_table_name(database: &Database, requested: &str) -> (k: Option<usize>)
    ensures
        match k {
            Some(x) => find_table(database@, requested@) == Some(x as int) && x < database.tables.len(),
            None => find_table(database@, requested@) is None,
        },
{
    proof {
        lemma_find_table(database@, requested@, 0);
    }
    let mut i: usize = 0;
    while i < database.tables.len()
        invariant
            i <= database.tables.len(),
            find_table_from(database@, requested@, 0) == find_table_from(database@, requested@, i as int),
        decreases database.tables.len() - i,
    {
        if eq_ignore_ascii_case(database.tables[i].0.as_str(), requested) {
            return Some(i);
        }
        i = i + 1;
    }
    None
}

pub open spec fn unit_view(r: Result<(), BackendError>) -> Result<(), SpecBackendError> {
    match r {
        Ok(_) => Ok(()),
        Err(e) => Err(e@),
    }
}

/// The value fits the column (see [`check_value`]).
#[verifier::rlimit(30)]
pub fn validate_value(column: &ColumnDefinition, value: &Value) -> (r: Result<(), BackendError>)
    ensures
        unit_view(r) == check_value(column@, value@),
{
    match value {
        Value::Null => {
            if column.nullable && !column.primary_key {
                Ok(())
            } else {
                Err(BackendError::NullConstraintViolation(column.name.clone()))
            }
        },
        _ => {
            let valid = match (column.data_type, value) {
                (DataType::Integer, Value::Integer(_)) => true,
                (DataType::Float, Value::Float(_)) => true,
                (DataType::Boolean, Value::Boolean(_)) => true,
                (DataType::String, Value::String(_)) => true,
                _ => false,
            };
            if valid {
                Ok(())
            } else {
                Err(BackendError::TypeMismatch { column: column.name.clone(), expected: column.data_type, found: value.sql_type_name() })
            }
        },
    }
}

/// Fits a value to its column (see [`coerce`]).
pub fn coerce_for_column<F: Fn(FloatTask) -> FloatReply>(column: &ColumnDefinition, value: Value, host: &F) -> (r: Result<Value, BackendError>)
    requires
        host_ready(host),
    ensures
        forall|m: FloatModel| follows(host, m) ==> value_result(r) == coerce(column@, value@, m),
{
    match (column.data_type, &value) {
        (DataType::Float, Value::Integer(i)) => match ask(host, FloatTask::FromInteger(*i)) {
            FloatReply::Number(b) => Ok(Value::Float(b)),
            _ => Err(BackendError::Execution(string_of("floating-point operation produced a non-finite value"))),
        },
        _ => {
            validate_value(column, &value)?;
            Ok(value)
        },
    }
}

pub open spec fn row_result(r: Result<Row, BackendError>) -> Result<Seq<SpecValue>, SpecBackendError> {
    match r {
        Ok(row) => Ok(row_view(row@)),
        Err(e) => Err(e@),
    }
}

fn contains_index(v: &Vec<usize>, x: usize) -> (b: bool)
    ensures
        b == v@.map_values(|i: usize| i as int).contains(x as int),
{
    let mut i: usize = 0;
    while i < v.len()
        invariant
            i <= v.len(),
            forall|j: int| 0 <= j < i ==> v@[j] != x,
        decreases v.len() - i,
    {
        if v[i] == x {
            assert(v@.map_values(|i: usize| i as int)[i as int] == x as int);
            return true;
        }
        i = i + 1;
    }
    proof {
        let s = v@.map_values(|i: usize| i as int);
        if s.contains(x as int) {
            let j = choose|j: int| 0 <= j < s.len() && s[j] == x as int;
            assert(v@[j] == x);
        }
    }
    false
}

/// The column each VALUES entry goes to (see [`column_targets`]).
#[verifier::rlimit(30)]
fn targets_of(table: &Table, table_name: &str, statement: &InsertStatement) -> (r: Result<Vec<usize>, BackendError>)
    ensures
        match (r, column_targets(table@.columns, table_name@, statement@)) {
            (Ok(v), Ok(t)) => v@.map_values(|i: usize| i as int) == t && v.len() == statement.values.len()
                && forall|j: int| 0 <= j < v.len() ==> v@[j] < table.columns.len(),
            (Err(e), Err(se)) => e@ == se,
            _ => false,
        },
{
    let n = table.columns.len();
    if statement.columns.len() == 0 {
        if statement.values.len() != n {
            return Err(BackendError::ValueCountMismatch { expected: n, actual: statement.values.len() });
        }
        let mut indices: Vec<usize> = Vec::new();
        let mut i: usize = 0;
        while i < n
            invariant
                i <= n == table.columns.len(),
                indices.len() == i,
                indices@.map_values(|x: usize| x as int) =~= Seq::new(i as nat, |j: int| j),
                forall|j: int| 0 <= j < indices.len() ==> indices@[j] < n,
            decreases n - i,
        {
            let ghost before = indices@;
            indices.push(i);
            assert(indices@.map_values(|x: usize| x as int) =~= before.map_values(|x: usize| x as int).push(i as int));
            i = i + 1;
        }
        return Ok(indices);
    }
    if statement.values.len() != statement.columns.len() {
        return Err(BackendError::ValueCountMismatch { expected: statement.columns.len(), actual: statement.values.len() });
    }
    let ghost cols = table@.columns;
    let ghost requested = statement@.columns;
    let mut indices: Vec<usize> = Vec::new();
    assert(indices@.map_values(|x: usize| x as int) =~= Seq::<int>::empty());
    let mut i: usize = 0;
    while i < statement.columns.len()
        invariant
            i <= statement.columns.len(),
            indices.len() == i,
            cols == table@.columns,
            requested == statement@.columns,
            requested.len() == statement.columns.len(),
            statement.columns.len() > 0,
            statement.values.len() == statement.columns.len(),
            resolve_columns(cols, table_name@, requested, 0, Seq::empty()) == resolve_columns(
                cols,
                table_name@,
                requested,
                i as int,
                indices@.map_values(|x: usize| x as int),
            ),
            forall|j: int| 0 <= j < indices.len() ==> indices@[j] < table.columns.len(),
        decreases statement.columns.len() - i,
    {
        let requested_name = &statement.columns[i];
        assert(requested[i as int] == requested_name@);
        let index = match find_column_index(&table.columns, requested_name.as_str()) {
            Some(index) => index,
            None => {
                return Err(BackendError::ColumnNotFound { table: string_of(table_name), column: requested_name.clone() });
            },
        };
        if contains_index(&indices, index) {
            return Err(BackendError::DuplicateColumn(requested_name.clone()));
        }
        let ghost before = indices@;
        indices.push(index);
        assert(indices@.map_values(|x: usize| x as int) =~= before.map_values(|x: usize| x as int).push(index as int));
        i = i + 1;
    }
    Ok(indices)
}

/// The row after filling, checked column by column.
pub open spec fn checked_row(cols: Seq<SpecColumn>, filled: Result<Seq<SpecValue>, SpecBackendError>) -> Result<
    Seq<SpecValue>,
    SpecBackendError,
> {
    match filled {
        Err(e) => Err(e),
        Ok(row) => match check_row_from(cols, row, 0) {
            Err(e) => Err(e),
            Ok(_) => Ok(row),
        },
    }
}

/// The row an INSERT builds (see [`spec_build_row`]).
#[verifier::rlimit(30)]
pub fn build_row<F: Fn(FloatTask) -> FloatReply>(table: &Table, table_name: &str, statement: &InsertStatement, host: &F) -> (r: Result<Row, BackendError>)
    requires
        host_ready(host),
    ensures
        forall|m: FloatModel| follows(host, m) ==> row_result(r) == spec_build_row(table@, table_name@, statement@, m),
        r matches Ok(row) ==> row_fits(table@.columns, row_view(row@)),
{
    let targets = targets_of(table, table_name, statement)?;
    let ghost cols = table@.columns;
    let ghost values = statement@.values;
    let ghost spec_targets = targets@.map_values(|i: usize| i as int);
    let n = table.columns.len();
    let mut row: Row = Vec::new();
    let mut c: usize = 0;
    while c < n
        invariant
            c <= n == table.columns.len(),
            row.len() == c,
            row_view(row@) =~= Seq::new(c as nat, |i: int| SpecValue::Null),
        decreases n - c,
    {
        let ghost before = row@;
        row.push(Value::Null);
        assert(row_view(row@) =~= row_view(before).push(SpecValue::Null));
        c = c + 1;
    }
    proof {
        assert(column_targets(cols, table_name@, statement@) == Ok::<Seq<int>, SpecBackendError>(spec_targets));
        assert(row_view(row@) == Seq::new(cols.len(), |i: int| SpecValue::Null));
    }
    let mut j: usize = 0;
    while j < statement.values.len()
        invariant
            j <= statement.values.len(),
            targets.len() == statement.values.len(),
            spec_targets == targets@.map_values(|i: usize| i as int),
            forall|x: int| 0 <= x < targets.len() ==> targets@[x] < n,
            cols == table@.columns,
            values == statement@.values,
            row.len() == n,
            n == table.columns.len(),
            host_ready(host),
            forall|m: FloatModel| follows(host, m) ==> spec_build_row(table@, table_name@, statement@, m) == checked_row(
                cols,
                fill_row(cols, values, spec_targets, j as int, row_view(row@), m),
            ),
        decreases statement.values.len() - j,
    {
        assert(values[j as int] == statement.values@[j as int]@);
        let value = match eval_const(&statement.values[j], host) {
            Ok(v) => v,
            Err(e) => {
                return Err(e);
            },
        };
        let index = targets[j];
        assert(spec_targets[j as int] == index as int);
        assert(cols[index as int] == table.columns@[index as int]@);
        let coerced = match coerce_for_column(&table.columns[index], value, host) {
            Ok(v) => v,
            Err(e) => {
                return Err(e);
            },
        };
        let ghost before = row@;
        let ghost cv = coerced@;
        row.set(index, coerced);
        assert(row_view(row@) =~= row_view(before).update(index as int, cv));
        j = j + 1;
    }
    let mut c: usize = 0;
    while c < n
        invariant
            c <= n == table.columns.len(),
            row.len() == n,
            cols == table@.columns,
            host_ready(host),
            forall|m: FloatModel| follows(host, m) ==> spec_build_row(table@, table_name@, statement@, m) == checked_row(
                cols,
                Ok(row_view(row@)),
            ),
            check_row_from(cols, row_view(row@), 0) == check_row_from(cols, row_view(row@), c as int),
            forall|x: int| 0 <= x < c ==> stored_value_error(cols[x], #[trigger] row_view(row@)[x]) is None,
        decreases n - c,
    {
        assert(cols[c as int] == table.columns@[c as int]@);
        assert(row_view(row@)[c as int] == row@[c as int]@);
        match validate_value(&table.columns[c], &row[c]) {
            Ok(()) => {},
            Err(e) => {
                return Err(e);
            },
        }
        c = c + 1;
    }
    Ok(row)
}


/// Appending a fitting row to a valid table, where the append is accepted,
/// gives a valid table.
#[verifier::rlimit(30)]
pub proof fn lemma_insert_row_valid(t: SpecTable, row: Seq<SpecValue>)
    requires
        table_valid(t),
        row_fits(t.columns, row),
        spec_insert_row(t, row) is Ok,
    ensures
        table_valid(spec_insert_row(t, row)->Ok_0),
        spec_insert_row(t, row)->Ok_0 == (SpecTable { columns: t.columns, rows: t.rows.push(row) }),
{
    let rows = t.rows.push(row);
    let cols = t.columns;
    assert forall|r: int| 0 <= r < rows.len() implies (#[trigger] rows[r]).len() == cols.len() by {
        if r < t.rows.len() {
            assert(rows[r] == t.rows[r]);
        }
    };
    assert forall|r: int, c: int| 0 <= r < rows.len() && 0 <= c < cols.len() implies stored_value_error(cols[c], #[trigger] rows[r][c]) is None by {
        if r < t.rows.len() {
            assert(rows[r] == t.rows[r]);
        }
    };
    match primary_key_index(cols) {
        Some(k) => {
            let key = key_of(row[k])->Some_0;
            assert(!key_present(t.rows, k, key));
            assert forall|r: int| 0 <= r < rows.len() implies key_of(#[trigger] rows[r][k]) is Some by {
                if r < t.rows.len() {
                    assert(rows[r] == t.rows[r]);
                }
            };
            assert forall|r1: int, r2: int| 0 <= r1 < r2 < rows.len() implies key_of(#[trigger] rows[r1][k]) != key_of(#[trigger] rows[r2][k]) by {
                assert(rows[r1] == t.rows[r1]);
                if r2 < t.rows.len() {
                    assert(rows[r2] == t.rows[r2]);
                } else {
                    assert(rows[r2] == row);
                    assert(key_of(t.rows[r1][k]) != Some(key));
                }
            };
        },
        None => {},
    }
}

/// On a valid table, the key index holds exactly the keys present in the
/// key column, each with the row that holds it.
pub proof fn lemma_index_finds_key(t: &Table, k: int, key: SpecKey)
    requires
        t.wf(),
        primary_key_index(t@.columns) == Some(k),
    ensures
        key_present(t@.rows, k, key) == t.key_index().contains_key(key),
        t.key_index().contains_key(key) ==> row_with_key(t@.rows, k, key) == Some(t.key_index()[key] as int),
{
    let rows = t@.rows;
    let index = t.key_index();
    if index.contains_key(key) {
        let r = index[key] as int;
        assert(key_of(rows[r][k]) == Some(key));
        assert(key_present(rows, k, key));
        let c = choose|x: int| 0 <= x < rows.len() && key_of(#[trigger] rows[x][k]) == Some(key);
        if c != r {
            if c < r {
                assert(key_of(rows[c][k]) != key_of(rows[r][k]));
            } else {
                assert(key_of(rows[r][k]) != key_of(rows[c][k]));
            }
        }
    }
    if key_present(rows, k, key) {
        let r = choose|x: int| 0 <= x < rows.len() && key_of(#[trigger] rows[x][k]) == Some(key);
        assert(key_of(rows[r][k]) matches Some(y) && index.contains_key(y));
    }
}

/// Appends a fitting row to a valid table (see [`spec_insert_row`]), looking
/// the key up in the table's index; a refused row leaves the table as it was.
fn insert_row(table: &mut Table, row: Row) -> (r: Result<(), BackendError>)
    requires
        old(table).wf(),
        row_fits(old(table)@.columns, row_view(row@)),
    ensures
        final(table).wf(),
        r is Ok ==> final(table).key_index() == (match primary_key_index(old(table)@.columns) {
            Some(k) => old(table).key_index().insert(key_of(row_view(row@)[k])->Some_0, old(table)@.rows.len() as usize),
            None => old(table).key_index(),
        }),
        r is Err ==> final(table).key_index() == old(table).key_index(),
        match spec_insert_row(old(table)@, row_view(row@)) {
            Ok(t) => r is Ok && final(table)@ == t,
            Err(e) => r matches Err(x) && x@ == e && final(table)@ == old(table)@,
        },
{
    let ghost rv = row_view(row@);
    match table.primary_key_column() {
        None => {
            table.append_row(row);
            Ok(())
        },
        Some(k) => {
            proof {
                crate::database::lemma_primary_key_index(table@.columns);
            }
            if k >= row.len() {
                return Err(BackendError::InvalidPrimaryKey(string_of("primary key column is outside the row")));
            }
            assert(rv[k as int] == row@[k as int]@);
            let key = match PrimaryKeyValue::from_value(&row[k]) {
                Some(key) => key,
                None => {
                    return Err(BackendError::InvalidPrimaryKey(string_of("unsupported primary key value")));
                },
            };
            proof {
                lemma_index_finds_key(table, k as int, key@);
            }
            if table.key_row(&key).is_some() {
                return Err(BackendError::DuplicatePrimaryKey(key.debug_text()));
            }
            table.append_row(row);
            Ok(())
        },
    }
}

// ---------------------------------------------------------------------------
// SELECT.

/// The SELECT list and WHERE clause are well-typed (see [`check_select`]).
#[verifier::rlimit(30)]
fn validate_select(statement: &SelectStatement, table: &Table, table_name: &str) -> (r: Result<(), BackendError>)
    ensures
        unit_view(r) == check_select(statement@, table@.columns, table_name@),
{
    let ghost items = statement@.columns;
    let ghost cols = table@.columns;
    let mut i: usize = 0;
    while i < statement.columns.len()
        invariant
            i <= statement.columns.len(),
            items == statement@.columns,
            cols == table@.columns,
            check_items(items, cols, table_name@, 0) == check_items(items, cols, table_name@, i as int),
        decreases statement.columns.len() - i,
    {
        assert(items[i as int] == statement.columns@[i as int]@);
        match &statement.columns[i] {
            SelectItem::Expression { expr, .. } => {
                validate_expression(expr, table, table_name)?;
            },
            SelectItem::Wildcard => {},
        }
        i = i + 1;
    }
    match &statement.where_clause {
        Some(expression) => validate_where_expression(expression, table, table_name),
        None => Ok(()),
    }
}

/// The label of an unaliased SELECT expression (see [`spec_expression_label`]).
fn expression_label(expression: &Expr) -> (label: &str)
    ensures
        label@ == spec_expression_label(expression@),
{
    match &expression.kind {
        ExprKind::Identifier(name) => name.as_str(),
        _ => {
            proof {
                reveal_strlit("expression");
            }
            "expression"
        },
    }
}

pub open spec fn names_of(v: Seq<String>) -> Seq<Seq<char>> {
    v.map_values(|s: String| s@)
}

/// The result's column names (see [`spec_projection_columns`]).
#[verifier::rlimit(30)]
fn projection_columns(statement: &SelectStatement, table: &Table) -> (names: Vec<String>)
    ensures
        names_of(names@) == spec_projection_columns(statement@.columns, table@.columns),
{
    let ghost items = statement@.columns;
    let ghost cols = table@.columns;
    let mut names: Vec<String> = Vec::new();
    let mut i: usize = 0;
    assert(items.take(0) =~= Seq::<SpecSelectItem>::empty());
    assert(names_of(names@) =~= Seq::<Seq<char>>::empty());
    while i < statement.columns.len()
        invariant
            i <= statement.columns.len(),
            items == statement@.columns,
            cols == table@.columns,
            names_of(names@) == spec_projection_columns(items.take(i as int), cols),
        decreases statement.columns.len() - i,
    {
        assert(items[i as int] == statement.columns@[i as int]@);
        assert(items.take(i + 1).drop_last() =~= items.take(i as int));
        let ghost front = names_of(names@);
        match &statement.columns[i] {
            SelectItem::Wildcard => {
                let mut c: usize = 0;
                while c < table.columns.len()
                    invariant
                        c <= table.columns.len(),
                        cols == table@.columns,
                        names_of(names@) == front + cols.map_values(|x: SpecColumn| x.name).take(c as int),
                    decreases table.columns.len() - c,
                {
                    let ghost before = names@;
                    names.push(table.columns[c].name.clone());
                    assert(names_of(names@) =~= names_of(before).push(table.columns@[c as int].name@));
                    assert(cols.map_values(|x: SpecColumn| x.name).take(c + 1) =~= cols.map_values(|x: SpecColumn| x.name).take(
                        c as int,
                    ).push(cols[c as int].name));
                    c = c + 1;
                }
                assert(cols.map_values(|x: SpecColumn| x.name).take(table.columns.len() as int) =~= cols.map_values(
                    |x: SpecColumn| x.name,
                ));
            },
            SelectItem::Expression { expr, alias } => {
                let label = match alias {
                    Some(a) => a.clone(),
                    None => string_of(expression_label(expr)),
                };
                let ghost before = names@;
                names.push(label);
                assert(names_of(names@) =~= names_of(before).push(label@));
            },
        }
        i = i + 1;
    }
    assert(items.take(statement.columns.len() as int) =~= items);
    names
}

/// An error in the projection of the first `j` items is the projection's error.
proof fn lemma_project_prefix_error(items: Seq<SpecSelectItem>, row: Seq<SpecValue>, cols: Seq<SpecColumn>, fl: FloatModel, j: int)
    requires
        0 <= j <= items.len(),
        spec_project_row(items.take(j), row, cols, fl) is Err,
    ensures
        spec_project_row(items, row, cols, fl) == spec_project_row(items.take(j), row, cols, fl),
    decreases items.len(),
{
    if j == items.len() {
        assert(items.take(j) =~= items);
    } else {
        assert(items.drop_last().take(j) =~= items.take(j));
        lemma_project_prefix_error(items.drop_last(), row, cols, fl, j);
    }
}

/// The projected values of a row (see [`spec_project_row`]).
#[verifier::rlimit(30)]
fn project_row<F: Fn(FloatTask) -> FloatReply>(row: &Row, table: &Table, statement: &SelectStatement, host: &F) -> (r: Result<Row, BackendError>)
    requires
        host_ready(host),
    ensures
        forall|m: FloatModel| follows(host, m) ==> row_result(r) == spec_project_row(statement@.columns, row_view(row@), table@.columns, m),
{
    let ghost items = statement@.columns;
    let ghost cols = table@.columns;
    let ghost rv = row_view(row@);
    let mut projected: Row = Vec::new();
    let mut i: usize = 0;
    assert(items.take(0) =~= Seq::<SpecSelectItem>::empty());
    assert(row_view(projected@) =~= Seq::<SpecValue>::empty());
    while i < statement.columns.len()
        invariant
            i <= statement.columns.len(),
            items == statement@.columns,
            cols == table@.columns,
            rv == row_view(row@),
            host_ready(host),
            forall|m: FloatModel| follows(host, m) ==> spec_project_row(items.take(i as int), rv, cols, m) == Ok::<
                Seq<SpecValue>,
                SpecBackendError,
            >(row_view(projected@)),
        decreases statement.columns.len() - i,
    {
        assert(items[i as int] == statement.columns@[i as int]@);
        assert(items.take(i + 1).drop_last() =~= items.take(i as int));
        assert(items.take(i + 1).last() == items[i as int]);
        let ghost front = row_view(projected@);
        match &statement.columns[i] {
            SelectItem::Wildcard => {
                let mut c: usize = 0;
                while c < row.len()
                    invariant
                        c <= row.len(),
                        rv == row_view(row@),
                        row_view(projected@) == front + rv.take(c as int),
                    decreases row.len() - c,
                {
                    let ghost before = projected@;
                    projected.push(copy_value(&row[c]));
                    assert(row_view(projected@) =~= row_view(before).push(row@[c as int]@));
                    assert(rv.take(c + 1) =~= rv.take(c as int).push(rv[c as int]));
                    c = c + 1;
                }
                assert(rv.take(row.len() as int) =~= rv);
            },
            SelectItem::Expression { expr, .. } => {
                match eval_on_row(expr, row, table, host) {
                    Ok(v) => {
                        let ghost before = projected@;
                        projected.push(v);
                        assert(row_view(projected@) =~= row_view(before).push(v@));
                    },
                    Err(e) => {
                        proof {
                            assert forall|m: FloatModel| follows(host, m) implies row_result(Err(e)) == spec_project_row(
                                items,
                                rv,
                                cols,
                                m,
                            ) by {
                                lemma_project_prefix_error(items, rv, cols, m, i + 1);
                            };
                        }
                        return Err(e);
                    },
                }
            },
        }
        i = i + 1;
    }
    assert(items.take(statement.columns.len() as int) =~= items);
    Ok(projected)
}

pub open spec fn bool_result(r: Result<bool, BackendError>) -> Result<bool, SpecBackendError> {
    match r {
        Ok(b) => Ok(b),
        Err(e) => Err(e@),
    }
}

/// Whether a row passes the WHERE clause (see [`spec_row_matches`]).
fn row_matches<F: Fn(FloatTask) -> FloatReply>(row: &Row, table: &Table, where_clause: &Option<Expr>, host: &F) -> (r: Result<bool, BackendError>)
    requires
        host_ready(host),
    ensures
        forall|m: FloatModel| follows(host, m) ==> bool_result(r) == spec_row_matches(
            row_view(row@),
            table@.columns,
            opt_expr_view(*where_clause),
            m,
        ),
{
    match where_clause {
        None => Ok(true),
        Some(expression) => match eval_on_row(expression, row, table, host)? {
            Value::Boolean(b) => Ok(b),
            Value::Null => Ok(false),
            value => {
                let mut m = string_of("WHERE expression must produce BOOLEAN, found ");
                push_str(&mut m, value.sql_type_name());
                Err(BackendError::InvalidExpression(m))
            },
        },
    }
}

/// Whether the primary key narrows a SELECT to one candidate row.
pub enum IndexLookup {
    /// The WHERE clause is not `key = literal`: every row is scanned.
    NotApplicable,
    /// The position of the row with that key, if any row has it.
    Candidate(Option<usize>),
}

pub open spec fn lookup_result(r: Result<IndexLookup, BackendError>) -> Result<Option<Option<int>>, SpecBackendError> {
    match r {
        Ok(IndexLookup::NotApplicable) => Ok(None),
        Ok(IndexLookup::Candidate(Some(x))) => Ok(Some(Some(x as int))),
        Ok(IndexLookup::Candidate(None)) => Ok(Some(None)),
        Err(e) => Err(e@),
    }
}

/// The row of a valid table holding `key` in column `k` (see [`row_with_key`]),
/// found through the table's key index.
fn find_key_row(table: &Table, k: usize, key: &PrimaryKeyValue) -> (found: Option<usize>)
    requires
        table.wf(),
        primary_key_index(table@.columns) == Some(k as int),
    ensures
        match found {
            Some(r) => row_with_key(table@.rows, k as int, key@) == Some(r as int) && r < table.rows.len(),
            None => row_with_key(table@.rows, k as int, key@) is None,
        },
{
    proof {
        lemma_index_finds_key(table, k as int, key@);
    }
    table.key_row(key)
}

/// Whether the WHERE clause picks a row by primary key (see [`spec_primary_key_lookup`]).
#[verifier::rlimit(30)]
fn primary_key_lookup<F: Fn(FloatTask) -> FloatReply>(table: &Table, where_clause: &Option<Expr>, host: &F) -> (r: Result<IndexLookup, BackendError>)
    requires
        table.wf(),
        host_ready(host),
    ensures
        forall|m: FloatModel| follows(host, m) ==> lookup_result(r) == spec_primary_key_lookup(table@, opt_expr_view(*where_clause), m),
        r matches Ok(IndexLookup::Candidate(Some(x))) ==> x < table.rows.len(),
{
    proof {
        reveal_with_fuel(crate::expr::expr_view, 2);
    }
    let (column_name, constant) = match where_clause {
        Some(expression) => match &expression.kind {
            ExprKind::Binary { left, op: BinaryOp::Equal, right } => match (&left.kind, &right.kind) {
                (ExprKind::Identifier(name), ExprKind::Literal(_)) => (name, &**right),
                (ExprKind::Literal(_), ExprKind::Identifier(name)) => (name, &**left),
                _ => {
                    return Ok(IndexLookup::NotApplicable);
                },
            },
            _ => {
                return Ok(IndexLookup::NotApplicable);
            },
        },
        None => {
            return Ok(IndexLookup::NotApplicable);
        },
    };
    assert(equality_with_literal(opt_expr_view(*where_clause)) == Some((column_name@, constant@)));
    let k = match table.primary_key_column() {
        Some(k) => k,
        None => {
            return Ok(IndexLookup::NotApplicable);
        },
    };
    proof {
        crate::database::lemma_primary_key_index(table@.columns);
    }
    let column = &table.columns[k];
    assert(table@.columns[k as int] == column@);
    if !eq_ignore_ascii_case(column.name.as_str(), column_name.as_str()) {
        return Ok(IndexLookup::NotApplicable);
    }
    let value = eval_const(constant, host)?;
    let exact_type = match (column.data_type, &value) {
        (DataType::Integer, Value::Integer(_)) => true,
        (DataType::String, Value::String(_)) => true,
        (DataType::Boolean, Value::Boolean(_)) => true,
        _ => false,
    };
    if !exact_type {
        return Ok(IndexLookup::NotApplicable);
    }
    let key = match PrimaryKeyValue::from_value(&value) {
        Some(key) => key,
        None => {
            return Err(BackendError::InvalidPrimaryKey(string_of("unsupported primary key value")));
        },
    };
    Ok(IndexLookup::Candidate(find_key_row(table, k, &key)))
}

/// An error among the first `n1` rows of a scan is the scan's error.
proof fn lemma_scan_prefix_error(s: SpecSelect, rows: Seq<Seq<SpecValue>>, cols: Seq<SpecColumn>, n1: int, n2: int, fl: FloatModel)
    requires
        0 <= n1 <= n2,
        scan_rows(s, rows, cols, n1, fl) is Err,
    ensures
        scan_rows(s, rows, cols, n2, fl) == scan_rows(s, rows, cols, n1, fl),
    decreases n2 - n1,
{
    if n2 > n1 {
        lemma_scan_prefix_error(s, rows, cols, n1, n2 - 1, fl);
    }
}

pub open spec fn rows_result(r: Result<Vec<Row>, BackendError>) -> Result<Seq<Seq<SpecValue>>, SpecBackendError> {
    match r {
        Ok(rows) => Ok(rows_view(rows@)),
        Err(e) => Err(e@),
    }
}

/// The projections of the rows that pass the WHERE clause, in order (see [`scan_rows`]).
#[verifier::rlimit(30)]
fn scan_table<F: Fn(FloatTask) -> FloatReply>(table: &Table, statement: &SelectStatement, host: &F) -> (r: Result<Vec<Row>, BackendError>)
    requires
        host_ready(host),
    ensures
        forall|m: FloatModel| follows(host, m) ==> rows_result(r) == scan_rows(
            statement@,
            table@.rows,
            table@.columns,
            table@.rows.len() as int,
            m,
        ),
{
    let ghost rows = table@.rows;
    let mut result: Vec<Row> = Vec::new();
    let mut i: usize = 0;
    assert(rows_view(result@) =~= Seq::<Seq<SpecValue>>::empty());
    while i < table.rows.len()
        invariant
            i <= table.rows.len(),
            rows == table@.rows,
            host_ready(host),
            forall|m: FloatModel| follows(host, m) ==> scan_rows(statement@, rows, table@.columns, i as int, m) == Ok::<
                Seq<Seq<SpecValue>>,
                SpecBackendError,
            >(rows_view(result@)),
        decreases table.rows.len() - i,
    {
        let row = &table.rows[i];
        assert(rows[i as int] == row_view(row@));
        match row_matches(row, table, &statement.where_clause, host) {
            Ok(true) => match project_row(row, table, statement, host) {
                Ok(p) => {
                    let ghost before = result@;
                    result.push(p);
                    assert(rows_view(result@) =~= rows_view(before) + seq![row_view(p@)]);
                },
                Err(e) => {
                    proof {
                        assert forall|m: FloatModel| follows(host, m) implies rows_result(Err(e)) == scan_rows(
                            statement@,
                            rows,
                            table@.columns,
                            rows.len() as int,
                            m,
                        ) by {
                            lemma_scan_prefix_error(statement@, rows, table@.columns, i + 1, rows.len() as int, m);
                        };
                    }
                    return Err(e);
                },
            },
            Ok(false) => {
                assert(rows_view(result@) =~= rows_view(result@) + Seq::<Seq<SpecValue>>::empty());
            },
            Err(e) => {
                proof {
                    assert forall|m: FloatModel| follows(host, m) implies rows_result(Err(e)) == scan_rows(
                        statement@,
                        rows,
                        table@.columns,
                        rows.len() as int,
                        m,
                    ) by {
                        lemma_scan_prefix_error(statement@, rows, table@.columns, i + 1, rows.len() as int, m);
                    };
                }
                return Err(e);
            },
        }
        i = i + 1;
    }
    Ok(result)
}

/// The rows a SELECT returns from a valid table (see [`select_rows`]).
#[verifier::rlimit(30)]
fn select_table_rows<F: Fn(FloatTask) -> FloatReply>(table: &Table, statement: &SelectStatement, host: &F) -> (r: Result<Vec<Row>, BackendError>)
    requires
        table.wf(),
        host_ready(host),
    ensures
        forall|m: FloatModel| follows(host, m) ==> rows_result(r) == select_rows(statement@, table@, m),
{
    match primary_key_lookup(table, &statement.where_clause, host)? {
        IndexLookup::Candidate(Some(index)) => {
            let row = &table.rows[index];
            assert(table@.rows[index as int] == row_view(row@));
            let mut rows: Vec<Row> = Vec::new();
            if row_matches(row, table, &statement.where_clause, host)? {
                let p = project_row(row, table, statement, host)?;
                rows.push(p);
                assert(rows_view(rows@) =~= seq![row_view(p@)]);
            } else {
                assert(rows_view(rows@) =~= Seq::<Seq<SpecValue>>::empty());
            }
            Ok(rows)
        },
        IndexLookup::Candidate(None) => {
            let rows: Vec<Row> = Vec::new();
            assert(rows_view(rows@) =~= Seq::<Seq<SpecValue>>::empty());
            Ok(rows)
        },
        IndexLookup::NotApplicable => scan_table(table, statement, host),
    }
}

// ---------------------------------------------------------------------------
// Generated rows.

/// A generated value: non-NULL and of the column's type.
pub open spec fn seeded_fits(d: DataType, v: SpecValue) -> bool {
    !(v is Null) && crate::database::type_matches(d, v)
}

/// The generated value of a column (see [`spec_seed_value`]).
fn seed_value<F: Fn(FloatTask) -> FloatReply>(data_type: DataType, ordinal: usize, host: &F) -> (r: Result<Value, BackendError>)
    requires
        host_ready(host),
    ensures
        forall|m: FloatModel| follows(host, m) ==> value_result(r) == spec_seed_value(data_type, ordinal, m),
        r matches Ok(v) ==> seeded_fits(data_type, v@),
{
    if ordinal as u64 > i64::MAX as u64 {
        return Err(BackendError::Execution(string_of("seed value exceeds INTEGER range")));
    }
    let integer = ordinal as i64;
    match data_type {
        DataType::Integer => Ok(Value::Integer(integer)),
        DataType::Float => match ask(host, FloatTask::FromInteger(integer)) {
            FloatReply::Number(bits) => Ok(Value::Float(bits)),
            _ => Err(BackendError::Execution(string_of("floating-point operation produced a non-finite value"))),
        },
        DataType::Boolean => Ok(Value::Boolean(ordinal % 2 == 0)),
        DataType::String => {
            let mut text = string_of("value");
            push_u64_text(&mut text, ordinal as u64);
            Ok(Value::String(text))
        },
    }
}

/// An error among the first `n1` generated values is the row's error.
proof fn lemma_seed_values_prefix_error(cols: Seq<SpecColumn>, n1: int, n2: int, ordinal: usize, fl: FloatModel)
    requires
        0 <= n1 <= n2,
        seed_values(cols, n1, ordinal, fl) is Err,
    ensures
        seed_values(cols, n2, ordinal, fl) == seed_values(cols, n1, ordinal, fl),
    decreases n2 - n1,
{
    if n2 > n1 {
        lemma_seed_values_prefix_error(cols, n1, n2 - 1, ordinal, fl);
    }
}

/// The generated values of every column for an ordinal (see [`seed_values`]).
#[verifier::rlimit(30)]
fn seed_row<F: Fn(FloatTask) -> FloatReply>(table: &Table, ordinal: usize, host: &F) -> (r: Result<Row, BackendError>)
    requires
        host_ready(host),
    ensures
        forall|m: FloatModel| follows(host, m) ==> row_result(r) == seed_values(
            table@.columns,
            table@.columns.len() as int,
            ordinal,
            m,
        ),
        r matches Ok(row) ==> row.len() == table.columns.len() && forall|c: int|
            0 <= c < row.len() ==> seeded_fits(table@.columns[c].data_type, #[trigger] row@[c]@),
{
    let ghost cols = table@.columns;
    let mut row: Row = Vec::new();
    let mut c: usize = 0;
    assert(row_view(row@) =~= Seq::<SpecValue>::empty());
    while c < table.columns.len()
        invariant
            c <= table.columns.len(),
            cols == table@.columns,
            row.len() == c,
            host_ready(host),
            forall|m: FloatModel| follows(host, m) ==> seed_values(cols, c as int, ordinal, m) == Ok::<Seq<SpecValue>, SpecBackendError>(
                row_view(row@),
            ),
            forall|x: int| 0 <= x < row.len() ==> seeded_fits(cols[x].data_type, #[trigger] row@[x]@),
        decreases table.columns.len() - c,
    {
        assert(cols[c as int] == table.columns@[c as int]@);
        match seed_value(table.columns[c].data_type, ordinal, host) {
            Ok(v) => {
                let ghost before = row@;
                row.push(v);
                assert(row_view(row@) =~= row_view(before).push(v@));
            },
            Err(e) => {
                proof {
                    assert forall|m: FloatModel| follows(host, m) implies row_result(Err(e)) == seed_values(
                        cols,
                        cols.len() as int,
                        ordinal,
                        m,
                    ) by {
                        lemma_seed_values_prefix_error(cols, c + 1, cols.len() as int, ordinal, m);
                    };
                }
                return Err(e);
            },
        }
        c = c + 1;
    }
    Ok(row)
}

/// The generated row's primary key is usable and unused (see [`seed_row_available`]).
fn seed_row_is_available(table: &Table, row: &Row) -> (b: bool)
    requires
        table.wf(),
        row.len() == table.columns.len(),
    ensures
        b == seed_row_available(table@, row_view(row@)),
{
    match table.primary_key_column() {
        None => true,
        Some(k) => {
            proof {
                crate::database::lemma_primary_key_index(table@.columns);
            }
            assert(row_view(row@)[k as int] == row@[k as int]@);
            match PrimaryKeyValue::from_value(&row[k]) {
                Some(key) => find_key_row(table, k, &key).is_none(),
                None => false,
            }
        },
    }
}

/// The next generated row of a valid table (see [`spec_next_seed_row`]).
#[verifier::rlimit(30)]
fn next_seed_row<F: Fn(FloatTask) -> FloatReply>(table: &Table, host: &F) -> (r: Result<Row, BackendError>)
    requires
        table.wf(),
        host_ready(host),
    ensures
        forall|m: FloatModel| follows(host, m) ==> row_result(r) == spec_next_seed_row(table@, m),
        r matches Ok(row) ==> row.len() == table.columns.len() && forall|c: int|
            0 <= c < row.len() ==> seeded_fits(table@.columns[c].data_type, #[trigger] row@[c]@),
        r matches Ok(row) ==> seed_row_available(table@, row_view(row@)),
{
    let mut ordinal = table.rows.len();
    let boolean_key = match table.primary_key_column() {
        Some(k) => {
            proof {
                crate::database::lemma_primary_key_index(table@.columns);
            }
            assert(table@.columns[k as int] == table.columns@[k as int]@);
            table.columns[k].data_type == DataType::Boolean
        },
        None => false,
    };
    let max_attempts: usize = if boolean_key {
        2
    } else {
        usize::MAX
    };
    assert(max_attempts as nat == seed_attempts(table@));
    let mut attempt: usize = 0;
    while attempt < max_attempts
        invariant
            attempt <= max_attempts,
            table.wf(),
            host_ready(host),
            forall|m: FloatModel| follows(host, m) ==> spec_next_seed_row(table@, m) == seed_row_from(
                table@,
                ordinal,
                (max_attempts - attempt) as nat,
                m,
            ),
        decreases max_attempts - attempt,
    {
        let row = seed_row(table, ordinal, host)?;
        if seed_row_is_available(table, &row) {
            return Ok(row);
        }
        ordinal = match ordinal.checked_add(1) {
            Some(next) => next,
            None => {
                return Err(BackendError::Execution(string_of("seed counter overflow")));
            },
        };
        attempt = attempt + 1;
    }
    Err(BackendError::InvalidPrimaryKey(string_of("no unused BOOLEAN primary key remains")))
}

// ---------------------------------------------------------------------------
// The executor.

/// `.seed` as a statement outcome: the count inserted, and the changed
/// database unless nothing was asked for.
pub open spec fn seed_outcome(db: SpecDatabase, name: Seq<char>, count: usize, fl: FloatModel) -> Result<
    (SpecResult, Option<SpecDatabase>),
    SpecBackendError,
> {
    match spec_seed(db, name, count, fl) {
        Err(e) => Err(e),
        Ok(d) => Ok((SpecResult::RowsInserted(count), d)),
    }
}

/// The message of a stored database that fails the check.
pub open spec fn invalid_database_message(path: Seq<char>, m: Seq<char>) -> Seq<char> {
    "database '"@ + path + "' is invalid: "@ + m
}

/// Runs statements against a valid database. Statements that change the
/// database produce a [`Snapshot`]; the caller stores it and then commits it.
pub struct Executor {
    database: Database,
}

impl View for Executor {
    type V = SpecDatabase;

    closed spec fn view(&self) -> SpecDatabase {
        self.database@
    }
}

impl Executor {
    #[verifier::type_invariant]
    spec fn valid(self) -> bool {
        self.database.wf()
    }

    /// An executor over a stored database (empty when nothing is stored),
    /// which must pass the check; `path` names it in the error.
    pub fn new(stored: Database, path: &str) -> (r: Result<Executor, BackendError>)
        ensures
            match database_error(stored@) {
                None => r matches Ok(e) && e@ == normalize_database(stored@),
                Some(m) => r matches Err(e) && e@ == SpecBackendError::InvalidSchema(invalid_database_message(path@, m)),
            },
    {
        let mut database = stored;
        match database.validate_and_rebuild() {
            Ok(()) => Ok(Executor { database }),
            Err(message) => {
                let mut m = string_of("database '");
                push_str(&mut m, path);
                push_str(&mut m, "' is invalid: ");
                push_str(&mut m, message.as_str());
                Err(BackendError::InvalidSchema(m))
            },
        }
    }

    /// The live database.
    pub fn database(&self) -> (d: &Database)
        ensures
            d@ == self@,
            d.wf(),
    {
        proof {
            use_type_invariant(self);
        }
        &self.database
    }

    /// Makes a stored snapshot the live database.
    pub fn commit(&mut self, snapshot: Snapshot)
        ensures
            final(self)@ == snapshot@,
    {
        proof {
            use_type_invariant(&snapshot);
        }
        let database = snapshot.database;
        self.database = database;
    }

    /// CREATE TABLE (see [`create_table`]).
    #[verifier::rlimit(30)]
    fn execute_create_table(&self, statement: CreateTableStatement) -> (r: Result<Outcome, BackendError>)
        ensures
            outcome_view(r) == (match create_table(self@, statement@) {
                Err(e) => Err(e),
                Ok(d) => Ok((SpecResult::TableCreated(statement@.name), Some(d))),
            }),
    {
        proof {
            use_type_invariant(self);
            lemma_find_table(self@, statement@.name, 0);
        }
        if find_table_name(&self.database, statement.name.as_str()).is_some() {
            return Err(BackendError::TableAlreadyExists(statement.name));
        }
        let ghost spec_statement = statement@;
        let CreateTableStatement { name, columns } = statement;
        assert(columns_view(columns@) == spec_statement.columns);
        let table = match Table::new(columns) {
            Ok(t) => t,
            Err(m) => {
                return Err(BackendError::InvalidSchema(m));
            },
        };
        let mut next = copy_database(&self.database);
        let ghost before = next.tables@;
        next.tables.push((name.clone(), table));
        proof {
            assert(next@ =~= self@.push((name@, table@)));
            assert forall|i: int| 0 <= i < next@.len() implies table_valid(#[trigger] next@[i].1) by {
                if i < self@.len() {
                    assert(next@[i] == self@[i]);
                }
            };
            assert forall|i: int, j: int| 0 <= i < j < next@.len() implies !eq_ignore_case(#[trigger] next@[i].0, #[trigger] next@[j].0) by {
                assert(next@[i] == self@[i]);
                if j < self@.len() {
                    assert(next@[j] == self@[j]);
                }
            };
        }
        Ok(Outcome { result: ExecutionResult::TableCreated { table: name }, changed: Some(Snapshot { database: next }) })
    }

    /// INSERT (see [`insert`]).
    #[verifier::rlimit(30)]
    fn execute_insert<F: Fn(FloatTask) -> FloatReply>(&self, statement: InsertStatement, host: &F) -> (r: Result<Outcome, BackendError>)
        requires
            host_ready(host),
        ensures
            forall|m: FloatModel| follows(host, m) ==> outcome_view(r) == (match insert(self@, statement@, m) {
                Err(e) => Err(e),
                Ok(d) => Ok((SpecResult::RowsInserted(1), Some(d))),
            }),
    {
        proof {
            use_type_invariant(self);
        }
        let k = match find_table_name(&self.database, statement.table.as_str()) {
            Some(k) => k,
            None => {
                return Err(BackendError::TableNotFound(statement.table.clone()));
            },
        };
        let name = &self.database.tables[k].0;
        let source = &self.database.tables[k].1;
        assert(self@[k as int] == (name@, source@));
        let row = build_row(source, name.as_str(), &statement, host)?;
        let mut table = copy_table(source);
        let ghost rv = row_view(row@);
        match insert_row(&mut table, row) {
            Ok(()) => {},
            Err(e) => {
                return Err(e);
            },
        }
        proof {
            lemma_insert_row_valid(source@, rv);
        }
        let mut next = copy_database(&self.database);
        next.tables.set(k, (name.clone(), table));
        proof {
            assert(next@ =~= self@.update(k as int, (name@, table@)));
            assert forall|i: int| 0 <= i < next@.len() implies table_valid(#[trigger] next@[i].1) by {
                if i != k {
                    assert(next@[i] == self@[i]);
                }
            };
            assert forall|i: int, j: int| 0 <= i < j < next@.len() implies !eq_ignore_case(#[trigger] next@[i].0, #[trigger] next@[j].0) by {
                assert(next@[i].0 == self@[i].0);
                assert(next@[j].0 == self@[j].0);
            };
        }
        Ok(Outcome { result: ExecutionResult::RowsInserted { count: 1 }, changed: Some(Snapshot { database: next }) })
    }

    /// SELECT (see [`select`]).
    #[verifier::rlimit(30)]
    fn execute_select<F: Fn(FloatTask) -> FloatReply>(&self, statement: SelectStatement, host: &F) -> (r: Result<Outcome, BackendError>)
        requires
            host_ready(host),
        ensures
            forall|m: FloatModel| follows(host, m) ==> outcome_view(r) == (match select(self@, statement@, m) {
                Err(e) => Err(e),
                Ok((columns, rows)) => Ok((SpecResult::Query(columns, rows), None::<SpecDatabase>)),
            }),
    {
        proof {
            use_type_invariant(self);
        }
        let k = match find_table_name(&self.database, statement.table.as_str()) {
            Some(k) => k,
            None => {
                return Err(BackendError::TableNotFound(statement.table.clone()));
            },
        };
        let name = &self.database.tables[k].0;
        let table = &self.database.tables[k].1;
        assert(self@[k as int] == (name@, table@));
        validate_select(&statement, table, name.as_str())?;
        let columns = projection_columns(&statement, table);
        let rows = select_table_rows(table, &statement, host)?;
        assert(columns@.map_values(|c: String| c@) == names_of(columns@));
        Ok(Outcome { result: ExecutionResult::Query(QueryResult { columns, rows }), changed: None })
    }

    /// Runs a statement (see [`execute_statement`]). The live database is
    /// not changed: a changed database comes back as a snapshot.
    pub fn execute<F: Fn(FloatTask) -> FloatReply>(&self, statement: Statement, host: &F) -> (r: Result<Outcome, BackendError>)
        requires
            host_ready(host),
        ensures
            forall|m: FloatModel| follows(host, m) ==> outcome_view(r) == execute_statement(self@, statement@, m),
    {
        match statement.kind {
            StatementKind::CreateTable(s) => self.execute_create_table(s),
            StatementKind::Insert(s) => self.execute_insert(s, host),
            StatementKind::Select(s) => self.execute_select(s, host),
        }
    }

    /// Adds `count` generated rows to a table (see [`spec_seed`]); nothing
    /// changes when `count` is 0.
    #[verifier::rlimit(30)]
    pub fn seed<F: Fn(FloatTask) -> FloatReply>(&self, requested_table_name: &str, count: usize, host: &F) -> (r: Result<Outcome, BackendError>)
        requires
            host_ready(host),
        ensures
            forall|m: FloatModel| follows(host, m) ==> outcome_view(r) == seed_outcome(self@, requested_table_name@, count, m),
    {
        proof {
            use_type_invariant(self);
        }
        let k = match find_table_name(&self.database, requested_table_name) {
            Some(k) => k,
            None => {
                return Err(BackendError::TableNotFound(string_of(requested_table_name)));
            },
        };
        if count == 0 {
            return Ok(Outcome { result: ExecutionResult::RowsInserted { count: 0 }, changed: None });
        }
        let name = &self.database.tables[k].0;
        assert(self@[k as int] == (name@, self.database.tables@[k as int].1@));
        let mut table = copy_table(&self.database.tables[k].1);
        let ghost t0 = table@;
        let mut i: usize = 0;
        while i < count
            invariant
                i <= count,
                table.wf(),
                table@.columns == t0.columns,
                t0 == self@[k as int].1,
                find_table(self@, requested_table_name@) == Some(k as int),
                count > 0,
                host_ready(host),
                forall|m: FloatModel| follows(host, m) ==> seed_rows(t0, i as nat, m) == Ok::<SpecTable, SpecBackendError>(table@),
            decreases count - i,
        {
            let ghost current = table@;
            let row = match next_seed_row(&table, host) {
                Ok(row) => row,
                Err(e) => {
                    proof {
                        assert forall|m: FloatModel| follows(host, m) implies seed_rows(t0, count as nat, m) == Err::<
                            SpecTable,
                            SpecBackendError,
                        >(e@) by {
                            assert(seed_rows(t0, i as nat, m) == Ok::<SpecTable, SpecBackendError>(current));
                            assert(spec_next_seed_row(current, m) == Err::<Seq<SpecValue>, SpecBackendError>(e@));
                            assert(seed_rows(t0, (i + 1) as nat, m) == Err::<SpecTable, SpecBackendError>(e@));
                            lemma_seed_rows_prefix_error(t0, (i + 1) as nat, count as nat, m);
                        };
                    }
                    return Err(e);
                },
            };
            let ghost before = table@;
            let ghost rv = row_view(row@);
            proof {
                assert forall|c: int| 0 <= c < before.columns.len() implies crate::database::stored_value_error(
                    before.columns[c],
                    #[trigger] rv[c],
                ) is None by {
                    assert(rv[c] == row@[c]@);
                    assert(seeded_fits(before.columns[c].data_type, row@[c]@));
                };
            }
            match insert_row(&mut table, row) {
                Ok(()) => {},
                Err(e) => {
                    proof {
                        assert forall|m: FloatModel| follows(host, m) implies seed_rows(t0, count as nat, m) == Err::<
                            SpecTable,
                            SpecBackendError,
                        >(e@) by {
                            assert(seed_rows(t0, i as nat, m) == Ok::<SpecTable, SpecBackendError>(current));
                            assert(spec_next_seed_row(current, m) == Ok::<Seq<SpecValue>, SpecBackendError>(rv));
                            assert(spec_insert_row(current, rv) == Err::<SpecTable, SpecBackendError>(e@));
                            assert(seed_rows(t0, (i + 1) as nat, m) == Err::<SpecTable, SpecBackendError>(e@));
                            lemma_seed_rows_prefix_error(t0, (i + 1) as nat, count as nat, m);
                        };
                    }
                    return Err(e);
                },
            }
            proof {
                lemma_insert_row_valid(before, rv);
            }
            i = i + 1;
        }
        let mut next = copy_database(&self.database);
        next.tables.set(k, (name.clone(), table));
        proof {
            assert(next@ =~= self@.update(k as int, (name@, table@)));
            assert forall|x: int| 0 <= x < next@.len() implies table_valid(#[trigger] next@[x].1) by {
                if x != k {
                    assert(next@[x] == self@[x]);
                }
            };
            assert forall|x: int, y: int| 0 <= x < y < next@.len() implies !eq_ignore_case(#[trigger] next@[x].0, #[trigger] next@[y].0) by {
                assert(next@[x].0 == self@[x].0);
                assert(next@[y].0 == self@[y].0);
            };
        }
        Ok(Outcome { result: ExecutionResult::RowsInserted { count }, changed: Some(Snapshot { database: next }) })
    }
}

/// An error after the first `n1` generated rows is the seeding's error.
proof fn lemma_seed_rows_prefix_error(t: SpecTable, n1: nat, n2: nat, fl: FloatModel)
    requires
        n1 <= n2,
        seed_rows(t, n1, fl) is Err,
    ensures
        seed_rows(t, n2, fl) == seed_rows(t, n1, fl),
    decreases n2 - n1,
{
    if n2 > n1 {
        lemma_seed_rows_prefix_error(t, n1, (n2 - 1) as nat, fl);
    }
}

// ---------------------------------------------------------------------------
// SQL text.

/// The tokens the parser reads: the lexer's, ending in `Eof`.
pub open spec fn prepared_tokens(ts: Seq<SpecSpanned>) -> Seq<SpecSpanned> {
    if well_formed_tokens(ts) {
        ts
    } else {
        let end = if ts.len() > 0 {
            ts.last().span.end
        } else {
            0
        };
        ts.push(SpecSpanned { token: SpecToken::Eof, span: Span { start: end, end } })
    }
}

/// The statement a SQL text holds, or why it does not lex or parse.
pub open spec fn sql_statement(sql: Seq<char>, fl: FloatModel) -> Result<SpecStatement, SpecBackendError> {
    match spec_tokenize(sql, fl) {
        Err(e) => Err(SpecBackendError::Lex(e)),
        Ok(ts) => match parse_statement(prepared_tokens(ts), 0, fl) {
            Err(e) => Err(SpecBackendError::Parse(e)),
            Ok((statement, _)) => Ok(statement),
        },
    }
}

/// A SQL text run against a database: lexed, parsed, then executed.
pub open spec fn run_sql(db: SpecDatabase, sql: Seq<char>, fl: FloatModel) -> Result<(SpecResult, Option<SpecDatabase>), SpecBackendError> {
    match sql_statement(sql, fl) {
        Err(e) => Err(e),
        Ok(statement) => execute_statement(db, statement, fl),
    }
}

impl Executor {
    /// Lexes, parses and runs a SQL text (see [`run_sql`]). The text's UTF-8
    /// length must fit in a `usize`.
    pub fn execute_sql<F: Fn(FloatTask) -> FloatReply>(&self, sql: &str, host: &F) -> (r: Result<Outcome, BackendError>)
        requires
            host_ready(host),
            fits_in_memory(sql@),
        ensures
            forall|m: FloatModel| follows(host, m) ==> outcome_view(r) == run_sql(self@, sql@, m),
    {
        let lexer = Lexer::new(sql);
        let tokens = match lexer.tokenize(host) {
            Ok(tokens) => tokens,
            Err(e) => {
                return Err(BackendError::from_lex(e));
            },
        };
        let mut parser = Parser::new(tokens);
        let statement = match parser.parse(host) {
            Ok(statement) => statement,
            Err(e) => {
                return Err(BackendError::from_parse(e));
            },
        };
        self.execute(statement, host)
    }
}

} // verus!
