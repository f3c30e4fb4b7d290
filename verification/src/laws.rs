//! Properties of the engine as a whole: what every statement keeps, and
//! what one statement gives back of another.

use vstd::prelude::*;
use crate::database::{
    database_valid, key_of, lemma_primary_key_index, lemma_table_error_none, primary_key_index, stored_value_error,
    table_error, table_valid, type_matches, row_fits, SpecDatabase, SpecTable,
};
use crate::executor::{
    check_row_from, check_value, checked_row, column_targets, resolve_columns, create_table, execute_statement, fill_row, find_table,
    insert, lemma_find_table, lemma_insert_row_valid, seed_row_available, seed_row_from, seed_rows,
    seed_values, seeded_fits, spec_build_row, spec_insert_row, spec_next_seed_row, spec_seed, spec_seed_value,
    SpecResult,
};
use crate::expr::{BinaryOp, SpecExpr, SpecExprKind, SpecValue, UnaryOp};
use crate::float::{is_finite, lemma_negated_finite};
use crate::lexer::FloatModel;
use crate::statement::{SpecColumn, SpecCreateTable, SpecInsert, SpecStatement, SpecStatementKind};
use crate::evaluation::{
    binary_type, eval_binary, eval_unary, infer_type, int_to_float, numeric, type_of_value, ExpressionType,
};
use crate::evaluation::{eval, find_column, lemma_find_column, lemma_text_compare_equal, lookup, SpecScope};
use crate::database::SpecKey;
use crate::error::SpecBackendError;
use crate::executor::{
    equality_with_literal, find_table_from, key_present, row_with_key, scan_rows, select, select_row, select_rows,
    spec_project_row, spec_projection_columns, spec_row_matches, check_items, check_select, spec_primary_key_lookup,
};
use crate::statement::{DataType, SpecSelect, SpecSelectItem};
use crate::text::{
    byte_offset, char_index_of, eq_ignore_case, is_char_offset, is_white_space, lemma_char_index_unique,
    lemma_eq_ignore_case, spec_is_identifier_start,
};
use crate::lexer::{
    fits_in_memory, ident_end, lemma_byte_offset_mono, lemma_ident_end, lemma_number_end, lemma_string_body, lex_from,
    number_end, number_token, off, punctuation, spanned, spec_tokenize, starts_number, string_body, word_token,
};
use crate::span::Span;
use crate::token::{SpecSpanned, SpecToken};

verus! {

// ---------------------------------------------------------------------------
// Every statement keeps the database valid.

proof fn lemma_create_table_valid(db: SpecDatabase, s: SpecCreateTable)
    requires
        database_valid(db),
        create_table(db, s) is Ok,
    ensures
        database_valid(create_table(db, s)->Ok_0),
{
    let d = create_table(db, s)->Ok_0;
    lemma_find_table(db, s.name, 0);
    lemma_table_error_none(SpecTable { columns: s.columns, rows: Seq::empty() });
    assert forall|i: int| 0 <= i < d.len() implies table_valid(#[trigger] d[i].1) by {
        if i < db.len() {
            assert(d[i] == db[i]);
        }
    };
    assert forall|i: int, j: int| 0 <= i < j < d.len() implies !crate::text::eq_ignore_case(#[trigger] d[i].0, #[trigger] d[j].0) by {
        assert(d[i] == db[i]);
        if j < db.len() {
            assert(d[j] == db[j]);
        }
    };
}

#[verifier::rlimit(30)]
proof fn lemma_fill_row_len(
    cols: Seq<SpecColumn>,
    values: Seq<SpecExpr>,
    targets: Seq<int>,
    j: int,
    row: Seq<SpecValue>,
    fl: FloatModel,
)
    requires
        fill_row(cols, values, targets, j, row, fl) is Ok,
        forall|x: int| 0 <= x < values.len() ==> 0 <= #[trigger] targets[x] < row.len(),
    ensures
        (fill_row(cols, values, targets, j, row, fl)->Ok_0).len() == row.len(),
    decreases values.len() - j,
{
    if 0 <= j < values.len() {
        match crate::evaluation::eval(values[j], SpecScope::Constant, fl) {
            Err(_) => {},
            Ok(v) => match crate::executor::coerce(cols[targets[j]], v, fl) {
                Err(_) => {},
                Ok(c) => {
                    lemma_fill_row_len(cols, values, targets, j + 1, row.update(targets[j], c), fl);
                },
            },
        }
    }
}

proof fn lemma_check_row_fits(cols: Seq<SpecColumn>, row: Seq<SpecValue>, c: int)
    requires
        0 <= c <= cols.len(),
        check_row_from(cols, row, c) is Ok,
    ensures
        forall|x: int| c <= x < cols.len() ==> stored_value_error(cols[x], #[trigger] row[x]) is None,
    decreases cols.len() - c,
{
    if c < cols.len() {
        lemma_check_row_fits(cols, row, c + 1);
    }
}

proof fn lemma_resolve_columns(cols: Seq<SpecColumn>, table_name: Seq<char>, requested: Seq<Seq<char>>, i: int, seen: Seq<int>)
    requires
        0 <= i <= requested.len(),
        forall|x: int| 0 <= x < seen.len() ==> 0 <= #[trigger] seen[x] < cols.len(),
        resolve_columns(cols, table_name, requested, i, seen) is Ok,
    ensures
        (resolve_columns(cols, table_name, requested, i, seen)->Ok_0).len() == seen.len() + requested.len() - i,
        forall|x: int|
            0 <= x < (resolve_columns(cols, table_name, requested, i, seen)->Ok_0).len() ==> 0 <= #[trigger] (resolve_columns(
                cols,
                table_name,
                requested,
                i,
                seen,
            )->Ok_0)[x] < cols.len(),
    decreases requested.len() - i,
{
    if i < requested.len() {
        crate::evaluation::lemma_find_column(cols, requested[i], 0);
        let k = crate::evaluation::find_column(cols, requested[i])->Some_0;
        lemma_resolve_columns(cols, table_name, requested, i + 1, seen.push(k));
    }
}

/// The columns an INSERT's values go to are columns of the table, one per value.
proof fn lemma_column_targets(cols: Seq<SpecColumn>, table_name: Seq<char>, s: SpecInsert)
    requires
        column_targets(cols, table_name, s) is Ok,
    ensures
        (column_targets(cols, table_name, s)->Ok_0).len() == s.values.len(),
        forall|x: int|
            0 <= x < s.values.len() ==> 0 <= #[trigger] (column_targets(cols, table_name, s)->Ok_0)[x] < cols.len(),
{
    if s.columns.len() != 0 {
        lemma_resolve_columns(cols, table_name, s.columns, 0, Seq::empty());
    }
}

/// A row an INSERT builds fits the table's schema.
pub proof fn lemma_build_row_fits(t: SpecTable, name: Seq<char>, s: SpecInsert, fl: FloatModel)
    requires
        spec_build_row(t, name, s, fl) is Ok,
    ensures
        row_fits(t.columns, spec_build_row(t, name, s, fl)->Ok_0),
{
    let targets = column_targets(t.columns, name, s)->Ok_0;
    let initial = Seq::new(t.columns.len(), |i: int| SpecValue::Null);
    lemma_column_targets(t.columns, name, s);
    lemma_fill_row_len(t.columns, s.values, targets, 0, initial, fl);
    let row = fill_row(t.columns, s.values, targets, 0, initial, fl)->Ok_0;
    lemma_check_row_fits(t.columns, row, 0);
}

proof fn lemma_insert_valid(db: SpecDatabase, s: SpecInsert, fl: FloatModel)
    requires
        database_valid(db),
        insert(db, s, fl) is Ok,
    ensures
        database_valid(insert(db, s, fl)->Ok_0),
{
    let k = find_table(db, s.table)->Some_0;
    lemma_find_table(db, s.table, 0);
    let row = spec_build_row(db[k].1, db[k].0, s, fl)->Ok_0;
    lemma_build_row_fits(db[k].1, db[k].0, s, fl);
    lemma_insert_row_valid(db[k].1, row);
    let d = insert(db, s, fl)->Ok_0;
    assert forall|i: int| 0 <= i < d.len() implies table_valid(#[trigger] d[i].1) by {
        if i != k {
            assert(d[i] == db[i]);
        }
    };
    assert forall|i: int, j: int| 0 <= i < j < d.len() implies !crate::text::eq_ignore_case(#[trigger] d[i].0, #[trigger] d[j].0) by {
        assert(d[i].0 == db[i].0);
        assert(d[j].0 == db[j].0);
    };
}

proof fn lemma_seed_values_fit(cols: Seq<SpecColumn>, n: int, ordinal: usize, fl: FloatModel)
    requires
        0 <= n <= cols.len(),
        seed_values(cols, n, ordinal, fl) is Ok,
    ensures
        (seed_values(cols, n, ordinal, fl)->Ok_0).len() == n,
        forall|c: int| 0 <= c < n ==> seeded_fits(cols[c].data_type, #[trigger] (seed_values(cols, n, ordinal, fl)->Ok_0)[c]),
    decreases n,
{
    if n > 0 {
        lemma_seed_values_fit(cols, n - 1, ordinal, fl);
        let front = seed_values(cols, n - 1, ordinal, fl)->Ok_0;
        let v = spec_seed_value(cols[n - 1].data_type, ordinal, fl)->Ok_0;
        let row = seed_values(cols, n, ordinal, fl)->Ok_0;
        assert(row == front.push(v));
        assert forall|c: int| 0 <= c < n implies seeded_fits(cols[c].data_type, #[trigger] row[c]) by {
            if c < n - 1 {
                assert(row[c] == front[c]);
            }
        };
    }
}

proof fn lemma_seed_row_from_fits(t: SpecTable, ordinal: usize, attempts: nat, fl: FloatModel)
    requires
        seed_row_from(t, ordinal, attempts, fl) is Ok,
    ensures
        row_fits(t.columns, seed_row_from(t, ordinal, attempts, fl)->Ok_0),
        seed_row_available(t, seed_row_from(t, ordinal, attempts, fl)->Ok_0),
    decreases attempts,
{
    if attempts > 0 {
        lemma_seed_values_fit(t.columns, t.columns.len() as int, ordinal, fl);
        let row = seed_values(t.columns, t.columns.len() as int, ordinal, fl)->Ok_0;
        if !seed_row_available(t, row) && ordinal != usize::MAX {
            lemma_seed_row_from_fits(t, (ordinal + 1) as usize, (attempts - 1) as nat, fl);
        }
    }
}

/// Generating `n` rows keeps a valid table valid, keeps its schema and its
/// rows, and appends `n` rows.
pub proof fn lemma_seed_rows_valid(t: SpecTable, n: nat, fl: FloatModel)
    requires
        table_valid(t),
        seed_rows(t, n, fl) is Ok,
    ensures
        table_valid(seed_rows(t, n, fl)->Ok_0),
        (seed_rows(t, n, fl)->Ok_0).columns == t.columns,
        (seed_rows(t, n, fl)->Ok_0).rows.len() == t.rows.len() + n,
        (seed_rows(t, n, fl)->Ok_0).rows.take(t.rows.len() as int) == t.rows,
    decreases n,
{
    if n == 0 {
        assert(t.rows.take(t.rows.len() as int) =~= t.rows);
    } else {
        lemma_seed_rows_valid(t, (n - 1) as nat, fl);
        let t1 = seed_rows(t, (n - 1) as nat, fl)->Ok_0;
        let row = spec_next_seed_row(t1, fl)->Ok_0;
        lemma_seed_row_from_fits(t1, t1.rows.len() as usize, crate::executor::seed_attempts(t1), fl);
        lemma_insert_row_valid(t1, row);
        let t2 = seed_rows(t, n, fl)->Ok_0;
        assert(t2.rows == t1.rows.push(row));
        assert(t2.rows.take(t.rows.len() as int) =~= t1.rows.take(t.rows.len() as int));
    }
}

proof fn lemma_seed_valid(db: SpecDatabase, name: Seq<char>, count: usize, fl: FloatModel)
    requires
        database_valid(db),
        spec_seed(db, name, count, fl) matches Ok(Some(_)),
    ensures
        database_valid(spec_seed(db, name, count, fl)->Ok_0->Some_0),
{
    let k = find_table(db, name)->Some_0;
    lemma_find_table(db, name, 0);
    lemma_seed_rows_valid(db[k].1, count as nat, fl);
    let d = spec_seed(db, name, count, fl)->Ok_0->Some_0;
    assert forall|i: int| 0 <= i < d.len() implies table_valid(#[trigger] d[i].1) by {
        if i != k {
            assert(d[i] == db[i]);
        }
    };
    assert forall|i: int, j: int| 0 <= i < j < d.len() implies !crate::text::eq_ignore_case(#[trigger] d[i].0, #[trigger] d[j].0) by {
        assert(d[i].0 == db[i].0);
        assert(d[j].0 == db[j].0);
    };
}

/// Every statement that changes a valid database leaves it valid: table
/// names stay distinct without regard to case, and every table keeps a
/// valid schema, rows that fit it, and distinct primary keys.
pub proof fn lemma_statement_keeps_database_valid(db: SpecDatabase, s: SpecStatement, fl: FloatModel)
    requires
        database_valid(db),
        execute_statement(db, s, fl) matches Ok((_, Some(_))),
    ensures
        database_valid(execute_statement(db, s, fl)->Ok_0.1->Some_0),
{
    match s.kind {
        SpecStatementKind::CreateTable(c) => lemma_create_table_valid(db, c),
        SpecStatementKind::Insert(i) => lemma_insert_valid(db, i, fl),
        SpecStatementKind::Select(_) => {},
    }
}

/// `.seed` adds exactly `count` rows to the end of the named table: the
/// rows already there stay, in order, and no other table changes.
pub proof fn lemma_seed_appends_rows(db: SpecDatabase, name: Seq<char>, count: usize, fl: FloatModel)
    requires
        database_valid(db),
        spec_seed(db, name, count, fl) matches Ok(Some(_)),
    ensures
        ({
            let k = find_table(db, name)->Some_0;
            let d = spec_seed(db, name, count, fl)->Ok_0->Some_0;
            &&& d.len() == db.len()
            &&& forall|i: int| 0 <= i < db.len() && i != k ==> #[trigger] d[i] == db[i]
            &&& d[k].0 == db[k].0
            &&& d[k].1.columns == db[k].1.columns
            &&& d[k].1.rows.len() == db[k].1.rows.len() + count
            &&& d[k].1.rows.take(db[k].1.rows.len() as int) == db[k].1.rows
        }),
{
    let k = find_table(db, name)->Some_0;
    lemma_find_table(db, name, 0);
    lemma_seed_rows_valid(db[k].1, count as nat, fl);
}

/// What each statement does to the database: a SELECT changes nothing,
/// CREATE TABLE adds one empty table at the end, and INSERT appends one row
/// to one table and leaves every other table as it was. (A statement that
/// fails gives no database at all, so the live one stays as it is.)
pub proof fn lemma_statement_effect(db: SpecDatabase, s: SpecStatement, fl: FloatModel)
    requires
        execute_statement(db, s, fl) is Ok,
    ensures
        match execute_statement(db, s, fl)->Ok_0 {
            (SpecResult::Query(_, _), d) => d is None,
            (SpecResult::TableCreated(n), Some(d)) => d.len() == db.len() + 1 && d.take(db.len() as int) == db && d.last().0 == n
                && d.last().1.rows.len() == 0,
            (SpecResult::RowsInserted(count), Some(d)) => count == 1 && d.len() == db.len() && exists|k: int|
                0 <= k < db.len() && d[k].0 == db[k].0 && d[k].1.columns == db[k].1.columns && d[k].1.rows.len() == db[k].1.rows.len()
                    + 1 && d[k].1.rows.drop_last() == db[k].1.rows && forall|i: int|
                    0 <= i < db.len() && i != k ==> #[trigger] d[i] == db[i],
            _ => false,
        },
{
    match s.kind {
        SpecStatementKind::CreateTable(c) => {
            let d = create_table(db, c)->Ok_0;
            assert(d.take(db.len() as int) =~= db);
        },
        SpecStatementKind::Insert(ins) => {
            let k = find_table(db, ins.table)->Some_0;
            lemma_find_table(db, ins.table, 0);
            let d = insert(db, ins, fl)->Ok_0;
            assert(d[k].1.rows.drop_last() =~= db[k].1.rows);
            assert(d[k].0 == db[k].0);
        },
        SpecStatementKind::Select(_) => {},
    }
}

/// Seeding a valid database leaves it valid.
pub proof fn lemma_seed_keeps_database_valid(db: SpecDatabase, name: Seq<char>, count: usize, fl: FloatModel)
    requires
        database_valid(db),
        spec_seed(db, name, count, fl) matches Ok(Some(_)),
    ensures
        database_valid(spec_seed(db, name, count, fl)->Ok_0->Some_0),
{
    lemma_seed_valid(db, name, count, fl);
}

// ---------------------------------------------------------------------------
// The primary-key shortcut returns what a scan returns.

/// On a valid table, `key = literal` (either way round, with a literal of the
/// key's exact type) holds of a row exactly when the row's key is the literal.
#[verifier::rlimit(30)]
proof fn lemma_key_equality_matches(
    t: SpecTable,
    w: SpecExpr,
    k: int,
    name: Seq<char>,
    constant: SpecExpr,
    v: SpecValue,
    r: int,
    fl: FloatModel,
)
    requires
        table_valid(t),
        equality_with_literal(Some(w)) == Some((name, constant)),
        primary_key_index(t.columns) == Some(k),
        eq_ignore_case(t.columns[k].name, name),
        eval(constant, SpecScope::Constant, fl) == Ok::<SpecValue, SpecBackendError>(v),
        t.columns[k].data_type != DataType::Float,
        type_matches(t.columns[k].data_type, v),
        0 <= r < t.rows.len(),
    ensures
        spec_row_matches(t.rows[r], t.columns, Some(w), fl) == Ok::<bool, SpecBackendError>(key_of(t.rows[r][k]) == key_of(v)),
{
    let cols = t.columns;
    let row = t.rows[r];
    lemma_primary_key_index(cols);
    lemma_find_column(cols, name, 0);
    match find_column(cols, name) {
        Some(j) => {
            if j < k {
                lemma_eq_ignore_case(cols[k].name, name, cols[j].name);
                lemma_eq_ignore_case(name, cols[j].name, name);
                lemma_eq_ignore_case(cols[j].name, name, cols[k].name);
                lemma_eq_ignore_case(name, cols[k].name, name);
            }
        },
        None => {},
    }
    assert(find_column(cols, name) == Some(k));
    assert(row.len() == cols.len());
    assert(stored_value_error(cols[k], row[k]) is None);
    let x = row[k];
    assert(type_matches(cols[k].data_type, x));
    let scope = SpecScope::Row { values: row, columns: cols };
    assert(lookup(scope, name) == Ok::<SpecValue, SpecBackendError>(x));
    reveal_with_fuel(eval, 2);
    match (x, v) {
        (SpecValue::String(a), SpecValue::String(b)) => {
            lemma_text_compare_equal(a, b);
            lemma_text_compare_equal(b, a);
        },
        _ => {},
    }
}

/// The rows a scan finds when exactly the row holding `key` (if any) passes
/// the WHERE clause.
#[verifier::rlimit(30)]
proof fn lemma_scan_single_match(s: SpecSelect, t: SpecTable, k: int, key: SpecKey, n: int, fl: FloatModel)
    requires
        table_valid(t),
        primary_key_index(t.columns) == Some(k),
        0 <= n <= t.rows.len(),
        forall|r: int|
            0 <= r < t.rows.len() ==> #[trigger] spec_row_matches(t.rows[r], t.columns, s.where_clause, fl) == Ok::<
                bool,
                SpecBackendError,
            >(key_of(t.rows[r][k]) == Some(key)),
    ensures
        scan_rows(s, t.rows, t.columns, n, fl) == (match row_with_key(t.rows, k, key) {
            Some(c) => if c < n {
                select_row(s, t.rows[c], t.columns, fl)
            } else {
                Ok(Seq::empty())
            },
            None => Ok(Seq::empty()),
        }),
    decreases n,
{
    if n > 0 {
        lemma_scan_single_match(s, t, k, key, n - 1, fl);
        let row = t.rows[n - 1];
        assert(spec_row_matches(row, t.columns, s.where_clause, fl) == Ok::<bool, SpecBackendError>(key_of(row[k]) == Some(key)));
        match row_with_key(t.rows, k, key) {
            Some(c) => {
                assert(key_of(t.rows[c][k]) == Some(key));
                if key_of(row[k]) == Some(key) && c != n - 1 {
                    if c < n - 1 {
                        assert(key_of(t.rows[c][k]) != key_of(t.rows[n - 1][k]));
                    } else {
                        assert(key_of(t.rows[n - 1][k]) != key_of(t.rows[c][k]));
                    }
                }
                if c == n - 1 {
                    match select_row(s, row, t.columns, fl) {
                        Ok(p) => {
                            assert(Seq::<Seq<SpecValue>>::empty() + p =~= p);
                        },
                        Err(_) => {},
                    }
                } else if c < n - 1 {
                    match select_row(s, t.rows[c], t.columns, fl) {
                        Ok(p) => {
                            assert(p + Seq::<Seq<SpecValue>>::empty() =~= p);
                        },
                        Err(_) => {},
                    }
                } else {
                    assert(Seq::<Seq<SpecValue>>::empty() + Seq::<Seq<SpecValue>>::empty() =~= Seq::<Seq<SpecValue>>::empty());
                }
            },
            None => {
                assert(!key_present(t.rows, k, key));
                assert(key_of(row[k]) != Some(key));
                assert(Seq::<Seq<SpecValue>>::empty() + Seq::<Seq<SpecValue>>::empty() =~= Seq::<Seq<SpecValue>>::empty());
            },
        }
    }
}

/// The primary-key lookup picks a candidate only for `key column = literal`
/// (either way round) with a literal of exactly the key's type, and the
/// candidate is exactly the row that passes the clause: on a valid table the
/// clause evaluates on every row, true on the candidate and false on every
/// other row.
pub proof fn lemma_key_lookup_candidate(t: SpecTable, w: Option<SpecExpr>, fl: FloatModel)
    requires
        table_valid(t),
        spec_primary_key_lookup(t, w, fl) matches Ok(Some(_)),
    ensures
        ({
            let (name, constant) = equality_with_literal(w)->Some_0;
            let k = primary_key_index(t.columns)->Some_0;
            &&& equality_with_literal(w) is Some
            &&& primary_key_index(t.columns) is Some
            &&& eq_ignore_case(t.columns[k].name, name)
            &&& eval(constant, SpecScope::Constant, fl) is Ok
            &&& t.columns[k].data_type != DataType::Float
            &&& type_matches(t.columns[k].data_type, eval(constant, SpecScope::Constant, fl)->Ok_0)
        }),
        forall|r: int|
            0 <= r < t.rows.len() ==> #[trigger] spec_row_matches(t.rows[r], t.columns, w, fl) == Ok::<bool, SpecBackendError>(
                spec_primary_key_lookup(t, w, fl)->Ok_0->Some_0 == Some(r),
            ),
{
    let (name, constant) = equality_with_literal(w)->Some_0;
    let k = primary_key_index(t.columns)->Some_0;
    lemma_primary_key_index(t.columns);
    let v = eval(constant, SpecScope::Constant, fl)->Ok_0;
    let key = key_of(v)->Some_0;
    let c = row_with_key(t.rows, k, key);
    assert(spec_primary_key_lookup(t, w, fl)->Ok_0->Some_0 == c);
    assert forall|r: int| 0 <= r < t.rows.len() implies #[trigger] spec_row_matches(t.rows[r], t.columns, w, fl) == Ok::<
        bool,
        SpecBackendError,
    >(c == Some(r)) by {
        lemma_key_equality_matches(t, w->Some_0, k, name, constant, v, r, fl);
        if key_of(t.rows[r][k]) == Some(key) {
            assert(key_present(t.rows, k, key));
            let x = c->Some_0;
            if x != r {
                if x < r {
                    assert(key_of(t.rows[x][k]) != key_of(t.rows[r][k]));
                } else {
                    assert(key_of(t.rows[r][k]) != key_of(t.rows[x][k]));
                }
            }
        } else if c == Some(r) {
            assert(key_present(t.rows, k, key));
        }
    };
}

/// The primary-key index is a shortcut only: on a valid table, a SELECT
/// returns exactly what a scan of every row, in order, returns.
#[verifier::rlimit(30)]
pub proof fn lemma_key_lookup_agrees_with_scan(s: SpecSelect, t: SpecTable, fl: FloatModel)
    requires
        table_valid(t),
    ensures
        select_rows(s, t, fl) == scan_rows(s, t.rows, t.columns, t.rows.len() as int, fl),
{
    match equality_with_literal(s.where_clause) {
        None => {},
        Some((name, constant)) => match primary_key_index(t.columns) {
            None => {},
            Some(k) => {
                lemma_primary_key_index(t.columns);
                if eq_ignore_case(t.columns[k].name, name) {
                    match eval(constant, SpecScope::Constant, fl) {
                        Err(_) => {
                            reveal_with_fuel(eval, 2);
                            assert(false);
                        },
                        Ok(v) => {
                            if t.columns[k].data_type != DataType::Float && type_matches(t.columns[k].data_type, v) {
                                let key = key_of(v)->Some_0;
                                let w = s.where_clause->Some_0;
                                assert forall|r: int| 0 <= r < t.rows.len() implies #[trigger] spec_row_matches(
                                    t.rows[r],
                                    t.columns,
                                    s.where_clause,
                                    fl,
                                ) == Ok::<bool, SpecBackendError>(key_of(t.rows[r][k]) == Some(key)) by {
                                    lemma_key_equality_matches(t, w, k, name, constant, v, r, fl);
                                };
                                lemma_scan_single_match(s, t, k, key, t.rows.len() as int, fl);
                                match row_with_key(t.rows, k, key) {
                                    Some(c) => {
                                        assert(key_present(t.rows, k, key));
                                    },
                                    None => {},
                                }
                            }
                        },
                    }
                }
            },
        },
    }
}

// ---------------------------------------------------------------------------
// What a write stores, a read gives back.

/// The column names of a schema.
pub open spec fn column_names(cols: Seq<SpecColumn>) -> Seq<Seq<char>> {
    cols.map_values(|c: SpecColumn| c.name)
}

/// `SELECT * FROM name`.
pub open spec fn select_all(name: Seq<char>, q: SpecSelect) -> bool {
    &&& q.table == name
    &&& q.columns == seq![SpecSelectItem::Wildcard]
    &&& q.where_clause is None
}

proof fn lemma_scan_all(q: SpecSelect, rows: Seq<Seq<SpecValue>>, cols: Seq<SpecColumn>, n: int, fl: FloatModel)
    requires
        q.columns == seq![SpecSelectItem::Wildcard],
        q.where_clause is None,
        0 <= n <= rows.len(),
    ensures
        scan_rows(q, rows, cols, n, fl) == Ok::<Seq<Seq<SpecValue>>, SpecBackendError>(rows.take(n)),
    decreases n,
{
    if n == 0 {
        assert(rows.take(0) =~= Seq::<Seq<SpecValue>>::empty());
    } else {
        lemma_scan_all(q, rows, cols, n - 1, fl);
        let row = rows[n - 1];
        assert(q.columns.drop_last() =~= Seq::<SpecSelectItem>::empty());
        assert(q.columns.last() == SpecSelectItem::Wildcard);
        assert(spec_project_row(Seq::<SpecSelectItem>::empty(), row, cols, fl) == Ok::<Seq<SpecValue>, SpecBackendError>(
            Seq::empty(),
        ));
        assert(spec_project_row(q.columns, row, cols, fl) == Ok::<Seq<SpecValue>, SpecBackendError>(Seq::empty() + row));
        assert(Seq::<SpecValue>::empty() + row =~= row);
        assert(rows.take(n) =~= rows.take(n - 1) + seq![row]);
    }
}

/// `SELECT *` with no WHERE clause returns the table's column names and
/// every row, in the order the rows were inserted.
pub proof fn lemma_select_all_rows(db: SpecDatabase, q: SpecSelect, fl: FloatModel)
    requires
        find_table(db, q.table) is Some,
        select_all(q.table, q),
    ensures
        select(db, q, fl) == Ok::<(Seq<Seq<char>>, Seq<Seq<SpecValue>>), SpecBackendError>((
            column_names(db[find_table(db, q.table)->Some_0].1.columns),
            db[find_table(db, q.table)->Some_0].1.rows,
        )),
{
    let k = find_table(db, q.table)->Some_0;
    let t = db[k].1;
    assert(q.columns.drop_last() =~= Seq::<SpecSelectItem>::empty());
    assert(q.columns.last() == SpecSelectItem::Wildcard);
    assert(spec_projection_columns(Seq::<SpecSelectItem>::empty(), t.columns) == Seq::<Seq<char>>::empty());
    assert(spec_projection_columns(q.columns, t.columns) =~= column_names(t.columns));
    lemma_scan_all(q, t.rows, t.columns, t.rows.len() as int, fl);
    assert(t.rows.take(t.rows.len() as int) =~= t.rows);
    assert(check_items(q.columns, t.columns, db[k].0, 1) == Ok::<(), SpecBackendError>(()));
    assert(check_items(q.columns, t.columns, db[k].0, 0) == Ok::<(), SpecBackendError>(()));
    assert(check_select(q, t.columns, db[k].0) == Ok::<(), SpecBackendError>(()));
    assert(spec_primary_key_lookup(t, q.where_clause, fl) == Ok::<Option<Option<int>>, SpecBackendError>(None));
    assert(select_rows(q, t, fl) == Ok::<Seq<Seq<SpecValue>>, SpecBackendError>(t.rows));
}

proof fn lemma_find_table_renamed(db1: SpecDatabase, db2: SpecDatabase, a: Seq<char>, b: Seq<char>, i: int)
    requires
        db1.len() == db2.len(),
        forall|x: int| 0 <= x < db1.len() ==> (#[trigger] db1[x]).0 == db2[x].0,
        eq_ignore_case(a, b),
        0 <= i <= db1.len(),
    ensures
        find_table_from(db1, a, i) == find_table_from(db2, b, i),
    decreases db1.len() - i,
{
    if i < db1.len() {
        let n = db1[i].0;
        assert(n == db2[i].0);
        lemma_eq_ignore_case(n, a, b);
        lemma_eq_ignore_case(a, b, a);
        lemma_eq_ignore_case(b, a, b);
        lemma_eq_ignore_case(n, b, a);
        lemma_find_table_renamed(db1, db2, a, b, i + 1);
    }
}

/// Table names are looked up without regard to ASCII case.
pub proof fn lemma_table_lookup_ignores_case(db: SpecDatabase, a: Seq<char>, b: Seq<char>)
    requires
        eq_ignore_case(a, b),
    ensures
        find_table(db, a) == find_table(db, b),
{
    lemma_find_table_renamed(db, db, a, b, 0);
}

proof fn lemma_find_column_renamed(cols: Seq<SpecColumn>, a: Seq<char>, b: Seq<char>, i: int)
    requires
        eq_ignore_case(a, b),
        0 <= i <= cols.len(),
    ensures
        crate::evaluation::find_column_from(cols, a, i) == crate::evaluation::find_column_from(cols, b, i),
    decreases cols.len() - i,
{
    if i < cols.len() {
        let n = cols[i].name;
        lemma_eq_ignore_case(n, a, b);
        lemma_eq_ignore_case(a, b, a);
        lemma_eq_ignore_case(b, a, b);
        lemma_eq_ignore_case(n, b, a);
        lemma_find_column_renamed(cols, a, b, i + 1);
    }
}

/// Column names are looked up without regard to ASCII case.
pub proof fn lemma_column_lookup_ignores_case(cols: Seq<SpecColumn>, a: Seq<char>, b: Seq<char>)
    requires
        eq_ignore_case(a, b),
    ensures
        find_column(cols, a) == find_column(cols, b),
{
    lemma_find_column_renamed(cols, a, b, 0);
}

/// What an INSERT writes, `SELECT *` on the same table (named in any case)
/// reads back: the rows that were there, then the new row.
pub proof fn lemma_inserted_row_read_back(db: SpecDatabase, ins: SpecInsert, q: SpecSelect, fl: FloatModel)
    requires
        insert(db, ins, fl) is Ok,
        select_all(q.table, q),
        eq_ignore_case(q.table, ins.table),
    ensures
        ({
            let k = find_table(db, ins.table)->Some_0;
            select(insert(db, ins, fl)->Ok_0, q, fl) == Ok::<(Seq<Seq<char>>, Seq<Seq<SpecValue>>), SpecBackendError>((
                column_names(db[k].1.columns),
                db[k].1.rows.push(spec_build_row(db[k].1, db[k].0, ins, fl)->Ok_0),
            ))
        }),
{
    let k = find_table(db, ins.table)->Some_0;
    lemma_find_table(db, ins.table, 0);
    let d = insert(db, ins, fl)->Ok_0;
    assert forall|x: int| 0 <= x < d.len() implies (#[trigger] d[x]).0 == db[x].0 by {};
    lemma_eq_ignore_case(q.table, ins.table, q.table);
    lemma_find_table_renamed(d, db, q.table, ins.table, 0);
    lemma_select_all_rows(d, q, fl);
}

// ---------------------------------------------------------------------------
// Token spans.

/// Every token's span is a pair of character boundaries of the source, at or
/// after byte `byte_offset(cs, from)`, in order; an identifier's span covers
/// exactly its name; and the last token is `Eof`, empty, at the end.
pub open spec fn spans_on_boundaries(cs: Seq<char>, ts: Seq<SpecSpanned>, from: int) -> bool {
    &&& forall|x: int|
        0 <= x < ts.len() ==> {
            &&& byte_offset(cs, from) <= (#[trigger] ts[x]).span.start <= ts[x].span.end <= byte_offset(cs, cs.len() as int)
            &&& is_char_offset(cs, ts[x].span.start as int)
            &&& is_char_offset(cs, ts[x].span.end as int)
            &&& (ts[x].token matches SpecToken::Identifier(name) ==> name == cs.subrange(
                char_index_of(cs, ts[x].span.start as int),
                char_index_of(cs, ts[x].span.end as int),
            ))
        }
    &&& forall|x: int| 0 <= x < ts.len() - 1 ==> (#[trigger] ts[x]).span.end <= ts[x + 1].span.start
    &&& ts.len() > 0
    &&& ts.last() == spanned(SpecToken::Eof, cs, cs.len() as int, cs.len() as int)
}

proof fn lemma_off(cs: Seq<char>, a: int)
    requires
        fits_in_memory(cs),
        0 <= a <= cs.len(),
    ensures
        off(cs, a) == byte_offset(cs, a),
        is_char_offset(cs, off(cs, a) as int),
        char_index_of(cs, off(cs, a) as int) == a,
        byte_offset(cs, a) <= byte_offset(cs, cs.len() as int),
{
    lemma_byte_offset_mono(cs, a, cs.len() as int);
    lemma_char_index_unique(cs, a);
}

#[verifier::rlimit(30)]
proof fn lemma_cons_on_boundaries(cs: Seq<char>, t: SpecSpanned, a: int, b: int, rest: Seq<SpecSpanned>, i: int)
    requires
        fits_in_memory(cs),
        0 <= i <= a <= b <= cs.len(),
        t.span == (Span { start: off(cs, a), end: off(cs, b) }),
        t.token matches SpecToken::Identifier(name) ==> name == cs.subrange(a, b),
        spans_on_boundaries(cs, rest, b),
    ensures
        spans_on_boundaries(cs, seq![t] + rest, i),
{
    lemma_off(cs, a);
    lemma_off(cs, b);
    lemma_byte_offset_mono(cs, i, a);
    lemma_byte_offset_mono(cs, a, b);
    let ts = seq![t] + rest;
    assert(ts[0] == t);
    assert(ts.last() == rest.last());
    assert forall|x: int| 0 <= x < ts.len() implies {
        &&& byte_offset(cs, i) <= (#[trigger] ts[x]).span.start <= ts[x].span.end <= byte_offset(cs, cs.len() as int)
        &&& is_char_offset(cs, ts[x].span.start as int)
        &&& is_char_offset(cs, ts[x].span.end as int)
        &&& (ts[x].token matches SpecToken::Identifier(name) ==> name == cs.subrange(
            char_index_of(cs, ts[x].span.start as int),
            char_index_of(cs, ts[x].span.end as int),
        ))
    } by {
        if x > 0 {
            assert(ts[x] == rest[x - 1]);
        }
    };
    assert forall|x: int| 0 <= x < ts.len() - 1 implies (#[trigger] ts[x]).span.end <= ts[x + 1].span.start by {
        assert(ts[x + 1] == rest[x]);
        if x > 0 {
            assert(ts[x] == rest[x - 1]);
        }
    };
}

/// The spans of the tokens lexed from character `i` on (see [`spans_on_boundaries`]).
#[verifier::rlimit(30)]
proof fn lemma_lex_spans(cs: Seq<char>, i: int, fl: FloatModel)
    requires
        fits_in_memory(cs),
        0 <= i <= cs.len(),
        lex_from(cs, i, fl) is Ok,
    ensures
        spans_on_boundaries(cs, lex_from(cs, i, fl)->Ok_0, i),
    decreases cs.len() - i,
{
    let ts = lex_from(cs, i, fl)->Ok_0;
    if i >= cs.len() {
        lemma_off(cs, i);
        assert(ts[0].span.start == byte_offset(cs, i));
    } else if is_white_space(cs[i]) {
        lemma_lex_spans(cs, i + 1, fl);
        lemma_byte_offset_mono(cs, i, i + 1);
    } else if spec_is_identifier_start(cs[i]) {
        let j = ident_end(cs, i);
        lemma_ident_end(cs, i + 1);
        lemma_lex_spans(cs, j, fl);
        lemma_cons_on_boundaries(
            cs,
            spanned(word_token(cs.subrange(i, j)), cs, i, j),
            i,
            j,
            lex_from(cs, j, fl)->Ok_0,
            i,
        );
    } else if starts_number(cs, i) {
        lemma_number_end(cs, i);
        let e = number_end(cs, i)->Ok_0;
        let t = number_token(cs.subrange(i, e), fl)->Some_0;
        lemma_lex_spans(cs, e, fl);
        lemma_cons_on_boundaries(cs, spanned(t, cs, i, e), i, e, lex_from(cs, e, fl)->Ok_0, i);
    } else if cs[i] == '\'' {
        lemma_string_body(cs, i + 1, seq![]);
        let (v, e) = string_body(cs, i + 1, seq![])->Some_0;
        lemma_lex_spans(cs, e, fl);
        lemma_cons_on_boundaries(cs, spanned(SpecToken::String(v), cs, i, e), i, e, lex_from(cs, e, fl)->Ok_0, i);
    } else {
        let (t, w) = punctuation(cs, i)->Some_0;
        lemma_lex_spans(cs, i + w, fl);
        lemma_cons_on_boundaries(cs, spanned(t, cs, i, i + w), i, i + w, lex_from(cs, i + w, fl)->Ok_0, i);
    }
}

/// The lexer is UTF-8 safe: every token's span is a pair of character
/// boundaries of the source, the spans come in order, an identifier's span
/// holds exactly its name, and the last token is an empty `Eof` at the end.
pub proof fn lemma_token_spans(source: Seq<char>, fl: FloatModel)
    requires
        fits_in_memory(source),
        spec_tokenize(source, fl) is Ok,
    ensures
        spans_on_boundaries(source, spec_tokenize(source, fl)->Ok_0, 0),
{
    lemma_lex_spans(source, 0, fl);
}

// ---------------------------------------------------------------------------
// A well-typed expression does not fail its type at run time.

/// Every FLOAT literal in the expression is a finite number.
pub open spec fn finite_literals(e: SpecExpr) -> bool
    decreases e,
{
    match e.kind {
        SpecExprKind::Literal(SpecValue::Float(b)) => is_finite(b),
        SpecExprKind::Literal(_) => true,
        SpecExprKind::Identifier(_) => true,
        SpecExprKind::Unary { op, expr } => finite_literals(*expr),
        SpecExprKind::Binary { left, op, right } => finite_literals(*left) && finite_literals(*right),
    }
}

/// Every FLOAT value of the row is a finite number.
pub open spec fn finite_values(row: Seq<SpecValue>) -> bool {
    forall|c: int| 0 <= c < row.len() ==> (#[trigger] row[c] matches SpecValue::Float(b) ==> is_finite(b))
}

/// The float host turns every integer into a finite number.
pub open spec fn converts_integers(fl: FloatModel) -> bool {
    forall|i: i64| #[trigger] int_to_float(i, fl) matches Some(x) && is_finite(x)
}

/// A value of static type `t`: NULL or of that type, and finite if a FLOAT.
pub open spec fn has_type(v: SpecValue, t: ExpressionType) -> bool {
    &&& (v is Null || type_of_value(v) == t)
    &&& (v matches SpecValue::Float(b) ==> is_finite(b))
}

proof fn lemma_unary_sound(op: UnaryOp, v: SpecValue, t: ExpressionType)
    requires
        has_type(v, t),
        t is Null || ((op is Plus || op is Minus) && numeric(t)) || (op is Not && t is Boolean),
    ensures
        match eval_unary(op, v) {
            Ok(w) => has_type(w, if t is Null { ExpressionType::Null } else if op is Not { ExpressionType::Boolean } else { t }),
            Err(err) => err is Execution,
        },
{
    if let SpecValue::Float(b) = v {
        lemma_negated_finite(b);
    }
}

proof fn lemma_binary_sound(l: SpecValue, op: BinaryOp, r: SpecValue, tl: ExpressionType, tr: ExpressionType, fl: FloatModel)
    requires
        has_type(l, tl),
        has_type(r, tr),
        binary_type(tl, op, tr) is Ok,
        converts_integers(fl),
    ensures
        match eval_binary(l, op, r, fl) {
            Ok(w) => has_type(w, binary_type(tl, op, tr)->Ok_0),
            Err(err) => err is Execution,
        },
{
    match (l, r) {
        (SpecValue::Integer(a), _) => {
            assert(int_to_float(a, fl) matches Some(x) && is_finite(x));
        },
        _ => {},
    }
    match (l, r) {
        (_, SpecValue::Integer(b)) => {
            assert(int_to_float(b, fl) matches Some(x) && is_finite(x));
        },
        _ => {},
    }
}

/// The type checker is sound for the evaluator: on a row that fits the
/// schema, an expression that type-checks evaluates to NULL or a value of
/// its static type, or fails only with an execution error (overflow,
/// division by zero, a non-finite result) — never with a type error. This
/// holds for finite FLOAT literals and values and a float host that turns
/// every integer into a finite number.
#[verifier::rlimit(60)]
pub proof fn lemma_type_soundness(e: SpecExpr, cols: Seq<SpecColumn>, table_name: Seq<char>, row: Seq<SpecValue>, fl: FloatModel)
    requires
        infer_type(e, cols, table_name) is Ok,
        row_fits(cols, row),
        finite_values(row),
        finite_literals(e),
        converts_integers(fl),
    ensures
        match eval(e, SpecScope::Row { values: row, columns: cols }, fl) {
            Ok(v) => has_type(v, infer_type(e, cols, table_name)->Ok_0),
            Err(err) => err is Execution,
        },
    decreases e,
{
    let scope = SpecScope::Row { values: row, columns: cols };
    match e.kind {
        SpecExprKind::Identifier(name) => {
            lemma_find_column(cols, name, 0);
            let k = find_column(cols, name)->Some_0;
            assert(stored_value_error(cols[k], row[k]) is None);
            assert(row[k] matches SpecValue::Float(b) ==> is_finite(b));
        },
        SpecExprKind::Literal(v) => {},
        SpecExprKind::Unary { op, expr } => {
            lemma_type_soundness(*expr, cols, table_name, row, fl);
            match eval(*expr, scope, fl) {
                Ok(v) => lemma_unary_sound(op, v, infer_type(*expr, cols, table_name)->Ok_0),
                Err(_) => {},
            }
        },
        SpecExprKind::Binary { left, op, right } => {
            lemma_type_soundness(*left, cols, table_name, row, fl);
            lemma_type_soundness(*right, cols, table_name, row, fl);
            match eval(*left, scope, fl) {
                Ok(l) => match eval(*right, scope, fl) {
                    Ok(r) => lemma_binary_sound(
                        l,
                        op,
                        r,
                        infer_type(*left, cols, table_name)->Ok_0,
                        infer_type(*right, cols, table_name)->Ok_0,
                        fl,
                    ),
                    Err(_) => {},
                },
                Err(_) => {},
            }
        },
    }
}

} // verus!
