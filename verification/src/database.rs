use vstd::prelude::*;
use vstd::hash_map::{HashMapWithView, StringHashMap};
use crate::expr::{copy_value, spec_type_name, SpecValue, Value};
use crate::parser::columns_view;
use crate::statement::{spec_data_type_name, ColumnDefinition, DataType, SpecColumn};
use crate::text::{eq_ignore_ascii_case, eq_ignore_case, nat_text, push_quoted, push_str, push_u64_text, quoted, string_of, push_i64_text, int_text};

verus! {

/// The value of a primary-key column (floats and NULL cannot be keys).
#[derive(Debug, Clone, PartialEq, Eq, Hash)]
pub enum PrimaryKeyValue {
    Integer(i64),
    String(String),
    Boolean(bool),
}

pub enum SpecKey {
    Integer(i64),
    String(Seq<char>),
    Boolean(bool),
}

impl View for PrimaryKeyValue {
    type V = SpecKey;

    open spec fn view(&self) -> SpecKey {
        match self {
            PrimaryKeyValue::Integer(i) => SpecKey::Integer(*i),
            PrimaryKeyValue::String(s) => SpecKey::String(s@),
            PrimaryKeyValue::Boolean(b) => SpecKey::Boolean(*b),
        }
    }
}

/// The key a value makes, if it can be one.
pub open spec fn key_of(v: SpecValue) -> Option<SpecKey> {
    match v {
        SpecValue::Integer(i) => Some(SpecKey::Integer(i)),
        SpecValue::String(s) => Some(SpecKey::String(s)),
        SpecValue::Boolean(b) => Some(SpecKey::Boolean(b)),
        _ => None,
    }
}

/// The `Debug` text of a key.
pub open spec fn key_debug(k: SpecKey) -> Seq<char> {
    match k {
        SpecKey::Integer(i) => "Integer("@ + int_text(i as int) + ")"@,
        SpecKey::String(s) => "String("@ + quoted(s) + ")"@,
        SpecKey::Boolean(b) => if b {
            "Boolean(true)"@
        } else {
            "Boolean(false)"@
        },
    }
}

impl PrimaryKeyValue {
    /// The key a value makes: `None` for floats and NULL.
    pub fn from_value(value: &Value) -> (key: Option<PrimaryKeyValue>)
        ensures
            match key {
                Some(k) => key_of(value@) == Some(k@),
                None => key_of(value@) is None,
            },
    {
        match value {
            Value::Integer(v) => Some(PrimaryKeyValue::Integer(*v)),
            Value::String(v) => Some(PrimaryKeyValue::String(v.clone())),
            Value::Boolean(v) => Some(PrimaryKeyValue::Boolean(*v)),
            _ => None,
        }
    }

    /// Key equality by contents.
    pub fn same(&self, other: &PrimaryKeyValue) -> (eq: bool)
        ensures
            eq == (self@ == other@),
    {
        match (self, other) {
            (PrimaryKeyValue::Integer(a), PrimaryKeyValue::Integer(b)) => *a == *b,
            (PrimaryKeyValue::String(a), PrimaryKeyValue::String(b)) => *a == *b,
            (PrimaryKeyValue::Boolean(a), PrimaryKeyValue::Boolean(b)) => *a == *b,
            _ => false,
        }
    }

    /// The `Debug` text of the key.
    pub fn debug_text(&self) -> (s: String)
        ensures
            s@ == key_debug(self@),
    {
        let mut s = String::new();
        match self {
            PrimaryKeyValue::Integer(i) => {
                push_str(&mut s, "Integer(");
                push_i64_text(&mut s, *i);
                push_str(&mut s, ")");
            },
            PrimaryKeyValue::String(v) => {
                push_str(&mut s, "String(");
                push_quoted(&mut s, v.as_str());
                push_str(&mut s, ")");
            },
            PrimaryKeyValue::Boolean(b) => {
                push_str(&mut s, if *b { "Boolean(true)" } else { "Boolean(false)" });
            },
        }
        proof {
            assert(Seq::<char>::empty() + key_debug(self@) =~= key_debug(self@));
        }
        s
    }
}

/// Rows of a table by primary key: each key maps to the position of the row
/// that holds it.
pub struct KeyIndex {
    integers: HashMapWithView<i64, usize>,
    strings: StringHashMap<usize>,
    false_row: Option<usize>,
    true_row: Option<usize>,
}

impl View for KeyIndex {
    type V = Map<SpecKey, usize>;

    closed spec fn view(&self) -> Map<SpecKey, usize> {
        Map::new(
            |k: SpecKey|
                match k {
                    SpecKey::Integer(i) => self.integers@.contains_key(i),
                    SpecKey::String(t) => self.strings@.contains_key(t),
                    SpecKey::Boolean(b) => if b {
                        self.true_row is Some
                    } else {
                        self.false_row is Some
                    },
                },
            |k: SpecKey|
                match k {
                    SpecKey::Integer(i) => self.integers@[i],
                    SpecKey::String(t) => self.strings@[t],
                    SpecKey::Boolean(b) => if b {
                        self.true_row->Some_0
                    } else {
                        self.false_row->Some_0
                    },
                },
        )
    }
}

impl KeyIndex {
    /// An empty index.
    pub fn new() -> (index: KeyIndex)
        ensures
            index@ == Map::<SpecKey, usize>::empty(),
    {
        broadcast use vstd::std_specs::hash::group_hash_axioms;

        let index = KeyIndex {
            integers: HashMapWithView::new(),
            strings: StringHashMap::new(),
            false_row: None,
            true_row: None,
        };
        assert(index@ =~= Map::<SpecKey, usize>::empty());
        index
    }

    /// The row recorded for `key`, if any.
    pub fn get(&self, key: &PrimaryKeyValue) -> (row: Option<usize>)
        ensures
            row == (if self@.contains_key(key@) {
                Some(self@[key@])
            } else {
                None::<usize>
            }),
    {
        match key {
            PrimaryKeyValue::Integer(i) => match self.integers.get(i) {
                Some(r) => Some(*r),
                None => None,
            },
            PrimaryKeyValue::String(t) => match self.strings.get(t.as_str()) {
                Some(r) => Some(*r),
                None => None,
            },
            PrimaryKeyValue::Boolean(b) => if *b {
                self.true_row
            } else {
                self.false_row
            },
        }
    }

    /// Records that `key` is held by row `row`.
    pub fn insert(&mut self, key: PrimaryKeyValue, row: usize)
        ensures
            final(self)@ == old(self)@.insert(key@, row),
    {
        let ghost k = key@;
        match key {
            PrimaryKeyValue::Integer(i) => {
                self.integers.insert(i, row);
            },
            PrimaryKeyValue::String(t) => {
                self.strings.insert(t, row);
            },
            PrimaryKeyValue::Boolean(b) => {
                if b {
                    self.true_row = Some(row);
                } else {
                    self.false_row = Some(row);
                }
            },
        }
        assert(self@ =~= old(self)@.insert(k, row));
    }
}

/// The index maps the key of each of the first `n` rows (column `k`) to that
/// row, and holds no other key.
pub open spec fn keys_indexed(rows: Seq<Seq<SpecValue>>, n: int, k: int, index: Map<SpecKey, usize>) -> bool {
    &&& forall|r: int|
        0 <= r < n ==> (#[trigger] key_of(rows[r][k]) matches Some(key) && index.contains_key(key) && index[key] == r)
    &&& forall|key: SpecKey| #[trigger] index.contains_key(key) ==> index[key] < n && key_of(rows[index[key] as int][k]) == Some(key)
}

pub type Row = Vec<Value>;

pub open spec fn row_view(r: Seq<Value>) -> Seq<SpecValue> {
    r.map_values(|v: Value| v@)
}

pub open spec fn rows_view(rows: Seq<Row>) -> Seq<Seq<SpecValue>> {
    rows.map_values(|r: Row| row_view(r@))
}

/// The mathematical value of a [`Table`]: its schema and its rows.
pub struct SpecTable {
    pub columns: Seq<SpecColumn>,
    pub rows: Seq<Seq<SpecValue>>,
}

// ---------------------------------------------------------------------------
// Schema and row validity.

/// A non-NULL value has the column's type.
pub open spec fn type_matches(t: DataType, v: SpecValue) -> bool {
    match (t, v) {
        (DataType::Integer, SpecValue::Integer(_)) => true,
        (DataType::Float, SpecValue::Float(_)) => true,
        (DataType::Boolean, SpecValue::Boolean(_)) => true,
        (DataType::String, SpecValue::String(_)) => true,
        _ => false,
    }
}

/// Why a stored value does not fit its column, if it does not.
pub open spec fn stored_value_error(c: SpecColumn, v: SpecValue) -> Option<Seq<char>> {
    if v is Null {
        if c.nullable {
            None
        } else {
            Some("NULL violates a NOT NULL constraint"@)
        }
    } else if type_matches(c.data_type, v) {
        None
    } else {
        Some("expected "@ + spec_data_type_name(c.data_type) + ", found "@ + spec_type_name(v))
    }
}

/// Primary-key columns are never nullable.
pub open spec fn normalize_columns(cols: Seq<SpecColumn>) -> Seq<SpecColumn> {
    cols.map_values(|c: SpecColumn| if c.primary_key {
        SpecColumn { nullable: false, ..c }
    } else {
        c
    })
}

/// The first schema error from column `i` on (`seen`: a primary key came before).
pub open spec fn column_error(cols: Seq<SpecColumn>, i: int, seen: bool) -> Option<Seq<char>>
    decreases cols.len() - i,
{
    if i < 0 || i >= cols.len() {
        None
    } else if exists|j: int| 0 <= j < i && eq_ignore_case(#[trigger] cols[j].name, cols[i].name) {
        Some("duplicate column '"@ + cols[i].name + "'"@)
    } else if cols[i].primary_key && seen {
        Some("a table may have only one primary key"@)
    } else if cols[i].primary_key && cols[i].data_type == DataType::Float {
        Some("FLOAT primary keys are not supported"@)
    } else {
        column_error(cols, i + 1, seen || cols[i].primary_key)
    }
}

/// The primary-key flags of the columns.
pub open spec fn key_flags(cols: Seq<SpecColumn>) -> Seq<bool> {
    cols.map_values(|c: SpecColumn| c.primary_key)
}

/// The first index at or after `i` whose flag is set.
pub open spec fn first_set(flags: Seq<bool>, i: int) -> Option<int>
    decreases flags.len() - i,
{
    if i < 0 || i >= flags.len() {
        None
    } else if flags[i] {
        Some(i)
    } else {
        first_set(flags, i + 1)
    }
}

/// The index of the primary-key column (the first one marked), if any.
pub open spec fn primary_key_index(cols: Seq<SpecColumn>) -> Option<int> {
    first_set(key_flags(cols), 0)
}

pub proof fn lemma_first_set(flags: Seq<bool>, i: int)
    requires
        0 <= i <= flags.len(),
    ensures
        match first_set(flags, i) {
            Some(k) => i <= k < flags.len() && flags[k] && forall|j: int| i <= j < k ==> !flags[j],
            None => forall|j: int| i <= j < flags.len() ==> !flags[j],
        },
    decreases flags.len() - i,
{
    if i < flags.len() {
        lemma_first_set(flags, i + 1);
    }
}

/// The primary-key index names a primary-key column.
pub proof fn lemma_primary_key_index(cols: Seq<SpecColumn>)
    ensures
        match primary_key_index(cols) {
            Some(k) => 0 <= k < cols.len() && cols[k].primary_key && forall|j: int| 0 <= j < k ==> !(#[trigger] cols[j].primary_key),
            None => forall|j: int| 0 <= j < cols.len() ==> !(#[trigger] cols[j].primary_key),
        },
{
    lemma_first_set(key_flags(cols), 0);
    match primary_key_index(cols) {
        Some(k) => {
            assert(key_flags(cols)[k] == cols[k].primary_key);
            assert forall|j: int| 0 <= j < k implies !(#[trigger] cols[j].primary_key) by {
                assert(key_flags(cols)[j] == cols[j].primary_key);
            };
        },
        None => {
            assert forall|j: int| 0 <= j < cols.len() implies !(#[trigger] cols[j].primary_key) by {
                assert(key_flags(cols)[j] == cols[j].primary_key);
            };
        },
    }
}

/// The first bad value of row `r` from column `c` on.
pub open spec fn value_error(cols: Seq<SpecColumn>, row: Seq<SpecValue>, r: int, c: int) -> Option<Seq<char>>
    decreases cols.len() - c,
{
    if c < 0 || c >= cols.len() {
        None
    } else {
        match stored_value_error(cols[c], row[c]) {
            Some(m) => Some("invalid value in row "@ + nat_text(r as nat) + ", column '"@ + cols[c].name + "': "@ + m),
            None => value_error(cols, row, r, c + 1),
        }
    }
}

/// The key of row `r` equals the key of an earlier row.
pub open spec fn duplicate_key_before(rows: Seq<Seq<SpecValue>>, r: int, k: int) -> bool {
    exists|e: int| 0 <= e < r && key_of(#[trigger] rows[e][k]) == key_of(rows[r][k])
}

/// What is wrong with row `r`, if anything (`pk`: the primary-key column).
pub open spec fn row_error(cols: Seq<SpecColumn>, rows: Seq<Seq<SpecValue>>, r: int, pk: Option<int>) -> Option<Seq<char>> {
    let row = rows[r];
    if row.len() != cols.len() {
        Some("row "@ + nat_text(r as nat) + " has "@ + nat_text(row.len()) + " values but the table has "@ + nat_text(cols.len()) + " columns"@)
    } else {
        match value_error(cols, row, r, 0) {
            Some(m) => Some(m),
            None => match pk {
                Some(k) => if key_of(row[k]) is None {
                    Some("invalid primary key in row "@ + nat_text(r as nat))
                } else if duplicate_key_before(rows, r, k) {
                    Some("duplicate primary key in row "@ + nat_text(r as nat))
                } else {
                    None
                },
                None => None,
            },
        }
    }
}

/// The first row error from row `r` on.
pub open spec fn rows_error(cols: Seq<SpecColumn>, rows: Seq<Seq<SpecValue>>, r: int, pk: Option<int>) -> Option<Seq<char>>
    decreases rows.len() - r,
{
    if r < 0 || r >= rows.len() {
        None
    } else {
        match row_error(cols, rows, r, pk) {
            Some(m) => Some(m),
            None => rows_error(cols, rows, r + 1, pk),
        }
    }
}

/// Why a table is invalid, as the table check reports it; `None` when valid.
pub open spec fn table_error(t: SpecTable) -> Option<Seq<char>> {
    if t.columns.len() == 0 {
        Some("a table must contain at least one column"@)
    } else {
        match column_error(t.columns, 0, false) {
            Some(m) => Some(m),
            None => {
                let cols = normalize_columns(t.columns);
                rows_error(cols, t.rows, 0, primary_key_index(cols))
            },
        }
    }
}

/// A valid schema: at least one column, names distinct without regard to
/// ASCII case, at most one primary key, which is not FLOAT and not nullable.
pub open spec fn schema_valid(cols: Seq<SpecColumn>) -> bool {
    &&& cols.len() > 0
    &&& forall|i: int, j: int| 0 <= i < j < cols.len() ==> !eq_ignore_case(#[trigger] cols[i].name, #[trigger] cols[j].name)
    &&& forall|i: int, j: int| 0 <= i < j < cols.len() ==> !(#[trigger] cols[i].primary_key && #[trigger] cols[j].primary_key)
    &&& forall|i: int| 0 <= i < cols.len() && #[trigger] cols[i].primary_key ==> cols[i].data_type != DataType::Float && !cols[i].nullable
}

/// Rows that fit the schema: the right length, every value of its column's
/// type (or NULL where allowed), and primary keys present and distinct.
pub open spec fn rows_valid(cols: Seq<SpecColumn>, rows: Seq<Seq<SpecValue>>) -> bool {
    &&& forall|r: int| 0 <= r < rows.len() ==> (#[trigger] rows[r]).len() == cols.len()
    &&& forall|r: int, c: int| 0 <= r < rows.len() && 0 <= c < cols.len() ==> stored_value_error(cols[c], #[trigger] rows[r][c]) is None
    &&& forall|k: int| primary_key_index(cols) == Some(k) ==> {
        &&& forall|r: int| 0 <= r < rows.len() ==> key_of(#[trigger] rows[r][k]) is Some
        &&& forall|r1: int, r2: int| 0 <= r1 < r2 < rows.len() ==> key_of(#[trigger] rows[r1][k]) != key_of(#[trigger] rows[r2][k])
    }
}

pub open spec fn table_valid(t: SpecTable) -> bool {
    schema_valid(t.columns) && rows_valid(t.columns, t.rows)
}

// ---------------------------------------------------------------------------
// Proofs that the checks describe validity.

proof fn lemma_column_error_none(cols: Seq<SpecColumn>, i: int, seen: bool)
    requires
        0 <= i <= cols.len(),
        column_error(cols, i, seen) is None,
    ensures
        forall|a: int, b: int| 0 <= a < b && i <= b < cols.len() ==> !eq_ignore_case(#[trigger] cols[a].name, #[trigger] cols[b].name),
        forall|b: int| i <= b < cols.len() && #[trigger] cols[b].primary_key ==> !seen && cols[b].data_type != DataType::Float,
        forall|a: int, b: int| i <= a < b < cols.len() ==> !(#[trigger] cols[a].primary_key && #[trigger] cols[b].primary_key),
    decreases cols.len() - i,
{
    if i < cols.len() {
        lemma_column_error_none(cols, i + 1, seen || cols[i].primary_key);
        assert forall|a: int, b: int| 0 <= a < b && i <= b < cols.len() implies !eq_ignore_case(#[trigger] cols[a].name, #[trigger] cols[b].name) by {
            if b == i {
                if eq_ignore_case(cols[a].name, cols[b].name) {
                    assert(exists|j: int| 0 <= j < i && eq_ignore_case(#[trigger] cols[j].name, cols[i].name));
                }
            }
        };
    }
}

proof fn lemma_schema_valid(cols: Seq<SpecColumn>)
    requires
        cols.len() > 0,
        column_error(cols, 0, false) is None,
    ensures
        schema_valid(normalize_columns(cols)),
        primary_key_index(normalize_columns(cols)) == primary_key_index(cols),
{
    lemma_column_error_none(cols, 0, false);
    let n = normalize_columns(cols);
    assert forall|i: int, j: int| 0 <= i < j < n.len() implies !eq_ignore_case(#[trigger] n[i].name, #[trigger] n[j].name) by {
        assert(n[i].name == cols[i].name);
        assert(n[j].name == cols[j].name);
    };
    assert(key_flags(n) =~= key_flags(cols));
}

proof fn lemma_value_error_none(cols: Seq<SpecColumn>, row: Seq<SpecValue>, r: int, c: int)
    requires
        0 <= c <= cols.len(),
        value_error(cols, row, r, c) is None,
    ensures
        forall|k: int| c <= k < cols.len() ==> stored_value_error(cols[k], #[trigger] row[k]) is None,
    decreases cols.len() - c,
{
    if c < cols.len() {
        lemma_value_error_none(cols, row, r, c + 1);
    }
}

proof fn lemma_rows_error_none(cols: Seq<SpecColumn>, rows: Seq<Seq<SpecValue>>, r: int, pk: Option<int>)
    requires
        0 <= r <= rows.len(),
        rows_error(cols, rows, r, pk) is None,
    ensures
        forall|x: int| r <= x < rows.len() ==> row_error(cols, rows, x, pk) is None,
    decreases rows.len() - r,
{
    if r < rows.len() {
        lemma_rows_error_none(cols, rows, r + 1, pk);
    }
}

/// A table the check accepts is valid once its primary-key column is made
/// non-nullable.
#[verifier::rlimit(30)]
pub proof fn lemma_table_error_none(t: SpecTable)
    requires
        table_error(t) is None,
    ensures
        table_valid(SpecTable { columns: normalize_columns(t.columns), rows: t.rows }),
{
    lemma_schema_valid(t.columns);
    let cols = normalize_columns(t.columns);
    let pk = primary_key_index(cols);
    lemma_rows_error_none(cols, t.rows, 0, pk);
    assert forall|r: int| 0 <= r < t.rows.len() implies (#[trigger] t.rows[r]).len() == cols.len() by {
        assert(row_error(cols, t.rows, r, pk) is None);
    };
    assert forall|r: int, c: int| 0 <= r < t.rows.len() && 0 <= c < cols.len() implies stored_value_error(cols[c], #[trigger] t.rows[r][c]) is None by {
        assert(row_error(cols, t.rows, r, pk) is None);
        lemma_value_error_none(cols, t.rows[r], r, 0);
    };
    assert forall|k: int| primary_key_index(cols) == Some(k) implies {
        &&& forall|r: int| 0 <= r < t.rows.len() ==> key_of(#[trigger] t.rows[r][k]) is Some
        &&& forall|r1: int, r2: int| 0 <= r1 < r2 < t.rows.len() ==> key_of(#[trigger] t.rows[r1][k]) != key_of(#[trigger] t.rows[r2][k])
    } by {
        assert forall|r: int| 0 <= r < t.rows.len() implies key_of(#[trigger] t.rows[r][k]) is Some by {
            assert(row_error(cols, t.rows, r, pk) is None);
        };
        assert forall|r1: int, r2: int| 0 <= r1 < r2 < t.rows.len() implies key_of(#[trigger] t.rows[r1][k]) != key_of(#[trigger] t.rows[r2][k]) by {
            assert(row_error(cols, t.rows, r2, pk) is None);
            assert(!duplicate_key_before(t.rows, r2, k));
        };
    };
}

// ---------------------------------------------------------------------------
// Tables.

/// A table: its schema, its rows in insertion order, and (once checked) the
/// position of its primary-key column and the index of its rows by key.
pub struct Table {
    pub columns: Vec<ColumnDefinition>,
    pub rows: Vec<Row>,
    pub primary_key_column: Option<usize>,
    pub primary_key_index: KeyIndex,
}

impl View for Table {
    type V = SpecTable;

    open spec fn view(&self) -> SpecTable {
        SpecTable { columns: columns_view(self.columns@), rows: rows_view(self.rows@) }
    }
}

/// Why a stored value does not fit its column (see [`stored_value_error`]).
#[verifier::rlimit(30)]
fn stored_value_check(column: &ColumnDefinition, value: &Value) -> (m: Option<String>)
    ensures
        match (m, stored_value_error(column@, value@)) {
            (Some(x), Some(y)) => x@ == y,
            (None, None) => true,
            _ => false,
        },
{
    match value {
        Value::Null => {
            if column.nullable {
                None
            } else {
                Some(string_of("NULL violates a NOT NULL constraint"))
            }
        },
        _ => {
            let matches_type = match (column.data_type, value) {
                (DataType::Integer, Value::Integer(_)) => true,
                (DataType::Float, Value::Float(_)) => true,
                (DataType::Boolean, Value::Boolean(_)) => true,
                (DataType::String, Value::String(_)) => true,
                _ => false,
            };
            if matches_type {
                None
            } else {
                let mut m = string_of("expected ");
                push_str(&mut m, column.data_type.name());
                push_str(&mut m, ", found ");
                push_str(&mut m, value.sql_type_name());
                Some(m)
            }
        },
    }
}

fn copy_column(c: &ColumnDefinition) -> (d: ColumnDefinition)
    ensures
        d@ == c@,
{
    ColumnDefinition { name: c.name.clone(), data_type: c.data_type, nullable: c.nullable, primary_key: c.primary_key }
}

/// The columns with every primary-key column made non-nullable.
fn normalized_columns(columns: &Vec<ColumnDefinition>) -> (n: Vec<ColumnDefinition>)
    ensures
        columns_view(n@) == normalize_columns(columns_view(columns@)),
{
    let mut n: Vec<ColumnDefinition> = Vec::new();
    let mut i: usize = 0;
    while i < columns.len()
        invariant
            i <= columns.len(),
            columns_view(n@) == normalize_columns(columns_view(columns@)).take(i as int),
        decreases columns.len() - i,
    {
        let mut c = copy_column(&columns[i]);
        if c.primary_key {
            c.nullable = false;
        }
        let ghost before = n@;
        n.push(c);
        assert(columns_view(n@) =~= columns_view(before).push(c@));
        assert(normalize_columns(columns_view(columns@)).take(i + 1) =~= normalize_columns(columns_view(columns@)).take(i as int).push(c@));
        i = i + 1;
    }
    assert(normalize_columns(columns_view(columns@)).take(columns.len() as int) =~= normalize_columns(columns_view(columns@)));
    n
}

/// A copy of a row.
pub fn copy_row(row: &Row) -> (c: Row)
    ensures
        c@ == row@,
        row_view(c@) == row_view(row@),
{
    let mut c: Row = Vec::new();
    let mut i: usize = 0;
    while i < row.len()
        invariant
            i <= row.len(),
            c@ == row@.take(i as int),
        decreases row.len() - i,
    {
        c.push(copy_value(&row[i]));
        assert(row@.take(i + 1) =~= row@.take(i as int).push(row@[i as int]));
        i = i + 1;
    }
    assert(row@.take(row.len() as int) =~= row@);
    c
}

/// A copy of a table's columns and rows, not yet checked.
#[verifier::rlimit(30)]
fn copy_contents(t: &Table) -> (c: Table)
    ensures
        c@ == t@,
        c.primary_key_column is None,
{
    let mut columns: Vec<ColumnDefinition> = Vec::new();
    let mut i: usize = 0;
    while i < t.columns.len()
        invariant
            i <= t.columns.len(),
            columns_view(columns@) == columns_view(t.columns@).take(i as int),
        decreases t.columns.len() - i,
    {
        let ghost before = columns@;
        columns.push(copy_column(&t.columns[i]));
        assert(columns_view(columns@) =~= columns_view(before).push(t.columns@[i as int]@));
        assert(columns_view(t.columns@).take(i + 1) =~= columns_view(t.columns@).take(i as int).push(t.columns@[i as int]@));
        i = i + 1;
    }
    let mut rows: Vec<Row> = Vec::new();
    let mut r: usize = 0;
    while r < t.rows.len()
        invariant
            r <= t.rows.len(),
            rows_view(rows@) == rows_view(t.rows@).take(r as int),
        decreases t.rows.len() - r,
    {
        let ghost before = rows@;
        let copy = copy_row(&t.rows[r]);
        rows.push(copy);
        assert(rows_view(rows@) =~= rows_view(before).push(row_view(t.rows@[r as int]@)));
        assert(rows_view(t.rows@).take(r + 1) =~= rows_view(t.rows@).take(r as int).push(row_view(t.rows@[r as int]@)));
        r = r + 1;
    }
    assert(columns_view(t.columns@).take(t.columns.len() as int) =~= columns_view(t.columns@));
    assert(rows_view(t.rows@).take(t.rows.len() as int) =~= rows_view(t.rows@));
    Table { columns, rows, primary_key_column: None, primary_key_index: KeyIndex::new() }
}

/// The index of the rows of a valid table by their key in column `k`.
#[verifier::rlimit(30)]
fn build_index(columns: &Vec<ColumnDefinition>, rows: &Vec<Row>, k: usize) -> (index: KeyIndex)
    requires
        rows_valid(columns_view(columns@), rows_view(rows@)),
        primary_key_index(columns_view(columns@)) == Some(k as int),
    ensures
        keys_indexed(rows_view(rows@), rows.len() as int, k as int, index@),
{
    let ghost cols = columns_view(columns@);
    let ghost rv = rows_view(rows@);
    proof {
        lemma_primary_key_index(cols);
    }
    let mut index = KeyIndex::new();
    let mut r: usize = 0;
    while r < rows.len()
        invariant
            r <= rows.len(),
            cols == columns_view(columns@),
            rv == rows_view(rows@),
            rows_valid(cols, rv),
            primary_key_index(cols) == Some(k as int),
            k < cols.len(),
            keys_indexed(rv, r as int, k as int, index@),
        decreases rows.len() - r,
    {
        assert(rv[r as int] == row_view(rows@[r as int]@));
        assert(rv[r as int].len() == cols.len());
        assert(rv[r as int][k as int] == rows@[r as int]@[k as int]@);
        let key = match PrimaryKeyValue::from_value(&rows[r][k]) {
            Some(key) => key,
            None => {
                assert(key_of(rv[r as int][k as int]) is Some);
                return index;
            },
        };
        let ghost kv = key@;
        let ghost before = index@;
        proof {
            if before.contains_key(kv) {
                let x = before[kv] as int;
                assert(key_of(rv[x][k as int]) != key_of(rv[r as int][k as int]));
            }
        }
        index.insert(key, r);
        proof {
            assert forall|x: int| 0 <= x < r + 1 implies (#[trigger] key_of(rv[x][k as int]) matches Some(y) && index@.contains_key(y)
                && index@[y] == x) by {
                if x < r {
                    assert(key_of(rv[x][k as int]) != key_of(rv[r as int][k as int]));
                }
            };
            assert forall|y: SpecKey| #[trigger] index@.contains_key(y) implies index@[y] < r + 1 && key_of(rv[index@[y] as int][k as int])
                == Some(y) by {
                if y != kv {
                    assert(before.contains_key(y));
                }
            };
        }
        r = r + 1;
    }
    index
}

/// A copy of a valid table, with its index.
pub fn copy_table(t: &Table) -> (c: Table)
    requires
        t.wf(),
    ensures
        c@ == t@,
        c.wf(),
{
    let mut c = copy_contents(t);
    proof {
        lemma_primary_key_index(t@.columns);
    }
    match t.primary_key_column {
        Some(k) => {
            proof {
                let kk = primary_key_index(t@.columns)->Some_0;
                assert(0 <= kk < t.columns.len());
                assert(t.primary_key_column == Some(kk as usize));
            }
            assert(columns_view(c.columns@) == t@.columns);
            let index = build_index(&c.columns, &c.rows, k);
            c.primary_key_column = Some(k);
            c.primary_key_index = index;
        },
        None => {},
    }
    c
}

/// A row that fits a schema: one value per column, each fitting its column.
pub open spec fn row_fits(cols: Seq<SpecColumn>, row: Seq<SpecValue>) -> bool {
    &&& row.len() == cols.len()
    &&& forall|c: int| 0 <= c < cols.len() ==> stored_value_error(cols[c], #[trigger] row[c]) is None
}

impl Table {
    /// The recorded position of the primary-key column.
    pub open spec fn key_column(&self) -> Option<usize> {
        self.primary_key_column
    }

    /// The recorded index of the rows by primary key.
    pub open spec fn key_index(&self) -> Map<SpecKey, usize> {
        self.primary_key_index@
    }

    /// A valid table whose recorded key column is its primary-key column and
    /// whose index maps each row's key to that row.
    pub open spec fn wf(&self) -> bool {
        &&& table_valid(self@)
        &&& match primary_key_index(self@.columns) {
            Some(k) => self.key_column() == Some(k as usize) && keys_indexed(self@.rows, self@.rows.len() as int, k, self.key_index()),
            None => self.key_column() is None,
        }
    }

    /// The row the index records for `key`.
    pub fn key_row(&self, key: &PrimaryKeyValue) -> (row: Option<usize>)
        ensures
            row == (if self.key_index().contains_key(key@) {
                Some(self.key_index()[key@])
            } else {
                None::<usize>
            }),
    {
        self.primary_key_index.get(key)
    }

    /// Appends a row that fits the schema and whose key, if the table has
    /// one, is not in use; the index records the new row.
    #[verifier::rlimit(30)]
    pub fn append_row(&mut self, row: Row)
        requires
            old(self).wf(),
            row_fits(old(self)@.columns, row_view(row@)),
            primary_key_index(old(self)@.columns) matches Some(k) ==> (key_of(row_view(row@)[k]) matches Some(key)
                && !old(self).key_index().contains_key(key)),
        ensures
            final(self).wf(),
            final(self)@ == (SpecTable { columns: old(self)@.columns, rows: old(self)@.rows.push(row_view(row@)) }),
            final(self).key_index() == (match primary_key_index(old(self)@.columns) {
                Some(k) => old(self).key_index().insert(key_of(row_view(row@)[k])->Some_0, old(self)@.rows.len() as usize),
                None => old(self).key_index(),
            }),
    {
        let ghost cols = self@.columns;
        let ghost rows = self@.rows;
        let ghost rv = row_view(row@);
        proof {
            lemma_primary_key_index(cols);
            if primary_key_index(cols) is Some {
                let kk = primary_key_index(cols)->Some_0;
                assert(0 <= kk < self.columns.len());
                assert(self.primary_key_column == Some(kk as usize));
            }
        }
        match self.primary_key_column {
            Some(k) => {
                assert(rv[k as int] == row@[k as int]@);
                let key = match PrimaryKeyValue::from_value(&row[k]) {
                    Some(key) => key,
                    None => {
                        return;
                    },
                };
                let position = self.rows.len();
                self.primary_key_index.insert(key, position);
            },
            None => {},
        }
        let ghost before = self.rows@;
        self.rows.push(row);
        proof {
            assert(rows_view(self.rows@) =~= rows_view(before).push(rv));
            let nrows = rows.push(rv);
            assert(self@.rows == nrows);
            assert forall|r: int| 0 <= r < nrows.len() implies (#[trigger] nrows[r]).len() == cols.len() by {
                if r < rows.len() {
                    assert(nrows[r] == rows[r]);
                }
            };
            assert forall|r: int, c: int| 0 <= r < nrows.len() && 0 <= c < cols.len() implies stored_value_error(
                cols[c],
                #[trigger] nrows[r][c],
            ) is None by {
                if r < rows.len() {
                    assert(nrows[r] == rows[r]);
                }
            };
            match primary_key_index(cols) {
                Some(k) => {
                    let key = key_of(rv[k])->Some_0;
                    let old_index = old(self).key_index();
                    assert forall|r: int| 0 <= r < nrows.len() implies key_of(#[trigger] nrows[r][k]) is Some by {
                        if r < rows.len() {
                            assert(nrows[r] == rows[r]);
                        }
                    };
                    assert forall|r1: int, r2: int| 0 <= r1 < r2 < nrows.len() implies key_of(#[trigger] nrows[r1][k]) != key_of(
                        #[trigger] nrows[r2][k],
                    ) by {
                        assert(nrows[r1] == rows[r1]);
                        if r2 < rows.len() {
                            assert(nrows[r2] == rows[r2]);
                        } else {
                            assert(old_index.contains_key(key_of(rows[r1][k])->Some_0));
                        }
                    };
                    assert forall|r: int| 0 <= r < nrows.len() implies (#[trigger] key_of(nrows[r][k]) matches Some(y)
                        && self.key_index().contains_key(y) && self.key_index()[y] == r) by {
                        if r < rows.len() {
                            assert(nrows[r] == rows[r]);
                            assert(old_index.contains_key(key_of(rows[r][k])->Some_0));
                        }
                    };
                    assert forall|y: SpecKey| #[trigger] self.key_index().contains_key(y) implies self.key_index()[y] < nrows.len()
                        && key_of(nrows[self.key_index()[y] as int][k]) == Some(y) by {
                        if y != key {
                            assert(old_index.contains_key(y));
                            assert(nrows[old_index[y] as int] == rows[old_index[y] as int]);
                        }
                    };
                },
                None => {},
            }
        }
    }

    /// The position of the primary-key column.
    pub fn primary_key_column(&self) -> (k: Option<usize>)
        ensures
            match k {
                Some(x) => primary_key_index(self@.columns) == Some(x as int),
                None => primary_key_index(self@.columns) is None,
            },
    {
        let ghost flags = key_flags(self@.columns);
        let mut i: usize = 0;
        while i < self.columns.len()
            invariant
                i <= self.columns.len(),
                flags == key_flags(self@.columns),
                first_set(flags, 0) == first_set(flags, i as int),
            decreases self.columns.len() - i,
        {
            if self.columns[i].primary_key {
                return Some(i);
            }
            i = i + 1;
        }
        None
    }

    /// A table as stored, before it is checked with [`Table::validate_and_rebuild`].
    pub fn from_stored(columns: Vec<ColumnDefinition>, rows: Vec<Row>) -> (t: Table)
        ensures
            t.columns@ == columns@,
            t.rows@ == rows@,
    {
        Table { columns, rows, primary_key_column: None, primary_key_index: KeyIndex::new() }
    }

    /// A new empty table with the given columns (primary keys made non-nullable).
    pub fn new(columns: Vec<ColumnDefinition>) -> (r: Result<Table, String>)
        ensures
            match r {
                Ok(t) => t.wf() && t@ == (SpecTable { columns: normalize_columns(columns_view(columns@)), rows: Seq::empty() })
                    && table_error(SpecTable { columns: columns_view(columns@), rows: Seq::empty() }) is None,
                Err(m) => table_error(SpecTable { columns: columns_view(columns@), rows: Seq::empty() }) == Some(m@),
            },
    {
        let mut table = Table { columns, rows: Vec::new(), primary_key_column: None, primary_key_index: KeyIndex::new() };
        assert(rows_view(table.rows@) =~= Seq::<Seq<SpecValue>>::empty());
        match table.validate_and_rebuild() {
            Ok(()) => Ok(table),
            Err(m) => Err(m),
        }
    }

    /// Checks the schema and every row (see [`table_error`]). It succeeds
    /// exactly when the table, with its primary-key column made non-nullable,
    /// is valid; then the primary-key column is made non-nullable, its
    /// position recorded and the key index built from the rows.
    #[verifier::rlimit(30)]
    pub fn validate_and_rebuild(&mut self) -> (r: Result<(), String>)
        ensures
            r is Ok <==> table_valid(SpecTable { columns: normalize_columns(old(self)@.columns), rows: old(self)@.rows }),
            match r {
                Ok(_) => table_error(old(self)@) is None && final(self).wf() && final(self)@ == (SpecTable {
                    columns: normalize_columns(old(self)@.columns),
                    rows: old(self)@.rows,
                }) && match primary_key_index(final(self)@.columns) {
                    Some(k) => final(self).key_column() == Some(k as usize) && keys_indexed(
                        final(self)@.rows,
                        final(self)@.rows.len() as int,
                        k,
                        final(self).key_index(),
                    ),
                    None => final(self).key_column() is None,
                },
                Err(m) => table_error(old(self)@) == Some(m@) && final(self)@ == old(self)@,
            },
    {
        proof {
            lemma_table_check_exact(self@);
        }
        self.check_and_rebuild()
    }

    /// The table check itself (see [`Table::validate_and_rebuild`]).
    #[verifier::rlimit(30)]
    fn check_and_rebuild(&mut self) -> (r: Result<(), String>)
        ensures
            match r {
                Ok(_) => table_error(old(self)@) is None && final(self).wf() && final(self)@ == (SpecTable {
                    columns: normalize_columns(old(self)@.columns),
                    rows: old(self)@.rows,
                }) && match primary_key_index(final(self)@.columns) {
                    Some(k) => final(self).key_column() == Some(k as usize) && keys_indexed(
                        final(self)@.rows,
                        final(self)@.rows.len() as int,
                        k,
                        final(self).key_index(),
                    ),
                    None => final(self).key_column() is None,
                },
                Err(m) => table_error(old(self)@) == Some(m@) && final(self)@ == old(self)@,
            },
    {
        let ghost cols = self@.columns;
        let n = self.columns.len();
        if n == 0 {
            return Err(string_of("a table must contain at least one column"));
        }
        let mut seen = false;
        let mut pk: Option<usize> = None;
        let mut i: usize = 0;
        while i < n
            invariant
                n == self.columns.len(),
                cols == self@.columns,
                self@ == old(self)@,
                i <= n,
                column_error(cols, 0, false) == column_error(cols, i as int, seen),
                seen == pk.is_some(),
                match pk {
                    Some(k) => k < i && first_set(key_flags(cols), 0) == Some(k as int),
                    None => first_set(key_flags(cols), 0) == first_set(key_flags(cols), i as int),
                },
            decreases n - i,
        {
            let mut j: usize = 0;
            while j < i
                invariant
                    i < n == self.columns.len(),
                    cols == self@.columns,
                    self@ == old(self)@,
                    column_error(cols, 0, false) == column_error(cols, i as int, seen),
                    j <= i,
                    forall|a: int| 0 <= a < j ==> !eq_ignore_case(#[trigger] cols[a].name, cols[i as int].name),
                decreases i - j,
            {
                if eq_ignore_ascii_case(self.columns[j].name.as_str(), self.columns[i].name.as_str()) {
                    let mut m = string_of("duplicate column '");
                    push_str(&mut m, self.columns[i].name.as_str());
                    push_str(&mut m, "'");
                    assert(eq_ignore_case(cols[j as int].name, cols[i as int].name));
                    return Err(m);
                }
                j = j + 1;
            }
            if self.columns[i].primary_key {
                if seen {
                    return Err(string_of("a table may have only one primary key"));
                }
                match self.columns[i].data_type {
                    DataType::Float => {
                        return Err(string_of("FLOAT primary keys are not supported"));
                    },
                    _ => {},
                }
                pk = Some(i);
                seen = true;
            }
            i = i + 1;
        }
        proof {
            if pk is None {
                assert(first_set(key_flags(cols), n as int) is None);
            }
        }
        let normalized = normalized_columns(&self.columns);
        let ghost ncols = columns_view(normalized@);
        proof {
            assert(key_flags(ncols) =~= key_flags(cols));
        }
        let ghost rows = self@.rows;
        let mut index = KeyIndex::new();
        let mut r: usize = 0;
        while r < self.rows.len()
            invariant
                pk matches Some(k) ==> keys_indexed(rows, r as int, k as int, index@),
                ncols == columns_view(normalized@),
                ncols == normalize_columns(cols),
                ncols.len() == n,
                n > 0,
                rows == self@.rows,
                cols == self@.columns,
                self@ == old(self)@,
                r <= self.rows.len(),
                forall|x: int| 0 <= x < r ==> (#[trigger] rows[x]).len() == n && (pk matches Some(k) ==> key_of(rows[x][k as int]) is Some),
                primary_key_index(ncols) == (match pk { Some(k) => Some(k as int), None => None::<int> }),
                pk matches Some(k) ==> k < n,
                column_error(cols, 0, false) is None,
                rows_error(ncols, rows, 0, primary_key_index(ncols)) == rows_error(ncols, rows, r as int, primary_key_index(ncols)),
            decreases self.rows.len() - r,
        {
            let row = &self.rows[r];
            if row.len() != n {
                let mut m = string_of("row ");
                push_u64_text(&mut m, r as u64);
                push_str(&mut m, " has ");
                push_u64_text(&mut m, row.len() as u64);
                push_str(&mut m, " values but the table has ");
                push_u64_text(&mut m, n as u64);
                push_str(&mut m, " columns");
                return Err(m);
            }
            let mut c: usize = 0;
            while c < n
                invariant
                    ncols == columns_view(normalized@),
                    ncols.len() == n,
                    row.len() == n,
                    row_view(row@) == rows[r as int],
                    r < rows.len(),
                    self@ == old(self)@,
                    rows == self@.rows,
                    rows_error(ncols, rows, 0, primary_key_index(ncols)) == rows_error(ncols, rows, r as int, primary_key_index(ncols)),
                    column_error(cols, 0, false) is None,
                    cols == self@.columns,
                    ncols == normalize_columns(cols),
                    value_error(ncols, rows[r as int], r as int, 0) == value_error(ncols, rows[r as int], r as int, c as int),
                    c <= n,
                decreases n - c,
            {
                match stored_value_check(&normalized[c], &row[c]) {
                    Some(message) => {
                        let mut m = string_of("invalid value in row ");
                        push_u64_text(&mut m, r as u64);
                        push_str(&mut m, ", column '");
                        push_str(&mut m, normalized[c].name.as_str());
                        push_str(&mut m, "': ");
                        push_str(&mut m, message.as_str());
                        return Err(m);
                    },
                    None => {},
                }
                c = c + 1;
            }
            match pk {
                Some(k) => {
                    let key = PrimaryKeyValue::from_value(&row[k]);
                    match key {
                        None => {
                            let mut m = string_of("invalid primary key in row ");
                            push_u64_text(&mut m, r as u64);
                            return Err(m);
                        },
                        Some(key) => {
                            let ghost kv = key@;
                            let ghost before = index@;
                            assert(key_of(rows[r as int][k as int]) == Some(kv));
                            if index.get(&key).is_some() {
                                let mut m = string_of("duplicate primary key in row ");
                                push_u64_text(&mut m, r as u64);
                                proof {
                                    let x = before[kv] as int;
                                    assert(key_of(rows[x][k as int]) == key_of(rows[r as int][k as int]));
                                    assert(duplicate_key_before(rows, r as int, k as int));
                                }
                                return Err(m);
                            }
                            proof {
                                if duplicate_key_before(rows, r as int, k as int) {
                                    let x = choose|x: int| 0 <= x < r && key_of(#[trigger] rows[x][k as int]) == key_of(rows[r as int][k as int]);
                                    assert(key_of(rows[x][k as int]) matches Some(y) && before.contains_key(y));
                                }
                            }
                            index.insert(key, r);
                            proof {
                                assert forall|x: int| 0 <= x < r + 1 implies (#[trigger] key_of(rows[x][k as int]) matches Some(y)
                                    && index@.contains_key(y) && index@[y] == x) by {
                                    if x < r {
                                        if key_of(rows[x][k as int]) == key_of(rows[r as int][k as int]) {
                                            assert(duplicate_key_before(rows, r as int, k as int));
                                        }
                                    }
                                };
                                assert forall|y: SpecKey| #[trigger] index@.contains_key(y) implies index@[y] < r + 1 && key_of(
                                    rows[index@[y] as int][k as int],
                                ) == Some(y) by {
                                    if y != kv {
                                        assert(before.contains_key(y));
                                    }
                                };
                            }
                        },
                    }
                },
                None => {},
            }
            r = r + 1;
        }
        proof {
            assert(table_error(self@) is None);
            lemma_table_error_none(self@);
        }
        self.columns = normalized;
        self.primary_key_column = pk;
        self.primary_key_index = index;
        Ok(())
    }
}

// ---------------------------------------------------------------------------
// Databases.

/// Named tables, in the order they were created.
pub struct Database {
    pub tables: Vec<(String, Table)>,
}

pub type SpecDatabase = Seq<(Seq<char>, SpecTable)>;

impl View for Database {
    type V = SpecDatabase;

    open spec fn view(&self) -> SpecDatabase {
        self.tables@.map_values(|e: (String, Table)| (e.0@, e.1@))
    }
}

/// Table names are distinct without regard to ASCII case.
pub open spec fn names_distinct(db: SpecDatabase) -> bool {
    forall|i: int, j: int| 0 <= i < j < db.len() ==> !eq_ignore_case(#[trigger] db[i].0, #[trigger] db[j].0)
}

pub open spec fn database_valid(db: SpecDatabase) -> bool {
    &&& names_distinct(db)
    &&& forall|i: int| 0 <= i < db.len() ==> table_valid(#[trigger] db[i].1)
}

/// The first repeated table name from entry `i` on.
pub open spec fn name_error(db: SpecDatabase, i: int) -> Option<Seq<char>>
    decreases db.len() - i,
{
    if i < 0 || i >= db.len() {
        None
    } else if exists|j: int| 0 <= j < i && eq_ignore_case(#[trigger] db[j].0, db[i].0) {
        Some("duplicate table name '"@ + db[i].0 + "'"@)
    } else {
        name_error(db, i + 1)
    }
}

/// The first invalid table from entry `i` on.
pub open spec fn tables_error(db: SpecDatabase, i: int) -> Option<Seq<char>>
    decreases db.len() - i,
{
    if i < 0 || i >= db.len() {
        None
    } else {
        match table_error(db[i].1) {
            Some(m) => Some("invalid table '"@ + db[i].0 + "': "@ + m),
            None => tables_error(db, i + 1),
        }
    }
}

/// Why a stored database is invalid; `None` when it is valid.
pub open spec fn database_error(db: SpecDatabase) -> Option<Seq<char>> {
    match name_error(db, 0) {
        Some(m) => Some(m),
        None => tables_error(db, 0),
    }
}

/// The database after the check: every table's primary-key columns non-nullable.
pub open spec fn normalize_database(db: SpecDatabase) -> SpecDatabase {
    db.map_values(|e: (Seq<char>, SpecTable)| (e.0, SpecTable { columns: normalize_columns(e.1.columns), rows: e.1.rows }))
}

proof fn lemma_name_error_none(db: SpecDatabase, i: int)
    requires
        0 <= i <= db.len(),
        name_error(db, i) is None,
    ensures
        forall|a: int, b: int| 0 <= a < b && i <= b < db.len() ==> !eq_ignore_case(#[trigger] db[a].0, #[trigger] db[b].0),
    decreases db.len() - i,
{
    if i < db.len() {
        lemma_name_error_none(db, i + 1);
        assert forall|a: int, b: int| 0 <= a < b && i <= b < db.len() implies !eq_ignore_case(#[trigger] db[a].0, #[trigger] db[b].0) by {
            if b == i && eq_ignore_case(db[a].0, db[b].0) {
                assert(exists|j: int| 0 <= j < i && eq_ignore_case(#[trigger] db[j].0, db[i].0));
            }
        };
    }
}

proof fn lemma_tables_error_none(db: SpecDatabase, i: int)
    requires
        0 <= i <= db.len(),
        tables_error(db, i) is None,
    ensures
        forall|k: int| i <= k < db.len() ==> table_error(#[trigger] db[k].1) is None,
    decreases db.len() - i,
{
    if i < db.len() {
        lemma_tables_error_none(db, i + 1);
    }
}

/// A database the check accepts is valid after normalization.
pub proof fn lemma_database_error_none(db: SpecDatabase)
    requires
        database_error(db) is None,
    ensures
        database_valid(normalize_database(db)),
{
    lemma_name_error_none(db, 0);
    lemma_tables_error_none(db, 0);
    let n = normalize_database(db);
    assert forall|i: int, j: int| 0 <= i < j < n.len() implies !eq_ignore_case(#[trigger] n[i].0, #[trigger] n[j].0) by {
        assert(n[i].0 == db[i].0);
        assert(n[j].0 == db[j].0);
    };
    assert forall|i: int| 0 <= i < n.len() implies table_valid(#[trigger] n[i].1) by {
        assert(table_error(db[i].1) is None);
        lemma_table_error_none(db[i].1);
    };
}

proof fn lemma_valid_columns_accepted(cols: Seq<SpecColumn>, i: int, seen: bool)
    requires
        schema_valid(cols),
        0 <= i <= cols.len(),
        seen == exists|j: int| 0 <= j < i && #[trigger] cols[j].primary_key,
    ensures
        column_error(cols, i, seen) is None,
    decreases cols.len() - i,
{
    if i < cols.len() {
        if cols[i].primary_key && seen {
            let j = choose|j: int| 0 <= j < i && #[trigger] cols[j].primary_key;
            assert(!(cols[j].primary_key && cols[i].primary_key));
        }
        let next = seen || cols[i].primary_key;
        assert(next == exists|j: int| 0 <= j < i + 1 && #[trigger] cols[j].primary_key) by {
            if cols[i].primary_key {
                assert(cols[i].primary_key);
            }
        };
        lemma_valid_columns_accepted(cols, i + 1, next);
    }
}

proof fn lemma_valid_row_values(cols: Seq<SpecColumn>, row: Seq<SpecValue>, r: int, c: int)
    requires
        0 <= c <= cols.len(),
        forall|x: int| c <= x < cols.len() ==> stored_value_error(cols[x], #[trigger] row[x]) is None,
    ensures
        value_error(cols, row, r, c) is None,
    decreases cols.len() - c,
{
    if c < cols.len() {
        lemma_valid_row_values(cols, row, r, c + 1);
    }
}

#[verifier::rlimit(30)]
proof fn lemma_valid_rows_accepted(cols: Seq<SpecColumn>, rows: Seq<Seq<SpecValue>>, r: int)
    requires
        rows_valid(cols, rows),
        0 <= r <= rows.len(),
    ensures
        rows_error(cols, rows, r, primary_key_index(cols)) is None,
    decreases rows.len() - r,
{
    if r < rows.len() {
        assert(rows[r].len() == cols.len());
        assert forall|x: int| 0 <= x < cols.len() implies stored_value_error(cols[x], #[trigger] rows[r][x]) is None by {
            assert(stored_value_error(cols[x], rows[r][x]) is None);
        };
        lemma_valid_row_values(cols, rows[r], r, 0);
        match primary_key_index(cols) {
            Some(k) => {
                assert(key_of(rows[r][k]) is Some);
                if duplicate_key_before(rows, r, k) {
                    let e = choose|e: int| 0 <= e < r && key_of(#[trigger] rows[e][k]) == key_of(rows[r][k]);
                    assert(key_of(rows[e][k]) != key_of(rows[r][k]));
                }
            },
            None => {},
        }
        lemma_valid_rows_accepted(cols, rows, r + 1);
    }
}

/// A valid table passes the table check, and the check changes nothing.
pub proof fn lemma_valid_table_accepted(t: SpecTable)
    requires
        table_valid(t),
    ensures
        table_error(t) is None,
        normalize_columns(t.columns) == t.columns,
{
    lemma_valid_columns_accepted(t.columns, 0, false);
    assert(normalize_columns(t.columns) =~= t.columns);
    lemma_valid_rows_accepted(t.columns, t.rows, 0);
}

proof fn lemma_column_error_normalized(cols: Seq<SpecColumn>, i: int, seen: bool)
    requires
        0 <= i <= cols.len(),
    ensures
        column_error(normalize_columns(cols), i, seen) == column_error(cols, i, seen),
    decreases cols.len() - i,
{
    let n = normalize_columns(cols);
    if i < cols.len() {
        lemma_column_error_normalized(cols, i + 1, seen || cols[i].primary_key);
        assert forall|j: int| 0 <= j < cols.len() implies (#[trigger] n[j]).name == cols[j].name && n[j].primary_key
            == cols[j].primary_key && n[j].data_type == cols[j].data_type by {};
        assert((exists|j: int| 0 <= j < i && eq_ignore_case(#[trigger] n[j].name, n[i].name)) == (exists|j: int|
            0 <= j < i && eq_ignore_case(#[trigger] cols[j].name, cols[i].name))) by {
            if exists|j: int| 0 <= j < i && eq_ignore_case(#[trigger] n[j].name, n[i].name) {
                let j = choose|j: int| 0 <= j < i && eq_ignore_case(#[trigger] n[j].name, n[i].name);
                assert(eq_ignore_case(cols[j].name, cols[i].name));
            }
            if exists|j: int| 0 <= j < i && eq_ignore_case(#[trigger] cols[j].name, cols[i].name) {
                let j = choose|j: int| 0 <= j < i && eq_ignore_case(#[trigger] cols[j].name, cols[i].name);
                assert(eq_ignore_case(n[j].name, n[i].name));
            }
        };
    }
}

/// The table check accepts a table exactly when the table, with its
/// primary-key column made non-nullable, is valid.
pub proof fn lemma_table_check_exact(t: SpecTable)
    ensures
        (table_error(t) is None) == table_valid(SpecTable { columns: normalize_columns(t.columns), rows: t.rows }),
{
    let n = SpecTable { columns: normalize_columns(t.columns), rows: t.rows };
    if table_error(t) is None {
        lemma_table_error_none(t);
    }
    if table_valid(n) {
        lemma_valid_table_accepted(n);
        lemma_column_error_normalized(t.columns, 0, false);
        assert(normalize_columns(n.columns) =~= normalize_columns(t.columns));
    }
}

proof fn lemma_valid_names_accepted(db: SpecDatabase, i: int)
    requires
        names_distinct(db),
        0 <= i <= db.len(),
    ensures
        name_error(db, i) is None,
    decreases db.len() - i,
{
    if i < db.len() {
        if exists|j: int| 0 <= j < i && eq_ignore_case(#[trigger] db[j].0, db[i].0) {
            let j = choose|j: int| 0 <= j < i && eq_ignore_case(#[trigger] db[j].0, db[i].0);
            assert(!eq_ignore_case(db[j].0, db[i].0));
        }
        lemma_valid_names_accepted(db, i + 1);
    }
}

proof fn lemma_valid_tables_accepted(db: SpecDatabase, i: int)
    requires
        database_valid(db),
        0 <= i <= db.len(),
    ensures
        tables_error(db, i) is None,
    decreases db.len() - i,
{
    if i < db.len() {
        lemma_valid_table_accepted(db[i].1);
        lemma_valid_tables_accepted(db, i + 1);
    }
}

/// A valid database passes the check unchanged: storing a database the
/// engine produced and loading it again gives back the same database.
pub proof fn lemma_valid_database_reloads(db: SpecDatabase)
    requires
        database_valid(db),
    ensures
        database_error(db) is None,
        normalize_database(db) == db,
{
    lemma_valid_names_accepted(db, 0);
    lemma_valid_tables_accepted(db, 0);
    assert forall|i: int| 0 <= i < db.len() implies #[trigger] normalize_database(db)[i] == db[i] by {
        lemma_valid_table_accepted(db[i].1);
    };
    assert(normalize_database(db) =~= db);
}

impl Database {
    /// An empty database.
    pub fn new() -> (db: Database)
        ensures
            db@ == Seq::<(Seq<char>, SpecTable)>::empty(),
    {
        let db = Database { tables: Vec::new() };
        assert(db@ =~= Seq::<(Seq<char>, SpecTable)>::empty());
        db
    }

    /// A valid database whose tables each have their key index.
    pub open spec fn wf(&self) -> bool {
        &&& database_valid(self@)
        &&& forall|i: int| 0 <= i < self.tables.len() ==> (#[trigger] self.tables@[i]).1.wf()
    }

    /// Checks table names and every table (see [`database_error`]); on
    /// success every table is normalized.
    #[verifier::rlimit(30)]
    pub fn validate_and_rebuild(&mut self) -> (r: Result<(), String>)
        ensures
            match r {
                Ok(_) => database_error(old(self)@) is None && final(self).wf() && final(self)@ == normalize_database(old(self)@),
                Err(m) => database_error(old(self)@) == Some(m@),
            },
    {
        let ghost db = self@;
        let n = self.tables.len();
        let mut i: usize = 0;
        while i < n
            invariant
                n == self.tables.len(),
                db == self@,
                db == old(self)@,
                i <= n,
                name_error(db, 0) == name_error(db, i as int),
            decreases n - i,
        {
            let mut j: usize = 0;
            while j < i
                invariant
                    i < n == self.tables.len(),
                    db == self@,
                    db == old(self)@,
                    name_error(db, 0) == name_error(db, i as int),
                    j <= i,
                    forall|a: int| 0 <= a < j ==> !eq_ignore_case(#[trigger] db[a].0, db[i as int].0),
                decreases i - j,
            {
                if eq_ignore_ascii_case(self.tables[j].0.as_str(), self.tables[i].0.as_str()) {
                    assert(eq_ignore_case(db[j as int].0, db[i as int].0));
                    let mut m = string_of("duplicate table name '");
                    push_str(&mut m, self.tables[i].0.as_str());
                    push_str(&mut m, "'");
                    return Err(m);
                }
                j = j + 1;
            }
            i = i + 1;
        }
        let mut tables: Vec<(String, Table)> = Vec::new();
        let mut k: usize = 0;
        while k < n
            invariant
                n == self.tables.len(),
                db == self@,
                db == old(self)@,
                k <= n,
                name_error(db, 0) is None,
                tables_error(db, 0) == tables_error(db, k as int),
                tables@.map_values(|e: (String, Table)| (e.0@, e.1@)) == normalize_database(db).take(k as int),
                forall|x: int| 0 <= x < k ==> (#[trigger] tables@[x]).1.wf(),
            decreases n - k,
        {
            let name = self.tables[k].0.clone();
            let mut table = copy_contents(&self.tables[k].1);
            proof {
                assert(table@ == db[k as int].1);
            }
            match table.validate_and_rebuild() {
                Ok(()) => {},
                Err(message) => {
                    let mut m = string_of("invalid table '");
                    push_str(&mut m, name.as_str());
                    push_str(&mut m, "': ");
                    push_str(&mut m, message.as_str());
                    return Err(m);
                },
            }
            let ghost before = tables@;
            tables.push((name, table));
            assert(tables@.map_values(|e: (String, Table)| (e.0@, e.1@)) =~= before.map_values(|e: (String, Table)| (e.0@, e.1@)).push((name@, table@)));
            assert(normalize_database(db).take(k + 1) =~= normalize_database(db).take(k as int).push(normalize_database(db)[k as int]));
            k = k + 1;
        }
        self.tables = tables;
        proof {
            assert(normalize_database(db).take(n as int) =~= normalize_database(db));
            lemma_database_error_none(db);
        }
        Ok(())
    }
}

} // verus!
