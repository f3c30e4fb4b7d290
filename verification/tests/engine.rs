use rustql::database::{Database, PrimaryKeyValue, Table};
use rustql::error::BackendError;
use rustql::executor::{copy_database, ExecutionResult, Executor, QueryResult};
use rustql::expr::{BinaryOp, Value};
use rustql::float::{FloatReply, FloatTask};
use rustql::span::Span;
use rustql::statement::{ColumnDefinition, CreateTableStatement, DataType, Statement, StatementKind};

fn host(task: FloatTask) -> FloatReply {
    match task {
        FloatTask::Parse(text) => match text.parse::<f64>() {
            Ok(value) => FloatReply::Number(value.to_bits()),
            Err(_) => FloatReply::Invalid,
        },
        FloatTask::FromInteger(value) => FloatReply::Number((value as f64).to_bits()),
        FloatTask::Arithmetic(op, a, b) => {
            let (x, y) = (f64::from_bits(a), f64::from_bits(b));
            let value = match op {
                BinaryOp::Add => x + y,
                BinaryOp::Subtract => x - y,
                BinaryOp::Multiply => x * y,
                BinaryOp::Divide => x / y,
                BinaryOp::Modulo => x % y,
                _ => return FloatReply::Invalid,
            };
            FloatReply::Number(value.to_bits())
        }
        FloatTask::DebugText(bits) => FloatReply::Text(format!("{:?}", f64::from_bits(bits))),
        FloatTask::DisplayText(bits) => FloatReply::Text(format!("{}", f64::from_bits(bits))),
    }
}

/// An engine without a file: changed databases are committed at once.
struct Engine {
    executor: Executor,
}

impl Engine {
    fn new() -> Self {
        Engine { executor: Executor::new(Database::new(), "database.json").expect("empty database should open") }
    }

    fn execute(&mut self, sql: &str) -> Result<ExecutionResult, BackendError> {
        let outcome = self.executor.execute_sql(sql, &host)?;
        if let Some(snapshot) = outcome.changed {
            self.executor.commit(snapshot);
        }
        Ok(outcome.result)
    }

    fn seed(&mut self, table: &str, count: usize) -> Result<ExecutionResult, BackendError> {
        let outcome = self.executor.seed(table, count, &host)?;
        if let Some(snapshot) = outcome.changed {
            self.executor.commit(snapshot);
        }
        Ok(outcome.result)
    }

    fn reloaded(&self) -> Engine {
        let stored = copy_database(self.executor.database());
        Engine { executor: Executor::new(stored, "database.json").expect("stored database should reload") }
    }
}

fn query(engine: &mut Engine, sql: &str) -> QueryResult {
    match engine.execute(sql).expect("query should succeed") {
        ExecutionResult::Query(result) => result,
        result => panic!("expected query result, received {result:?}"),
    }
}

fn assert_no_rows(engine: &mut Engine, table: &str) {
    assert!(query(engine, &format!("SELECT * FROM {table}")).rows.is_empty());
}

#[test]
fn insert_validates_columns_arity_types_and_nullability() {
    let mut engine = Engine::new();
    engine
        .execute(
            "CREATE TABLE items (id INTEGER PRIMARY KEY, score FLOAT, active BOOLEAN NOT NULL, note STRING)",
        )
        .unwrap();

    assert!(matches!(
        engine.execute("INSERT INTO items (missing) VALUES (1)"),
        Err(BackendError::ColumnNotFound { .. })
    ));
    assert!(matches!(
        engine.execute("INSERT INTO items (id, ID) VALUES (1, 2)"),
        Err(BackendError::DuplicateColumn(_))
    ));
    assert!(matches!(
        engine.execute("INSERT INTO items (id, active) VALUES (1)"),
        Err(BackendError::ValueCountMismatch { .. })
    ));
    assert!(matches!(
        engine.execute("INSERT INTO items VALUES (1, 2.0, TRUE)"),
        Err(BackendError::ValueCountMismatch { .. })
    ));
    assert!(matches!(
        engine.execute("INSERT INTO items (id, active) VALUES ('wrong', TRUE)"),
        Err(BackendError::TypeMismatch { .. })
    ));
    assert!(matches!(
        engine.execute("INSERT INTO items (id) VALUES (1)"),
        Err(BackendError::NullConstraintViolation(column)) if column == "active"
    ));
    assert!(matches!(
        engine.execute("INSERT INTO items (id, active) VALUES (other_id, TRUE)"),
        Err(BackendError::InvalidExpression(_))
    ));
    assert_no_rows(&mut engine, "items");

    engine
        .execute("INSERT INTO items (id, score, active) VALUES (1, 2, TRUE)")
        .unwrap();
    assert_eq!(
        query(&mut engine, "SELECT * FROM items").rows,
        [vec![
            Value::Integer(1),
            Value::Float(2.0f64.to_bits()),
            Value::Boolean(true),
            Value::Null,
        ]]
    );
}

#[test]
fn primary_key_constraints_are_enforced() {
    let mut engine = Engine::new();
    engine
        .execute("CREATE TABLE users (id INTEGER PRIMARY KEY, name STRING)")
        .unwrap();
    engine.execute("INSERT INTO users VALUES (1, 'first')").unwrap();

    assert!(matches!(
        engine.execute("INSERT INTO users VALUES (1, 'duplicate')"),
        Err(BackendError::DuplicatePrimaryKey(_))
    ));
    assert!(matches!(
        engine.execute("INSERT INTO users VALUES (NULL, 'missing')"),
        Err(BackendError::NullConstraintViolation(_))
    ));
    assert_eq!(query(&mut engine, "SELECT * FROM users").rows.len(), 1);
    assert_eq!(query(&mut engine, "SELECT * FROM users WHERE id = 1.0").rows.len(), 1);
    assert!(matches!(
        engine.execute("CREATE TABLE USERS (other INTEGER)"),
        Err(BackendError::TableAlreadyExists(_))
    ));

    assert!(engine
        .execute("CREATE TABLE multiple (a INTEGER PRIMARY KEY, b INTEGER PRIMARY KEY)")
        .is_err());
    assert!(engine.execute("CREATE TABLE float_key (id FLOAT PRIMARY KEY)").is_err());
}

#[test]
fn evaluates_literals_arithmetic_logic_aliases_and_nulls() {
    let mut engine = Engine::new();
    engine
        .execute(
            "CREATE TABLE values_table (id INTEGER PRIMARY KEY, score FLOAT, enabled BOOLEAN, note STRING)",
        )
        .unwrap();
    engine
        .execute("INSERT INTO values_table VALUES (-2, 1.5, TRUE, NULL)")
        .unwrap();

    let result = query(
        &mut engine,
        "SELECT id + 2 * 3 AS total, score >= .5 AS good, NOT enabled AS disabled FROM values_table WHERE id = -2 AND enabled = TRUE",
    );
    assert_eq!(result.columns, ["total", "good", "disabled"]);
    assert_eq!(
        result.rows,
        [vec![Value::Integer(4), Value::Boolean(true), Value::Boolean(false)]]
    );

    assert!(query(&mut engine, "SELECT * FROM values_table WHERE note = NULL")
        .rows
        .is_empty());
    assert!(matches!(
        engine.execute("SELECT * FROM values_table WHERE id / 0 = 1"),
        Err(BackendError::Execution(_))
    ));
    assert!(matches!(
        engine.execute("SELECT * FROM values_table WHERE id"),
        Err(BackendError::InvalidExpression(_))
    ));
}

#[test]
fn rejects_unknown_columns_trailing_input_and_numeric_overflow() {
    let mut engine = Engine::new();
    engine.execute("CREATE TABLE empty_table (id INTEGER)").unwrap();

    assert!(matches!(
        engine.execute("SELECT missing FROM empty_table"),
        Err(BackendError::ColumnNotFound { .. })
    ));
    assert!(matches!(
        engine.execute("SELECT 1 + 'wrong' FROM empty_table"),
        Err(BackendError::InvalidExpression(_))
    ));
    assert!(matches!(
        engine.execute("SELECT * FROM empty_table WHERE id"),
        Err(BackendError::InvalidExpression(_))
    ));
    assert!(matches!(
        engine.execute("SELECT * FROM empty_table trailing"),
        Err(BackendError::Parse(_))
    ));
    assert!(matches!(
        engine.execute("SELECT * FROM empty_table WHERE id = 999999999999999999999999999999"),
        Err(BackendError::Lex(_))
    ));
}

#[test]
fn executor_validates_ast_callers_that_bypass_the_parser() {
    let executor = Executor::new(Database::new(), "database.json").unwrap();
    let columns = vec![
        ColumnDefinition {
            name: "id".into(),
            data_type: DataType::Integer,
            nullable: true,
            primary_key: true,
        },
        ColumnDefinition {
            name: "ID".into(),
            data_type: DataType::String,
            nullable: true,
            primary_key: false,
        },
    ];
    let statement = Statement::new(
        StatementKind::CreateTable(CreateTableStatement { name: "bad".into(), columns }),
        Span::default(),
    );

    assert!(matches!(
        executor.execute(statement, &host),
        Err(BackendError::InvalidSchema(_))
    ));
}

#[test]
fn schema_aware_seed_is_atomic_when_key_space_is_exhausted() {
    let mut engine = Engine::new();
    engine
        .execute("CREATE TABLE flags (enabled BOOLEAN PRIMARY KEY, score FLOAT, label STRING)")
        .unwrap();
    engine.seed("FLAGS", 2).unwrap();

    assert!(matches!(engine.seed("flags", 1), Err(BackendError::InvalidPrimaryKey(_))));
    assert_eq!(query(&mut engine, "SELECT * FROM flags").rows.len(), 2);
}

#[test]
fn readme_workflow_honors_column_order_and_reloads_in_memory() {
    let mut engine = Engine::new();

    engine
        .execute("CREATE TABLE Users (id INTEGER PRIMARY KEY, name STRING NOT NULL)")
        .unwrap();
    engine.execute("INSERT INTO users VALUES (1, 'Phil')").unwrap();
    engine
        .execute("INSERT INTO USERS (name, id) VALUES ('Alice', 2)")
        .unwrap();

    let result = query(&mut engine, "SELECT NAME, ID FROM users WHERE id >= 1");
    assert_eq!(result.columns, ["NAME", "ID"]);
    assert_eq!(
        result.rows,
        [
            vec![Value::String("Phil".into()), Value::Integer(1)],
            vec![Value::String("Alice".into()), Value::Integer(2)],
        ]
    );

    let mut reloaded = engine.reloaded();
    assert_eq!(
        query(&mut reloaded, "SELECT * FROM USERS WHERE ID = 2").rows,
        [vec![Value::Integer(2), Value::String("Alice".into())]]
    );
}

#[test]
fn seeding_generates_typed_rows_in_order() {
    let mut engine = Engine::new();
    engine
        .execute("CREATE TABLE t (id INTEGER PRIMARY KEY, score FLOAT, ok BOOLEAN, label STRING)")
        .unwrap();
    assert!(matches!(engine.seed("t", 0), Ok(ExecutionResult::RowsInserted { count: 0 })));
    assert!(matches!(engine.seed("T", 3), Ok(ExecutionResult::RowsInserted { count: 3 })));
    assert_eq!(
        query(&mut engine, "SELECT * FROM t").rows,
        [
            vec![Value::Integer(0), Value::Float(0.0f64.to_bits()), Value::Boolean(true), Value::String("value0".into())],
            vec![Value::Integer(1), Value::Float(1.0f64.to_bits()), Value::Boolean(false), Value::String("value1".into())],
            vec![Value::Integer(2), Value::Float(2.0f64.to_bits()), Value::Boolean(true), Value::String("value2".into())],
        ]
    );
    engine.execute("INSERT INTO t (id) VALUES (4)").unwrap();
    engine.seed("t", 2).unwrap();
    let ids: Vec<Value> = query(&mut engine, "SELECT id FROM t").rows.into_iter().map(|row| row[0].clone()).collect();
    assert_eq!(
        ids,
        [Value::Integer(0), Value::Integer(1), Value::Integer(2), Value::Integer(4), Value::Integer(5), Value::Integer(6)]
    );
    assert!(matches!(engine.seed("missing", 1), Err(BackendError::TableNotFound(name)) if name == "missing"));
}

#[test]
fn failed_statements_leave_the_database_unchanged() {
    let mut engine = Engine::new();
    engine.execute("CREATE TABLE users (id INTEGER PRIMARY KEY)").unwrap();
    engine.execute("INSERT INTO users VALUES (1)").unwrap();
    let before = copy_database(engine.executor.database());
    assert!(engine.execute("INSERT INTO users VALUES (1)").is_err());
    assert!(engine.execute("CREATE TABLE users (id INTEGER)").is_err());
    assert!(engine.execute("INSERT INTO nowhere VALUES (1)").is_err());
    let after = engine.executor.database();
    assert_eq!(after.tables.len(), before.tables.len());
    assert_eq!(after.tables[0].1.rows, before.tables[0].1.rows);
}

#[test]
fn primary_key_lookup_and_scan_agree() {
    let mut engine = Engine::new();
    engine.execute("CREATE TABLE words (w STRING PRIMARY KEY, n INTEGER)").unwrap();
    engine.execute("INSERT INTO words VALUES ('b', 2)").unwrap();
    engine.execute("INSERT INTO words VALUES ('a', 1)").unwrap();
    engine.execute("INSERT INTO words VALUES ('c', 3)").unwrap();
    assert_eq!(
        query(&mut engine, "SELECT n FROM words WHERE w = 'a'").rows,
        [vec![Value::Integer(1)]]
    );
    assert_eq!(
        query(&mut engine, "SELECT n FROM words WHERE 'a' = W").rows,
        [vec![Value::Integer(1)]]
    );
    assert_eq!(
        query(&mut engine, "SELECT n FROM words WHERE w >= 'a' AND w <= 'a'").rows,
        [vec![Value::Integer(1)]]
    );
    assert!(query(&mut engine, "SELECT n FROM words WHERE w = 'z'").rows.is_empty());
    assert_eq!(
        query(&mut engine, "SELECT n / 0 FROM words WHERE w = 'zz' OR w = 'zz'").rows.len(),
        0
    );
    assert!(matches!(
        engine.execute("SELECT n / 0 FROM words WHERE w = 'b'"),
        Err(BackendError::Execution(_))
    ));
}

#[test]
fn each_error_variant_has_an_input() {
    let mut engine = Engine::new();
    assert!(matches!(engine.execute("SELECT * FROM nowhere"), Err(BackendError::TableNotFound(t)) if t == "nowhere"));
    engine.execute("CREATE TABLE t (a INTEGER, b STRING)").unwrap();
    assert!(matches!(
        engine.execute("INSERT INTO t VALUES (1, 2)"),
        Err(BackendError::TypeMismatch { column, expected: DataType::String, found }) if column == "b" && found == "INTEGER"
    ));
    assert!(matches!(
        engine.execute("INSERT INTO t VALUES (9223372036854775807 + 1, 'x')"),
        Err(BackendError::Execution(m)) if m == "integer arithmetic overflow"
    ));
    assert!(matches!(engine.execute("@"), Err(BackendError::Lex(_))));
    assert!(matches!(engine.execute("SELECT"), Err(BackendError::Parse(_))));
    assert!(matches!(
        engine.execute("SELECT a FROM t WHERE b > 1"),
        Err(BackendError::InvalidExpression(m)) if m == "cannot compare STRING with INTEGER"
    ));
}

#[test]
fn invalid_stored_databases_are_rejected_with_their_path() {
    let mut engine = Engine::new();
    engine.execute("CREATE TABLE users (id INTEGER PRIMARY KEY)").unwrap();
    engine.execute("INSERT INTO users VALUES (1)").unwrap();
    let mut stored = copy_database(engine.executor.database());
    stored.tables[0].1.rows.push(vec![Value::Integer(1)]);
    assert!(matches!(
        Executor::new(stored, "db.json"),
        Err(BackendError::InvalidSchema(m)) if m == "database 'db.json' is invalid: invalid table 'users': duplicate primary key in row 1"
    ));
    let mut stored = copy_database(engine.executor.database());
    stored.tables[0].1.rows[0] = vec![];
    assert!(matches!(
        Executor::new(stored, "db.json"),
        Err(BackendError::InvalidSchema(m)) if m == "database 'db.json' is invalid: invalid table 'users': row 0 has 0 values but the table has 1 columns"
    ));
}

#[test]
fn stored_database_reloads_unchanged() {
    let mut engine = Engine::new();
    engine.execute("CREATE TABLE a (id INTEGER PRIMARY KEY, note STRING)").unwrap();
    engine.execute("CREATE TABLE b (flag BOOLEAN)").unwrap();
    engine.execute("INSERT INTO a VALUES (3, NULL)").unwrap();
    engine.execute("INSERT INTO b VALUES (FALSE)").unwrap();
    let reloaded = engine.reloaded();
    let before = engine.executor.database();
    let after = reloaded.executor.database();
    assert_eq!(before.tables.len(), after.tables.len());
    for (x, y) in before.tables.iter().zip(after.tables.iter()) {
        assert_eq!(x.0, y.0);
        assert_eq!(x.1.columns, y.1.columns);
        assert_eq!(x.1.rows, y.1.rows);
    }
}

#[test]
fn malformed_persisted_rows_are_rejected_without_panicking() {
    let users = Table::from_stored(
        vec![ColumnDefinition {
            name: "id".into(),
            data_type: DataType::Integer,
            nullable: false,
            primary_key: true,
        }],
        vec![vec![]],
    );
    let stored = Database { tables: vec![("users".to_string(), users)] };

    assert!(matches!(
        Executor::new(stored, "database.json"),
        Err(BackendError::InvalidSchema(_))
    ));
}

#[test]
fn key_index_records_each_row() {
    let column = |name: &str, data_type, primary_key| ColumnDefinition {
        name: name.into(),
        data_type,
        nullable: true,
        primary_key,
    };
    let mut table = Table::from_stored(
        vec![column("name", DataType::String, true), column("n", DataType::Integer, false)],
        vec![
            vec![Value::String("b".into()), Value::Integer(2)],
            vec![Value::String("a".into()), Value::Null],
        ],
    );
    assert_eq!(table.validate_and_rebuild(), Ok(()));
    assert!(!table.columns[0].nullable);
    assert_eq!(table.primary_key_column, Some(0));
    assert_eq!(table.key_row(&PrimaryKeyValue::String("a".into())), Some(1));
    assert_eq!(table.key_row(&PrimaryKeyValue::String("b".into())), Some(0));
    assert_eq!(table.key_row(&PrimaryKeyValue::String("c".into())), None);
    table.append_row(vec![Value::String("c".into()), Value::Integer(7)]);
    assert_eq!(table.key_row(&PrimaryKeyValue::String("c".into())), Some(2));
    assert_eq!(table.rows.len(), 3);

    let mut duplicate = Table::from_stored(
        vec![column("id", DataType::Boolean, true)],
        vec![vec![Value::Boolean(true)], vec![Value::Boolean(false)], vec![Value::Boolean(true)]],
    );
    assert_eq!(duplicate.validate_and_rebuild(), Err("duplicate primary key in row 2".to_string()));
}

#[test]
fn duplicate_string_keys_are_reported_with_debug_escapes() {
    let mut engine = Engine::new();
    engine.execute("CREATE TABLE w (k STRING PRIMARY KEY)").unwrap();
    engine.execute("INSERT INTO w VALUES ('e\u{301}')").unwrap();
    assert!(matches!(
        engine.execute("INSERT INTO w VALUES ('e\u{301}')"),
        Err(BackendError::DuplicatePrimaryKey(m)) if m == "String(\"e\\u{301}\")"
    ));
    engine.execute("INSERT INTO w VALUES ('a\u{ad}\"b\t')").unwrap();
    assert!(matches!(
        engine.execute("INSERT INTO w VALUES ('a\u{ad}\"b\t')"),
        Err(BackendError::DuplicatePrimaryKey(m)) if m == "String(\"a\\u{ad}\\\"b\\t\")"
    ));
    engine.execute("INSERT INTO w VALUES ('O''Reilly 🚀')").unwrap();
    assert!(matches!(
        engine.execute("INSERT INTO w VALUES ('O''Reilly 🚀')"),
        Err(BackendError::DuplicatePrimaryKey(m)) if m == "String(\"O'Reilly 🚀\")"
    ));
}
