use rustql::expr::{BinaryOp, ExprKind, Literal, UnaryOp};
use rustql::float::{FloatReply, FloatTask};
use rustql::lexer::Lexer;
use rustql::parser::{ParseError, Parser};
use rustql::span::Span;
use rustql::statement::{DataType, SelectItem, Statement, StatementKind};

fn host(task: FloatTask) -> FloatReply {
    match task {
        FloatTask::Parse(text) => match text.parse::<f64>() {
            Ok(value) => FloatReply::Number(value.to_bits()),
            Err(_) => FloatReply::Invalid,
        },
        FloatTask::FromInteger(value) => FloatReply::Number((value as f64).to_bits()),
        FloatTask::Arithmetic(op, a, b) => {
            let (x, y) = (f64::from_bits(a), f64::from_bits(b));
            let value = match op {
                BinaryOp::Add => x + y,
                BinaryOp::Subtract => x - y,
                BinaryOp::Multiply => x * y,
                BinaryOp::Divide => x / y,
                BinaryOp::Modulo => x % y,
                _ => return FloatReply::Invalid,
            };
            FloatReply::Number(value.to_bits())
        }
        FloatTask::DebugText(bits) => FloatReply::Text(format!("{:?}", f64::from_bits(bits))),
        FloatTask::DisplayText(bits) => FloatReply::Text(format!("{}", f64::from_bits(bits))),
    }
}

fn parse(source: &str) -> Result<Statement, ParseError> {
    let tokens = Lexer::new(source).tokenize(&host).expect("source should lex");
    Parser::new(tokens).parse(&host)
}

#[test]
fn parses_insert_with_or_without_columns() {
    let without_columns = parse("INSERT INTO users VALUES (1, 'Phil');").unwrap();
    let StatementKind::Insert(statement) = without_columns.kind else {
        panic!("expected INSERT");
    };
    assert!(statement.columns.is_empty());
    assert_eq!(statement.values.len(), 2);

    let with_columns = parse("INSERT INTO users (name, id) VALUES ('Phil', 1)").unwrap();
    let StatementKind::Insert(statement) = with_columns.kind else {
        panic!("expected INSERT");
    };
    assert_eq!(statement.columns, ["name", "id"]);
}

#[test]
fn parses_every_literal_and_operator_precedence() {
    let statement = parse(
        "SELECT -1 + 2 * 3 AS result FROM value_rows WHERE enabled = TRUE AND note != NULL",
    )
    .unwrap();
    let StatementKind::Select(statement) = statement.kind else {
        panic!("expected SELECT");
    };
    let SelectItem::Expression { expr, alias } = &statement.columns[0] else {
        panic!("expected expression");
    };
    assert_eq!(alias.as_deref(), Some("result"));
    let ExprKind::Binary {
        left,
        op: BinaryOp::Add,
        right,
    } = &expr.kind
    else {
        panic!("expected addition at the root");
    };
    assert!(matches!(
        left.kind,
        ExprKind::Unary {
            op: UnaryOp::Minus,
            ..
        }
    ));
    assert!(matches!(
        right.kind,
        ExprKind::Binary {
            op: BinaryOp::Multiply,
            ..
        }
    ));

    let ExprKind::Binary {
        op: BinaryOp::And,
        right,
        ..
    } = statement.where_clause.unwrap().kind
    else {
        panic!("expected AND at the root");
    };
    assert!(matches!(
        right.kind,
        ExprKind::Binary {
            right,
            op: BinaryOp::NotEqual,
            ..
        } if matches!(right.kind, ExprKind::Literal(Literal::Null))
    ));
}

#[test]
fn parses_nullability_and_rejects_multiple_primary_keys() {
    let statement =
        parse("CREATE TABLE users (id INTEGER PRIMARY KEY, name STRING NOT NULL, score FLOAT)")
            .unwrap();
    let StatementKind::CreateTable(statement) = statement.kind else {
        panic!("expected CREATE TABLE");
    };
    assert_eq!(statement.columns[0].data_type, DataType::Integer);
    assert!(!statement.columns[0].nullable);
    assert!(!statement.columns[1].nullable);
    assert!(statement.columns[2].nullable);

    assert!(matches!(
        parse("CREATE TABLE bad (a INTEGER PRIMARY KEY, b INTEGER PRIMARY KEY)"),
        Err(ParseError::Message { .. })
    ));
    assert!(matches!(
        parse("CREATE TABLE bad (id FLOAT PRIMARY KEY)"),
        Err(ParseError::Message { .. })
    ));
}

#[test]
fn rejects_duplicate_columns_and_trailing_input() {
    assert!(matches!(
        parse("CREATE TABLE bad (id INTEGER, ID STRING)"),
        Err(ParseError::Message { .. })
    ));
    assert!(matches!(
        parse("SELECT * FROM users trailing"),
        Err(ParseError::UnexpectedToken { .. })
    ));
    assert!(parse("SELECT * FROM users;").is_ok());
}

#[test]
fn an_empty_token_stream_returns_an_error() {
    assert_eq!(Parser::new(Vec::new()).parse(&host), Err(ParseError::UnexpectedEof));
}

#[test]
fn unexpected_token_names_what_was_expected_and_found() {
    assert_eq!(
        parse("SELECT * FROM users trailing"),
        Err(ParseError::UnexpectedToken {
            expected: "Eof".into(),
            found: "Identifier(\"trailing\")".into(),
            span: Span::new(20, 28),
        })
    );
    assert_eq!(parse("SELECT 1.5 FROM"), Err(ParseError::UnexpectedEof));
    assert_eq!(
        parse("SELECT 2.0 3.0 FROM t"),
        Err(ParseError::UnexpectedToken {
            expected: "',' or FROM".into(),
            found: "Float(3.0)".into(),
            span: Span::new(11, 14),
        })
    );
}

#[test]
fn where_clause_precedence_or_below_and() {
    let statement = parse("SELECT a FROM t WHERE a = 1 OR b = 2 AND c = 3").unwrap();
    let StatementKind::Select(statement) = statement.kind else {
        panic!("expected SELECT");
    };
    let ExprKind::Binary { op: BinaryOp::Or, right, .. } = statement.where_clause.unwrap().kind else {
        panic!("expected OR at the root");
    };
    assert!(matches!(right.kind, ExprKind::Binary { op: BinaryOp::And, .. }));
}

#[test]
fn primary_key_columns_are_not_nullable_and_select_lists_keep_order() {
    let statement = parse("CREATE TABLE t (id STRING PRIMARY KEY)").unwrap();
    let StatementKind::CreateTable(statement) = statement.kind else {
        panic!("expected CREATE TABLE");
    };
    assert!(statement.columns[0].primary_key);
    assert!(!statement.columns[0].nullable);
    let statement = parse("SELECT *, a, b AS c FROM t").unwrap();
    let StatementKind::Select(statement) = statement.kind else {
        panic!("expected SELECT");
    };
    assert_eq!(statement.columns.len(), 3);
    assert!(matches!(statement.columns[0], SelectItem::Wildcard));
    assert!(matches!(&statement.columns[2], SelectItem::Expression { alias: Some(alias), .. } if alias == "c"));
}

#[test]
fn unexpected_string_tokens_are_shown_with_debug_escapes() {
    assert_eq!(
        parse("SELECT 1 'e\u{301}' FROM t"),
        Err(ParseError::UnexpectedToken {
            expected: "',' or FROM".into(),
            found: "String(\"e\\u{301}\")".into(),
            span: Span::new(9, 14),
        })
    );
}
