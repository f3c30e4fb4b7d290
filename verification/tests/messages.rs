use rustql::error::BackendError;
use rustql::lexer::LexError;
use rustql::parser::ParseError;
use rustql::span::Span;
use rustql::statement::DataType;

#[test]
fn errors_read_as_sentences() {
    let cases = [
        (BackendError::TableAlreadyExists("t".into()), "table 't' already exists"),
        (BackendError::TableNotFound("t".into()), "table 't' does not exist"),
        (
            BackendError::ColumnNotFound { table: "t".into(), column: "c".into() },
            "column 'c' does not exist in table 't'",
        ),
        (BackendError::DuplicateColumn("c".into()), "column 'c' appears more than once"),
        (BackendError::ValueCountMismatch { expected: 2, actual: 3 }, "expected 2 values, received 3"),
        (
            BackendError::TypeMismatch { column: "c".into(), expected: DataType::Float, found: "STRING" },
            "column 'c' expects FLOAT, received STRING",
        ),
        (BackendError::NullConstraintViolation("c".into()), "column 'c' may not be NULL"),
        (BackendError::InvalidExpression("bad".into()), "bad"),
        (BackendError::InvalidSchema("schema".into()), "schema"),
        (BackendError::InvalidPrimaryKey("key".into()), "key"),
        (BackendError::DuplicatePrimaryKey("Integer(1)".into()), "duplicate primary key Integer(1)"),
        (BackendError::Execution("boom".into()), "boom"),
        (BackendError::IoError("io".into()), "io"),
        (BackendError::SerializationError("json".into()), "json"),
        (
            BackendError::Lex(LexError::UnexpectedCharacter { character: '.', position: 0 }),
            "lexer error: unexpected character '.' at byte 0",
        ),
        (
            BackendError::Lex(LexError::UnterminatedString { start: 7 }),
            "lexer error: unterminated string starting at byte 7",
        ),
        (
            BackendError::Lex(LexError::InvalidNumber { value: "1e".into(), span: Span::new(3, 5) }),
            "lexer error: invalid numeric literal '1e' at bytes 3..5",
        ),
        (BackendError::Parse(ParseError::UnexpectedEof), "parser error: unexpected end of input"),
        (
            BackendError::Parse(ParseError::UnexpectedToken {
                expected: "Eof".into(),
                found: "Comma".into(),
                span: Span::new(9, 10),
            }),
            "parser error: expected Eof, found Comma at bytes 9..10",
        ),
        (
            BackendError::Parse(ParseError::Message { message: "duplicate column 'a'".into(), span: Span::new(1, 2) }),
            "parser error: duplicate column 'a' at bytes 1..2",
        ),
    ];
    for (error, text) in cases {
        assert_eq!(error.message(), text);
    }
}

#[test]
fn io_errors_name_the_operation_and_path() {
    assert!(matches!(
        rustql::error::io_error("open database", "db.json", "denied"),
        BackendError::IoError(m) if m == "failed to open database 'db.json': denied"
    ));
}
