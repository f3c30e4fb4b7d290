use rustql::expr::BinaryOp;
use rustql::float::{FloatReply, FloatTask};
use rustql::lexer::{invalid_number, LexError, Lexer};
use rustql::span::Span;
use rustql::text::{is_identifier_part, is_identifier_start};
use rustql::token::{Keyword, Token};

fn host(task: FloatTask) -> FloatReply {
    match task {
        FloatTask::Parse(text) => match text.parse::<f64>() {
            Ok(value) => FloatReply::Number(value.to_bits()),
            Err(_) => FloatReply::Invalid,
        },
        FloatTask::FromInteger(value) => FloatReply::Number((value as f64).to_bits()),
        FloatTask::Arithmetic(op, a, b) => {
            let (x, y) = (f64::from_bits(a), f64::from_bits(b));
            let value = match op {
                BinaryOp::Add => x + y,
                BinaryOp::Subtract => x - y,
                BinaryOp::Multiply => x * y,
                BinaryOp::Divide => x / y,
                BinaryOp::Modulo => x % y,
                _ => return FloatReply::Invalid,
            };
            FloatReply::Number(value.to_bits())
        }
        FloatTask::DebugText(bits) => FloatReply::Text(format!("{:?}", f64::from_bits(bits))),
        FloatTask::DisplayText(bits) => FloatReply::Text(format!("{}", f64::from_bits(bits))),
    }
}

fn tokens(source: &str) -> Vec<Token> {
    Lexer::new(source)
        .tokenize(&host)
        .expect("source should lex")
        .into_iter()
        .map(|token| token.token)
        .collect()
}

#[test]
fn lexes_keywords_literals_and_operators() {
    assert_eq!(
        tokens("SELECT -1, .5, 2e3, TRUE, FALSE, NULL WHERE a >= 1 AND b != 2"),
        vec![
            Token::Keyword(Keyword::Select),
            Token::Minus,
            Token::Integer(1),
            Token::Comma,
            Token::Float(0.5f64.to_bits()),
            Token::Comma,
            Token::Float(2000.0f64.to_bits()),
            Token::Comma,
            Token::Boolean(true),
            Token::Comma,
            Token::Boolean(false),
            Token::Comma,
            Token::Null,
            Token::Keyword(Keyword::Where),
            Token::Identifier("a".into()),
            Token::GreaterThanOrEqual,
            Token::Integer(1),
            Token::And,
            Token::Identifier("b".into()),
            Token::NotEqual,
            Token::Integer(2),
            Token::Eof,
        ]
    );
}

#[test]
fn uses_utf8_byte_spans_and_supports_sql_string_escaping() {
    let source = "SELECT\u{2003}name, 'O''Reilly 🚀' FROM users";
    let output = Lexer::new(source).tokenize(&host).expect("source should lex");

    assert_eq!(output[1].token, Token::Identifier("name".into()));
    assert_eq!(output[1].span.slice(source), "name");
    assert_eq!(output[3].token, Token::String("O'Reilly 🚀".into()));
    assert_eq!(output[3].span.slice(source), "'O''Reilly 🚀'");
}

#[test]
fn records_the_full_operator_span() {
    let output = Lexer::new("a >= 1").tokenize(&host).expect("source should lex");
    assert_eq!(output[1].span, Span::new(2, 4));
}

#[test]
fn reports_integer_overflow_instead_of_panicking() {
    let error = Lexer::new("999999999999999999999999999999")
        .tokenize(&host)
        .expect_err("overflow should be rejected");
    assert!(matches!(error, LexError::InvalidNumber { .. }));
}

#[test]
fn reports_unterminated_strings() {
    assert_eq!(
        Lexer::new("'unfinished").tokenize(&host),
        Err(LexError::UnterminatedString { start: 0 })
    );
}

#[test]
fn every_operator_and_punctuation_lexes() {
    assert_eq!(
        tokens(", ; ( ) + - * / % = <> < <= > >= != OR NOT"),
        vec![
            Token::Comma,
            Token::Semicolon,
            Token::LParen,
            Token::RParen,
            Token::Plus,
            Token::Minus,
            Token::Star,
            Token::Slash,
            Token::Percent,
            Token::Equal,
            Token::NotEqual,
            Token::LessThan,
            Token::LessThanOrEqual,
            Token::GreaterThan,
            Token::GreaterThanOrEqual,
            Token::NotEqual,
            Token::Or,
            Token::Not,
            Token::Eof,
        ]
    );
}

#[test]
fn keywords_ignore_case_and_identifiers_keep_it() {
    assert_eq!(
        tokens("select FrOm Users_1"),
        vec![
            Token::Keyword(Keyword::Select),
            Token::Keyword(Keyword::From),
            Token::Identifier("Users_1".into()),
            Token::Eof,
        ]
    );
}

#[test]
fn eof_span_is_empty_at_the_end_in_bytes() {
    let output = Lexer::new("é").tokenize(&host);
    assert_eq!(output, Err(LexError::UnexpectedCharacter { character: 'é', position: 0 }));
    let output = Lexer::new("x ").tokenize(&host).unwrap();
    assert_eq!(output[1].token, Token::Eof);
    assert_eq!(output[1].span, Span::new(2, 2));
    let output = Lexer::new("'é' ").tokenize(&host).unwrap();
    assert_eq!(output[0].span, Span::new(0, 4));
    assert_eq!(output[1].span, Span::new(5, 5));
}

#[test]
fn number_edge_cases() {
    assert_eq!(tokens("9223372036854775807"), vec![Token::Integer(i64::MAX), Token::Eof]);
    assert!(matches!(
        Lexer::new("9223372036854775808").tokenize(&host),
        Err(LexError::InvalidNumber { .. })
    ));
    assert_eq!(
        Lexer::new("1e").tokenize(&host),
        Err(LexError::InvalidNumber { value: "1e".into(), span: Span::new(0, 2) })
    );
    assert_eq!(tokens("1.5e+2"), vec![Token::Float(150.0f64.to_bits()), Token::Eof]);
    assert!(matches!(
        Lexer::new("1e999").tokenize(&host),
        Err(LexError::InvalidNumber { .. })
    ));
    assert_eq!(
        Lexer::new("!").tokenize(&host),
        Err(LexError::UnexpectedCharacter { character: '!', position: 0 })
    );
}

#[test]
fn identifier_character_classes() {
    assert!(is_identifier_start('a'));
    assert!(is_identifier_start('_'));
    assert!(!is_identifier_start('1'));
    assert!(!is_identifier_start('é'));
    assert!(is_identifier_part('1'));
    assert!(is_identifier_part('Z'));
    assert!(!is_identifier_part('-'));
}

#[test]
fn invalid_number_reports_text_and_span() {
    let error = invalid_number("x 12ab", 2, 6);
    assert_eq!(error, LexError::InvalidNumber { value: "12ab".into(), span: Span::new(2, 6) });
}
