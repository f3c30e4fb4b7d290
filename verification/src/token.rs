use vstd::prelude::*;
use crate::span::Span;

verus! {

/// Reserved words of the SQL subset.
#[derive(Debug, Clone, Copy, PartialEq, Eq, Hash, Structural)]
pub enum Keyword {
    Select,
    From,
    Where,
    Insert,
    Into,
    Values,
    Create,
    Table,
    As,
    Primary,
    Key,
}

/// A token produced by the lexer. A `Float` holds the IEEE-754 binary64
/// bit pattern of the literal's value.
#[derive(Debug, Clone, PartialEq)]
pub enum Token {
    Keyword(Keyword),
    Identifier(String),
    Integer(i64),
    Float(u64),
    String(String),
    Boolean(bool),
    Null,
    Comma,
    Semicolon,
    LParen,
    RParen,
    Plus,
    Minus,
    Star,
    Slash,
    Percent,
    Equal,
    NotEqual,
    LessThan,
    LessThanOrEqual,
    GreaterThan,
    GreaterThanOrEqual,
    And,
    Or,
    Not,
    Eof,
}

/// The mathematical value of a [`Token`]: its text fields as character sequences.
pub enum SpecToken {
    Keyword(Keyword),
    Identifier(Seq<char>),
    Integer(i64),
    Float(u64),
    String(Seq<char>),
    Boolean(bool),
    Null,
    Comma,
    Semicolon,
    LParen,
    RParen,
    Plus,
    Minus,
    Star,
    Slash,
    Percent,
    Equal,
    NotEqual,
    LessThan,
    LessThanOrEqual,
    GreaterThan,
    GreaterThanOrEqual,
    And,
    Or,
    Not,
    Eof,
}

impl View for Token {
    type V = SpecToken;

    open spec fn view(&self) -> SpecToken {
        match self {
            Token::Keyword(k) => SpecToken::Keyword(*k),
            Token::Identifier(s) => SpecToken::Identifier(s@),
            Token::Integer(v) => SpecToken::Integer(*v),
            Token::Float(v) => SpecToken::Float(*v),
            Token::String(s) => SpecToken::String(s@),
            Token::Boolean(b) => SpecToken::Boolean(*b),
            Token::Null => SpecToken::Null,
            Token::Comma => SpecToken::Comma,
            Token::Semicolon => SpecToken::Semicolon,
            Token::LParen => SpecToken::LParen,
            Token::RParen => SpecToken::RParen,
            Token::Plus => SpecToken::Plus,
            Token::Minus => SpecToken::Minus,
            Token::Star => SpecToken::Star,
            Token::Slash => SpecToken::Slash,
            Token::Percent => SpecToken::Percent,
            Token::Equal => SpecToken::Equal,
            Token::NotEqual => SpecToken::NotEqual,
            Token::LessThan => SpecToken::LessThan,
            Token::LessThanOrEqual => SpecToken::LessThanOrEqual,
            Token::GreaterThan => SpecToken::GreaterThan,
            Token::GreaterThanOrEqual => SpecToken::GreaterThanOrEqual,
            Token::And => SpecToken::And,
            Token::Or => SpecToken::Or,
            Token::Not => SpecToken::Not,
            Token::Eof => SpecToken::Eof,
        }
    }
}

/// A token together with its source location.
#[derive(Debug, Clone, PartialEq)]
pub struct SpannedToken {
    pub token: Token,
    pub span: Span,
}

/// The mathematical value of a [`SpannedToken`].
pub struct SpecSpanned {
    pub token: SpecToken,
    pub span: Span,
}

impl View for SpannedToken {
    type V = SpecSpanned;

    open spec fn view(&self) -> SpecSpanned {
        SpecSpanned { token: self.token@, span: self.span }
    }
}

impl SpecToken {
    pub open spec fn is_literal(self) -> bool {
        ||| self is Integer
        ||| self is Float
        ||| self is String
        ||| self is Boolean
        ||| self is Null
    }
}

impl SpannedToken {
    pub fn new(token: Token, span: Span) -> (spanned: SpannedToken)
        ensures
            spanned.token == token,
            spanned.span == span,
    {
        SpannedToken { token, span }
    }
}

impl Token {
    /// Returns true if this token is a literal value.
    pub fn is_literal(&self) -> (literal: bool)
        ensures
            literal == self@.is_literal(),
    {
        match self {
            Token::Integer(_) | Token::Float(_) | Token::String(_) | Token::Boolean(_) | Token::Null => true,
            _ => false,
        }
    }

    /// Returns true if this token is an identifier.
    pub fn is_identifier(&self) -> (identifier: bool)
        ensures
            identifier == (self is Identifier),
    {
        match self {
            Token::Identifier(_) => true,
            _ => false,
        }
    }

    /// Returns true if this token is a keyword.
    pub fn is_keyword(&self) -> (keyword: bool)
        ensures
            keyword == (self is Keyword),
    {
        match self {
            Token::Keyword(_) => true,
            _ => false,
        }
    }
}

} // verus!
