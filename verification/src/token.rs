//! Tokens and scan errors, with the mathematical values they stand for.

use vstd::prelude::*;
use vstd::string::StringExecFns;

verus! {

/// The classification of a token.
///
/// A numeric literal carries its text exactly as written (`digits` or
/// `digits.digits`); turning that text into a binary floating-point value is
/// left to the caller, since every such text denotes one.
#[derive(Clone, Debug, PartialEq, Eq)]
pub enum TokenKind {
    // single-character punctuation
    LeftParen,
    RightParen,
    LeftBrace,
    RightBrace,
    Comma,
    Dot,
    Minus,
    Plus,
    Semicolon,
    Slash,
    Star,
    // operators of one or two characters
    Bang,
    BangEqual,
    Equal,
    EqualEqual,
    Greater,
    GreaterEqual,
    Less,
    LessEqual,
    // literals
    Identifier(String),
    String(String),
    Number(String),
    // keywords
    And,
    Class,
    Else,
    False,
    Fun,
    For,
    If,
    Nil,
    Or,
    Print,
    Return,
    Super,
    This,
    True,
    Var,
    While,
    // end of input
    Eof,
}

/// The mathematical value of a [`TokenKind`]: the same variants, with the
/// text of a literal as a sequence of characters.
pub enum SpecTokenKind {
    LeftParen,
    RightParen,
    LeftBrace,
    RightBrace,
    Comma,
    Dot,
    Minus,
    Plus,
    Semicolon,
    Slash,
    Star,
    Bang,
    BangEqual,
    Equal,
    EqualEqual,
    Greater,
    GreaterEqual,
    Less,
    LessEqual,
    Identifier(Seq<char>),
    String(Seq<char>),
    Number(Seq<char>),
    And,
    Class,
    Else,
    False,
    Fun,
    For,
    If,
    Nil,
    Or,
    Print,
    Return,
    Super,
    This,
    True,
    Var,
    While,
    Eof,
}

impl View for TokenKind {
    type V = SpecTokenKind;

    open spec fn view(&self) -> SpecTokenKind {
        match *self {
            TokenKind::LeftParen => SpecTokenKind::LeftParen,
            TokenKind::RightParen => SpecTokenKind::RightParen,
            TokenKind::LeftBrace => SpecTokenKind::LeftBrace,
            TokenKind::RightBrace => SpecTokenKind::RightBrace,
            TokenKind::Comma => SpecTokenKind::Comma,
            TokenKind::Dot => SpecTokenKind::Dot,
            TokenKind::Minus => SpecTokenKind::Minus,
            TokenKind::Plus => SpecTokenKind::Plus,
            TokenKind::Semicolon => SpecTokenKind::Semicolon,
            TokenKind::Slash => SpecTokenKind::Slash,
            TokenKind::Star => SpecTokenKind::Star,
            TokenKind::Bang => SpecTokenKind::Bang,
            TokenKind::BangEqual => SpecTokenKind::BangEqual,
            TokenKind::Equal => SpecTokenKind::Equal,
            TokenKind::EqualEqual => SpecTokenKind::EqualEqual,
            TokenKind::Greater => SpecTokenKind::Greater,
            TokenKind::GreaterEqual => SpecTokenKind::GreaterEqual,
            TokenKind::Less => SpecTokenKind::Less,
            TokenKind::LessEqual => SpecTokenKind::LessEqual,
            TokenKind::Identifier(text) => SpecTokenKind::Identifier(text@),
            TokenKind::String(text) => SpecTokenKind::String(text@),
            TokenKind::Number(text) => SpecTokenKind::Number(text@),
            TokenKind::And => SpecTokenKind::And,
            TokenKind::Class => SpecTokenKind::Class,
            TokenKind::Else => SpecTokenKind::Else,
            TokenKind::False => SpecTokenKind::False,
            TokenKind::Fun => SpecTokenKind::Fun,
            TokenKind::For => SpecTokenKind::For,
            TokenKind::If => SpecTokenKind::If,
            TokenKind::Nil => SpecTokenKind::Nil,
            TokenKind::Or => SpecTokenKind::Or,
            TokenKind::Print => SpecTokenKind::Print,
            TokenKind::Return => SpecTokenKind::Return,
            TokenKind::Super => SpecTokenKind::Super,
            TokenKind::This => SpecTokenKind::This,
            TokenKind::True => SpecTokenKind::True,
            TokenKind::Var => SpecTokenKind::Var,
            TokenKind::While => SpecTokenKind::While,
            TokenKind::Eof => SpecTokenKind::Eof,
        }
    }
}

/// A classified lexical unit and the 1-based line on which it starts.
#[derive(Clone, Debug, PartialEq, Eq)]
pub struct Token {
    pub kind: TokenKind,
    pub line: usize,
}

/// The mathematical value of a [`Token`].
pub struct SpecToken {
    pub kind: SpecTokenKind,
    pub line: nat,
}

impl View for Token {
    type V = SpecToken;

    open spec fn view(&self) -> SpecToken {
        SpecToken { kind: self.kind@, line: self.line as nat }
    }
}

/// The mathematical values of a sequence of tokens.
pub open spec fn token_views(tokens: Seq<Token>) -> Seq<SpecToken> {
    tokens.map_values(|token: Token| token@)
}

/// What went wrong at a place where no token could be formed.
#[derive(Clone, Copy, Debug, PartialEq, Eq, Structural)]
pub enum ScanErrorKind {
    /// A string literal whose closing quote is missing.
    UnterminatedString,
    /// A character that starts no lexeme.
    UnexpectedCharacter,
}

impl ScanErrorKind {
    /// The human-readable text of this kind of error.
    pub open spec fn message_text(self) -> Seq<char> {
        match self {
            ScanErrorKind::UnterminatedString => "Unterminated string"@,
            ScanErrorKind::UnexpectedCharacter => "Unexpected character"@,
        }
    }
}

/// A lexical error: its kind and the 1-based line on which it was detected.
#[derive(Clone, Copy, Debug, PartialEq, Eq, Structural)]
pub struct ScanningError {
    pub line: usize,
    pub kind: ScanErrorKind,
}

/// The mathematical value of a [`ScanningError`].
pub struct SpecError {
    pub kind: ScanErrorKind,
    pub line: nat,
}

impl View for ScanningError {
    type V = SpecError;

    open spec fn view(&self) -> SpecError {
        SpecError { kind: self.kind, line: self.line as nat }
    }
}

/// The mathematical values of a sequence of errors.
pub open spec fn error_views(errors: Seq<ScanningError>) -> Seq<SpecError> {
    errors.map_values(|error: ScanningError| error@)
}

impl ScanningError {
    /// The human-readable message of this error.
    pub fn message(&self) -> (text: String)
        ensures
            text@ == self.kind.message_text(),
    {
        match self.kind {
            ScanErrorKind::UnterminatedString => String::from_str("Unterminated string"),
            ScanErrorKind::UnexpectedCharacter => String::from_str("Unexpected character"),
        }
    }
}

} // verus!
