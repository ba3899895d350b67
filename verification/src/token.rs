//! Tokens of the Gello language.
use vstd::prelude::*;

verus! {

/// All possible token kinds in the Gello language.
///
/// A number literal keeps its source text (one or more ASCII digits,
/// optionally followed by `.` and one or more digits); turning that text into
/// a number is left to whoever evaluates it.
#[derive(Debug)]
pub enum TokenKind {
    // Literals
    Number(String),
    String(String),
    Identifier(String),
    // Keywords
    Let,
    Fn,
    Return,
    If,
    Else,
    While,
    Print,
    True,
    False,
    Null,
    // Operators
    Plus,  // +
    Minus,  // -
    Star,  // *
    Slash,  // /
    Percent,  // %
    Bang,  // !
    BangEqual,  // !=
    Equal,  // =
    EqualEqual,  // ==
    Less,  // <
    LessEqual,  // <=
    Greater,  // >
    GreaterEqual,  // >=
    AmpAmp,  // &&
    PipePipe,  // ||
    // Delimiters
    LeftParen,  // (
    RightParen,  // )
    LeftBrace,  // {
    RightBrace,  // }
    LeftBracket,  // [
    RightBracket,  // ]
    Comma,  // ,
    // Special
    Eof,
}

/// The mathematical model of a token kind: literal payloads become character
/// sequences.
pub enum TokenKindV {
    Number(Seq<char>),
    Str(Seq<char>),
    Identifier(Seq<char>),
    Let,
    Fn,
    Return,
    If,
    Else,
    While,
    Print,
    True,
    False,
    Null,
    Plus,
    Minus,
    Star,
    Slash,
    Percent,
    Bang,
    BangEqual,
    Equal,
    EqualEqual,
    Less,
    LessEqual,
    Greater,
    GreaterEqual,
    AmpAmp,
    PipePipe,
    LeftParen,
    RightParen,
    LeftBrace,
    RightBrace,
    LeftBracket,
    RightBracket,
    Comma,
    Eof,
}

impl TokenKindV {
    /// The variant, without its payload.
    pub open spec fn tag(self) -> TokenTag {
        match self {
            TokenKindV::Number(_) => TokenTag::Number,
            TokenKindV::Str(_) => TokenTag::String,
            TokenKindV::Identifier(_) => TokenTag::Identifier,
            TokenKindV::Let => TokenTag::Let,
            TokenKindV::Fn => TokenTag::Fn,
            TokenKindV::Return => TokenTag::Return,
            TokenKindV::If => TokenTag::If,
            TokenKindV::Else => TokenTag::Else,
            TokenKindV::While => TokenTag::While,
            TokenKindV::Print => TokenTag::Print,
            TokenKindV::True => TokenTag::True,
            TokenKindV::False => TokenTag::False,
            TokenKindV::Null => TokenTag::Null,
            TokenKindV::Plus => TokenTag::Plus,
            TokenKindV::Minus => TokenTag::Minus,
            TokenKindV::Star => TokenTag::Star,
            TokenKindV::Slash => TokenTag::Slash,
            TokenKindV::Percent => TokenTag::Percent,
            TokenKindV::Bang => TokenTag::Bang,
            TokenKindV::BangEqual => TokenTag::BangEqual,
            TokenKindV::Equal => TokenTag::Equal,
            TokenKindV::EqualEqual => TokenTag::EqualEqual,
            TokenKindV::Less => TokenTag::Less,
            TokenKindV::LessEqual => TokenTag::LessEqual,
            TokenKindV::Greater => TokenTag::Greater,
            TokenKindV::GreaterEqual => TokenTag::GreaterEqual,
            TokenKindV::AmpAmp => TokenTag::AmpAmp,
            TokenKindV::PipePipe => TokenTag::PipePipe,
            TokenKindV::LeftParen => TokenTag::LeftParen,
            TokenKindV::RightParen => TokenTag::RightParen,
            TokenKindV::LeftBrace => TokenTag::LeftBrace,
            TokenKindV::RightBrace => TokenTag::RightBrace,
            TokenKindV::LeftBracket => TokenTag::LeftBracket,
            TokenKindV::RightBracket => TokenTag::RightBracket,
            TokenKindV::Comma => TokenTag::Comma,
            TokenKindV::Eof => TokenTag::Eof,
        }
    }
}

impl View for TokenKind {
    type V = TokenKindV;

    open spec fn view(&self) -> TokenKindV {
        match self {
            TokenKind::Number(s) => TokenKindV::Number(s@),
            TokenKind::String(s) => TokenKindV::Str(s@),
            TokenKind::Identifier(s) => TokenKindV::Identifier(s@),
            TokenKind::Let => TokenKindV::Let,
            TokenKind::Fn => TokenKindV::Fn,
            TokenKind::Return => TokenKindV::Return,
            TokenKind::If => TokenKindV::If,
            TokenKind::Else => TokenKindV::Else,
            TokenKind::While => TokenKindV::While,
            TokenKind::Print => TokenKindV::Print,
            TokenKind::True => TokenKindV::True,
            TokenKind::False => TokenKindV::False,
            TokenKind::Null => TokenKindV::Null,
            TokenKind::Plus => TokenKindV::Plus,
            TokenKind::Minus => TokenKindV::Minus,
            TokenKind::Star => TokenKindV::Star,
            TokenKind::Slash => TokenKindV::Slash,
            TokenKind::Percent => TokenKindV::Percent,
            TokenKind::Bang => TokenKindV::Bang,
            TokenKind::BangEqual => TokenKindV::BangEqual,
            TokenKind::Equal => TokenKindV::Equal,
            TokenKind::EqualEqual => TokenKindV::EqualEqual,
            TokenKind::Less => TokenKindV::Less,
            TokenKind::LessEqual => TokenKindV::LessEqual,
            TokenKind::Greater => TokenKindV::Greater,
            TokenKind::GreaterEqual => TokenKindV::GreaterEqual,
            TokenKind::AmpAmp => TokenKindV::AmpAmp,
            TokenKind::PipePipe => TokenKindV::PipePipe,
            TokenKind::LeftParen => TokenKindV::LeftParen,
            TokenKind::RightParen => TokenKindV::RightParen,
            TokenKind::LeftBrace => TokenKindV::LeftBrace,
            TokenKind::RightBrace => TokenKindV::RightBrace,
            TokenKind::LeftBracket => TokenKindV::LeftBracket,
            TokenKind::RightBracket => TokenKindV::RightBracket,
            TokenKind::Comma => TokenKindV::Comma,
            TokenKind::Eof => TokenKindV::Eof,
        }
    }
}

/// A token with its kind and source location (1-based line and column).
#[derive(Debug)]
pub struct Token {
    pub kind: TokenKind,
    pub line: usize,
    pub col: usize,
}

/// The model of a token.
pub struct TokenV {
    pub kind: TokenKindV,
    pub line: nat,
    pub col: nat,
}

impl View for Token {
    type V = TokenV;

    open spec fn view(&self) -> TokenV {
        TokenV { kind: self.kind@, line: self.line as nat, col: self.col as nat }
    }
}

/// The models of a sequence of tokens.
pub open spec fn tokens_view(ts: Seq<Token>) -> Seq<TokenV> {
    Seq::new(ts.len(), |i: int| ts[i]@)
}

impl Token {
    pub fn new(kind: TokenKind, line: usize, col: usize) -> (r: Self)
        ensures
            r.kind == kind,
            r.line == line,
            r.col == col,
    {
        Self { kind, line, col }
    }
}

impl TokenKind {
    /// A payload-free description of the variant.
    pub fn tag(&self) -> (r: TokenTag)
        ensures
            r == self@.tag(),
    {
        match self {
            TokenKind::Number(_) => TokenTag::Number,
            TokenKind::String(_) => TokenTag::String,
            TokenKind::Identifier(_) => TokenTag::Identifier,
            TokenKind::Let => TokenTag::Let,
            TokenKind::Fn => TokenTag::Fn,
            TokenKind::Return => TokenTag::Return,
            TokenKind::If => TokenTag::If,
            TokenKind::Else => TokenTag::Else,
            TokenKind::While => TokenTag::While,
            TokenKind::Print => TokenTag::Print,
            TokenKind::True => TokenTag::True,
            TokenKind::False => TokenTag::False,
            TokenKind::Null => TokenTag::Null,
            TokenKind::Plus => TokenTag::Plus,
            TokenKind::Minus => TokenTag::Minus,
            TokenKind::Star => TokenTag::Star,
            TokenKind::Slash => TokenTag::Slash,
            TokenKind::Percent => TokenTag::Percent,
            TokenKind::Bang => TokenTag::Bang,
            TokenKind::BangEqual => TokenTag::BangEqual,
            TokenKind::Equal => TokenTag::Equal,
            TokenKind::EqualEqual => TokenTag::EqualEqual,
            TokenKind::Less => TokenTag::Less,
            TokenKind::LessEqual => TokenTag::LessEqual,
            TokenKind::Greater => TokenTag::Greater,
            TokenKind::GreaterEqual => TokenTag::GreaterEqual,
            TokenKind::AmpAmp => TokenTag::AmpAmp,
            TokenKind::PipePipe => TokenTag::PipePipe,
            TokenKind::LeftParen => TokenTag::LeftParen,
            TokenKind::RightParen => TokenTag::RightParen,
            TokenKind::LeftBrace => TokenTag::LeftBrace,
            TokenKind::RightBrace => TokenTag::RightBrace,
            TokenKind::LeftBracket => TokenTag::LeftBracket,
            TokenKind::RightBracket => TokenTag::RightBracket,
            TokenKind::Comma => TokenTag::Comma,
            TokenKind::Eof => TokenTag::Eof,
        }
    }

}

/// The variant of a token kind, without its payload.
#[derive(Clone, Copy, Debug, PartialEq, Eq, Structural)]
pub enum TokenTag {
    Number,
    String,
    Identifier,
    Let,
    Fn,
    Return,
    If,
    Else,
    While,
    Print,
    True,
    False,
    Null,
    Plus,
    Minus,
    Star,
    Slash,
    Percent,
    Bang,
    BangEqual,
    Equal,
    EqualEqual,
    Less,
    LessEqual,
    Greater,
    GreaterEqual,
    AmpAmp,
    PipePipe,
    LeftParen,
    RightParen,
    LeftBrace,
    RightBrace,
    LeftBracket,
    RightBracket,
    Comma,
    Eof,
}


impl TokenKind {
    /// A copy of this kind.
    pub fn duplicate(&self) -> (r: Self)
        ensures
            r == *self,
    {
        match self {
            TokenKind::Number(s) => TokenKind::Number(s.clone()),
            TokenKind::String(s) => TokenKind::String(s.clone()),
            TokenKind::Identifier(s) => TokenKind::Identifier(s.clone()),
            TokenKind::Let => TokenKind::Let,
            TokenKind::Fn => TokenKind::Fn,
            TokenKind::Return => TokenKind::Return,
            TokenKind::If => TokenKind::If,
            TokenKind::Else => TokenKind::Else,
            TokenKind::While => TokenKind::While,
            TokenKind::Print => TokenKind::Print,
            TokenKind::True => TokenKind::True,
            TokenKind::False => TokenKind::False,
            TokenKind::Null => TokenKind::Null,
            TokenKind::Plus => TokenKind::Plus,
            TokenKind::Minus => TokenKind::Minus,
            TokenKind::Star => TokenKind::Star,
            TokenKind::Slash => TokenKind::Slash,
            TokenKind::Percent => TokenKind::Percent,
            TokenKind::Bang => TokenKind::Bang,
            TokenKind::BangEqual => TokenKind::BangEqual,
            TokenKind::Equal => TokenKind::Equal,
            TokenKind::EqualEqual => TokenKind::EqualEqual,
            TokenKind::Less => TokenKind::Less,
            TokenKind::LessEqual => TokenKind::LessEqual,
            TokenKind::Greater => TokenKind::Greater,
            TokenKind::GreaterEqual => TokenKind::GreaterEqual,
            TokenKind::AmpAmp => TokenKind::AmpAmp,
            TokenKind::PipePipe => TokenKind::PipePipe,
            TokenKind::LeftParen => TokenKind::LeftParen,
            TokenKind::RightParen => TokenKind::RightParen,
            TokenKind::LeftBrace => TokenKind::LeftBrace,
            TokenKind::RightBrace => TokenKind::RightBrace,
            TokenKind::LeftBracket => TokenKind::LeftBracket,
            TokenKind::RightBracket => TokenKind::RightBracket,
            TokenKind::Comma => TokenKind::Comma,
            TokenKind::Eof => TokenKind::Eof,
        }
    }
}

impl Token {
    /// A copy of this token.
    pub fn duplicate(&self) -> (r: Self)
        ensures
            r == *self,
    {
        Token { kind: self.kind.duplicate(), line: self.line, col: self.col }
    }
}

} // verus!
