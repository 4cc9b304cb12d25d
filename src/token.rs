//! Tokens: the lexical categories and the text they were read from.
use vstd::prelude::*;
use crate::text::same_text;

verus! {

/// A token: its lexical category and the source text it was read from.
#[derive(Debug, PartialEq, Eq, Clone)]
pub struct Token {
    pub kind: TokenKind,
    pub literal: String,
}

#[derive(Debug, PartialEq, Eq, Clone, Copy, Structural)]
pub enum TokenKind {
    Illegal,
    Eof,
    Identifier,
    Integer,
    String,
    Assign,
    Plus,
    Minus,
    Bang,
    Asterisk,
    Slash,
    Percentage,
    AndAnd,
    OrOr,
    Equal,
    NotEqual,
    LessThan,
    GreaterThan,
    LessThanEqual,
    GreaterThanEqual,
    Comma,
    Semicolon,
    Colon,
    LeftParen,
    RightParen,
    LeftBrace,
    RightBrace,
    LeftSquare,
    RightSquare,
    Function,
    Let,
    True,
    False,
    If,
    Else,
    Return,
}

/// The keyword that a word spells, or `Identifier` for any other word.
pub open spec fn keyword_kind(word: Seq<char>) -> TokenKind {
    if word == "fn"@ {
        TokenKind::Function
    } else if word == "let"@ {
        TokenKind::Let
    } else if word == "true"@ {
        TokenKind::True
    } else if word == "false"@ {
        TokenKind::False
    } else if word == "if"@ {
        TokenKind::If
    } else if word == "else"@ {
        TokenKind::Else
    } else if word == "return"@ {
        TokenKind::Return
    } else {
        TokenKind::Identifier
    }
}

/// How a token kind is written when an expression is printed.
pub open spec fn kind_text(kind: TokenKind) -> Seq<char> {
    match kind {
        TokenKind::Illegal => "illegal"@,
        TokenKind::Eof => "eof"@,
        TokenKind::Identifier => "identifier"@,
        TokenKind::Integer => "integer"@,
        TokenKind::String => "string"@,
        TokenKind::Assign => "="@,
        TokenKind::Plus => "+"@,
        TokenKind::Minus => "-"@,
        TokenKind::Bang => "!"@,
        TokenKind::Asterisk => "*"@,
        TokenKind::Slash => "/"@,
        TokenKind::Percentage => "%"@,
        TokenKind::AndAnd => "&&"@,
        TokenKind::OrOr => "||"@,
        TokenKind::Equal => "=="@,
        TokenKind::NotEqual => "!="@,
        TokenKind::LessThan => "<"@,
        TokenKind::GreaterThan => ">"@,
        TokenKind::LessThanEqual => "<="@,
        TokenKind::GreaterThanEqual => ">="@,
        TokenKind::Comma => ","@,
        TokenKind::Semicolon => ";"@,
        TokenKind::Colon => ":"@,
        TokenKind::LeftParen => "("@,
        TokenKind::RightParen => ")"@,
        TokenKind::LeftBrace => "{"@,
        TokenKind::RightBrace => "}"@,
        TokenKind::LeftSquare => "["@,
        TokenKind::RightSquare => "]"@,
        TokenKind::Function => "fn"@,
        TokenKind::Let => "let"@,
        TokenKind::True => "true"@,
        TokenKind::False => "false"@,
        TokenKind::If => "if"@,
        TokenKind::Else => "else"@,
        TokenKind::Return => "return"@,
    }
}

impl TokenKind {
    /// Matches keywords.
    pub fn lookup_identifier(identifier: &str) -> (r: TokenKind)
        ensures
            r == keyword_kind(identifier@),
    {
        if same_text(identifier, "fn") {
            TokenKind::Function
        } else if same_text(identifier, "let") {
            TokenKind::Let
        } else if same_text(identifier, "true") {
            TokenKind::True
        } else if same_text(identifier, "false") {
            TokenKind::False
        } else if same_text(identifier, "if") {
            TokenKind::If
        } else if same_text(identifier, "else") {
            TokenKind::Else
        } else if same_text(identifier, "return") {
            TokenKind::Return
        } else {
            TokenKind::Identifier
        }
    }

    /// How this kind is written when an expression is printed.
    pub fn text(&self) -> (r: &'static str)
        ensures
            r@ == kind_text(*self),
    {
        match self {
            TokenKind::Illegal => "illegal",
            TokenKind::Eof => "eof",
            TokenKind::Identifier => "identifier",
            TokenKind::Integer => "integer",
            TokenKind::String => "string",
            TokenKind::Assign => "=",
            TokenKind::Plus => "+",
            TokenKind::Minus => "-",
            TokenKind::Bang => "!",
            TokenKind::Asterisk => "*",
            TokenKind::Slash => "/",
            TokenKind::Percentage => "%",
            TokenKind::AndAnd => "&&",
            TokenKind::OrOr => "||",
            TokenKind::Equal => "==",
            TokenKind::NotEqual => "!=",
            TokenKind::LessThan => "<",
            TokenKind::GreaterThan => ">",
            TokenKind::LessThanEqual => "<=",
            TokenKind::GreaterThanEqual => ">=",
            TokenKind::Comma => ",",
            TokenKind::Semicolon => ";",
            TokenKind::Colon => ":",
            TokenKind::LeftParen => "(",
            TokenKind::RightParen => ")",
            TokenKind::LeftBrace => "{",
            TokenKind::RightBrace => "}",
            TokenKind::LeftSquare => "[",
            TokenKind::RightSquare => "]",
            TokenKind::Function => "fn",
            TokenKind::Let => "let",
            TokenKind::True => "true",
            TokenKind::False => "false",
            TokenKind::If => "if",
            TokenKind::Else => "else",
            TokenKind::Return => "return",
        }
    }
}

impl Token {
    /// A token of the given kind whose text is `literal`.
    pub fn from_text(kind: TokenKind, literal: &str) -> (r: Token)
        ensures
            r.kind == kind,
            r.literal@ == literal@,
    {
        Token { kind, literal: String::from_str(literal) }
    }

    /// A copy of this token.
    pub fn duplicate(&self) -> (r: Token)
        ensures
            r == *self,
    {
        Token { kind: self.kind, literal: self.literal.clone() }
    }
}

} // verus!
